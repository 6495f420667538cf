use flashblocks_ssz::payload::{
    ExecutionPayloadFlashblockDeltaV1, FlashblocksMetadata, FlashblocksPayloadV1,
};
use flashblocks_ssz::primitives::{FixedBytes, PayloadId};
use flashblocks_ssz::subscriber::{Action, Event, IngestError, Session, State, WebsocketSubscriber};
use flashblocks_ssz::table::Table;

fn flashblock(index: u64) -> FlashblocksPayloadV1 {
    FlashblocksPayloadV1 {
        payload_id: PayloadId(FixedBytes([7; 8])),
        index,
        base: None,
        diff: ExecutionPayloadFlashblockDeltaV1 {
            state_root: FixedBytes([0; 32]),
            receipts_root: FixedBytes([0; 32]),
            logs_bloom: FixedBytes([0; 256]),
            gas_used: index,
            block_hash: FixedBytes([0; 32]),
            transactions: vec![],
            withdrawals: vec![],
            withdrawals_root: FixedBytes([0; 32]),
        },
        metadata: FlashblocksMetadata::new(Table::new(), Table::new(), index),
    }
}

fn subscriber() -> WebsocketSubscriber {
    WebsocketSubscriber::new("wss://example.invalid/ws".to_string())
}

#[test]
fn a_subscriber_remembers_where_the_stream_is() {
    assert_eq!(subscriber().uri(), "wss://example.invalid/ws");
}

#[test]
fn a_window_of_no_time_yields_no_flashblocks_and_no_error() {
    let s = subscriber();
    assert_eq!(s.gather_flashblocks(0, vec![Event::Connected]), Ok(vec![]));
    assert_eq!(
        s.gather_flashblocks(
            0,
            vec![Event::Connected, Event::Message(flashblock(0)), Event::DeadlineElapsed]
        ),
        Ok(vec![])
    );
    assert_eq!(
        s.gather_flashblocks(0, vec![Event::Connected, Event::Malformed]),
        Ok(vec![])
    );
}

#[test]
fn a_window_of_no_time_closes_at_once() {
    let mut session = Session::new();
    assert_eq!(session.step(Event::Requested { window_ms: 0 }), Action::Connect);
    assert_eq!(session.step(Event::Connected), Action::Close);
    assert_eq!(session.state(), State::Closed);
    assert_eq!(session.into_result(), Ok(vec![]));
}

#[test]
fn two_messages_and_a_malformed_one_yield_a_failure() {
    let s = subscriber();
    let r = s.gather_flashblocks(
        60_000,
        vec![
            Event::Connected,
            Event::Message(flashblock(0)),
            Event::Message(flashblock(1)),
            Event::Malformed,
        ],
    );
    assert_eq!(r, Err(IngestError::MessageParse));
    let later = s.gather_flashblocks(
        60_000,
        vec![
            Event::Connected,
            Event::Message(flashblock(0)),
            Event::Message(flashblock(1)),
            Event::Malformed,
            Event::Message(flashblock(2)),
            Event::DeadlineElapsed,
        ],
    );
    assert_eq!(later, Err(IngestError::MessageParse));
}

#[test]
fn a_failure_discards_what_had_arrived() {
    let mut session = Session::new();
    session.step(Event::Requested { window_ms: 10 });
    session.step(Event::Connected);
    session.step(Event::Message(flashblock(0)));
    session.step(Event::Message(flashblock(1)));
    assert_eq!(session.collected().len(), 2);
    assert_eq!(session.step(Event::Malformed), Action::Abort);
    assert_eq!(session.state(), State::Failed(IngestError::MessageParse));
    assert!(session.collected().is_empty());
    assert_eq!(session.step(Event::Message(flashblock(2))), Action::Ignore);
    assert!(session.collected().is_empty());
    assert_eq!(session.into_result(), Err(IngestError::MessageParse));
}

#[test]
fn messages_before_the_deadline_are_gathered_in_order() {
    let s = subscriber();
    let r = s.gather_flashblocks(
        1,
        vec![
            Event::Connected,
            Event::Message(flashblock(2)),
            Event::Message(flashblock(0)),
            Event::Message(flashblock(0)),
            Event::Message(flashblock(1)),
            Event::DeadlineElapsed,
            Event::Message(flashblock(9)),
            Event::TransportError,
        ],
    );
    assert_eq!(r, Ok(vec![flashblock(2), flashblock(0), flashblock(0), flashblock(1)]));
}

#[test]
fn a_broken_connection_yields_a_failure() {
    let s = subscriber();
    assert_eq!(
        s.gather_flashblocks(
            5,
            vec![Event::Connected, Event::Message(flashblock(0)), Event::TransportError]
        ),
        Err(IngestError::Transport)
    );
    assert_eq!(
        s.gather_flashblocks(5, vec![Event::ConnectFailed, Event::Connected]),
        Err(IngestError::Transport)
    );
}

#[test]
fn a_session_that_is_not_over_yields_nothing_yet() {
    let s = subscriber();
    assert_eq!(s.gather_flashblocks(5, vec![]), Err(IngestError::Unfinished));
    assert_eq!(
        s.gather_flashblocks(5, vec![Event::Connected, Event::Message(flashblock(0))]),
        Err(IngestError::Unfinished)
    );
    assert_eq!(Session::new().into_result(), Err(IngestError::Unfinished));
}

#[test]
fn a_stream_that_ends_waits_for_the_deadline() {
    let mut session = Session::new();
    assert_eq!(session.step(Event::Requested { window_ms: 250 }), Action::Connect);
    assert_eq!(session.state(), State::Connecting);
    assert_eq!(session.step(Event::Connected), Action::Listen { window_ms: 250 });
    assert_eq!(session.state(), State::Streaming);
    assert_eq!(session.step(Event::Message(flashblock(0))), Action::Read);
    assert_eq!(session.step(Event::StreamEnded), Action::AwaitDeadline);
    assert_eq!(session.state(), State::Streaming);
    assert_eq!(session.step(Event::DeadlineElapsed), Action::Close);
    assert_eq!(session.state(), State::Closed);
    assert_eq!(session.into_result(), Ok(vec![flashblock(0)]));
}

#[test]
fn events_out_of_turn_are_ignored() {
    let mut session = Session::new();
    assert_eq!(session.step(Event::Connected), Action::Ignore);
    assert_eq!(session.step(Event::Message(flashblock(0))), Action::Ignore);
    assert_eq!(session.step(Event::DeadlineElapsed), Action::Ignore);
    assert_eq!(session.state(), State::Idle);
    session.step(Event::Requested { window_ms: 3 });
    assert_eq!(session.step(Event::Requested { window_ms: 9 }), Action::Ignore);
    assert_eq!(session.step(Event::Malformed), Action::Ignore);
    assert_eq!(session.step(Event::DeadlineElapsed), Action::Ignore);
    assert_eq!(session.state(), State::Connecting);
    assert_eq!(session.step(Event::ConnectFailed), Action::Abort);
    assert_eq!(session.state(), State::Failed(IngestError::Transport));
    assert_eq!(session.step(Event::Connected), Action::Ignore);
}
