//! Gathering flashblocks from a stream for a bounded time.
//!
//! Nothing here opens a connection or watches a clock. A `Session` is told
//! what happened, one event at a time, and answers with what to do next. It
//! keeps the flashblocks that arrived, in the order in which they arrived,
//! until the deadline closes the session or a failure ends it. A failure
//! discards what had arrived: a session yields all or nothing.

use crate::payload::FlashblocksPayloadV1;
use vstd::prelude::*;

verus! {

/// Why a session yields no flashblocks.
#[derive(Clone, Copy, Debug, PartialEq, Eq, Structural)]
pub enum IngestError {
    /// The connection could not be opened, or it broke.
    Transport,
    /// A message did not read as a flashblock.
    MessageParse,
    /// The session has neither been closed nor failed.
    Unfinished,
}

/// Where a session stands.
#[derive(Clone, Copy, Debug, PartialEq, Eq, Structural)]
pub enum State {
    /// Nothing has been asked for yet.
    Idle,
    /// The connection is being opened.
    Connecting,
    /// Messages are being read and the clock is running.
    Streaming,
    /// The deadline has passed: the flashblocks that arrived are the result.
    Closed,
    /// The session has failed: there is no result.
    Failed(IngestError),
}

/// What happened.
#[derive(Clone, Debug, PartialEq, Eq)]
pub enum Event {
    /// Flashblocks are to be gathered for this many milliseconds.
    Requested { window_ms: u64 },
    /// The connection is open.
    Connected,
    /// The connection could not be opened.
    ConnectFailed,
    /// A message arrived and read as this flashblock.
    Message(FlashblocksPayloadV1),
    /// A message arrived and did not read as a flashblock.
    Malformed,
    /// The connection broke.
    TransportError,
    /// The stream ended: no more messages will arrive.
    StreamEnded,
    /// The time is up.
    DeadlineElapsed,
}

/// What to do next.
#[derive(Clone, Copy, Debug, PartialEq, Eq, Structural)]
pub enum Action {
    /// Open the connection.
    Connect,
    /// Start the clock for this many milliseconds and wait for a message or the deadline.
    Listen { window_ms: u64 },
    /// Wait for the next message or the deadline.
    Read,
    /// Wait for the deadline.
    AwaitDeadline,
    /// Close the connection: the session has its result.
    Close,
    /// Close the connection: the session has failed.
    Abort,
    /// Nothing: the event does not concern the session as it stands.
    Ignore,
}

/// What a session holds.
pub struct SessionView {
    pub state: State,
    pub window_ms: u64,
    pub collected: Seq<FlashblocksPayloadV1>,
}

/// A session before anything has been asked for.
pub open spec fn spec_idle() -> SessionView {
    SessionView { state: State::Idle, window_ms: 0, collected: Seq::empty() }
}

/// The session that `event` turns `s` into.
pub open spec fn spec_next(s: SessionView, event: Event) -> SessionView {
    match (s.state, event) {
        (State::Idle, Event::Requested { window_ms }) => SessionView {
            state: State::Connecting,
            window_ms,
            collected: s.collected,
        },
        (State::Connecting, Event::Connected) => if s.window_ms == 0 {
            SessionView { state: State::Closed, window_ms: s.window_ms, collected: s.collected }
        } else {
            SessionView { state: State::Streaming, window_ms: s.window_ms, collected: s.collected }
        },
        (State::Connecting, Event::ConnectFailed) => SessionView {
            state: State::Failed(IngestError::Transport),
            window_ms: s.window_ms,
            collected: Seq::empty(),
        },
        (State::Streaming, Event::Message(flashblock)) => SessionView {
            state: State::Streaming,
            window_ms: s.window_ms,
            collected: s.collected.push(flashblock),
        },
        (State::Streaming, Event::Malformed) => SessionView {
            state: State::Failed(IngestError::MessageParse),
            window_ms: s.window_ms,
            collected: Seq::empty(),
        },
        (State::Streaming, Event::TransportError) => SessionView {
            state: State::Failed(IngestError::Transport),
            window_ms: s.window_ms,
            collected: Seq::empty(),
        },
        (State::Streaming, Event::DeadlineElapsed) => SessionView {
            state: State::Closed,
            window_ms: s.window_ms,
            collected: s.collected,
        },
        _ => s,
    }
}

/// What the session `s` asks for when `event` happens.
pub open spec fn spec_action(s: SessionView, event: Event) -> Action {
    match (s.state, event) {
        (State::Idle, Event::Requested { window_ms }) => Action::Connect,
        (State::Connecting, Event::Connected) => if s.window_ms == 0 {
            Action::Close
        } else {
            Action::Listen { window_ms: s.window_ms }
        },
        (State::Connecting, Event::ConnectFailed) => Action::Abort,
        (State::Streaming, Event::Message(flashblock)) => Action::Read,
        (State::Streaming, Event::Malformed) => Action::Abort,
        (State::Streaming, Event::TransportError) => Action::Abort,
        (State::Streaming, Event::StreamEnded) => Action::AwaitDeadline,
        (State::Streaming, Event::DeadlineElapsed) => Action::Close,
        _ => Action::Ignore,
    }
}

/// The session that `events`, one after the other, turn `s` into.
pub open spec fn spec_run(s: SessionView, events: Seq<Event>) -> SessionView
    decreases events.len(),
{
    if events.len() == 0 {
        s
    } else {
        spec_next(spec_run(s, events.drop_last()), events.last())
    }
}

/// What the session `s` yields.
pub open spec fn spec_outcome(s: SessionView) -> Result<Seq<FlashblocksPayloadV1>, IngestError> {
    match s.state {
        State::Closed => Ok(s.collected),
        State::Failed(e) => Err(e),
        _ => Err(IngestError::Unfinished),
    }
}

/// What gathering for `window_ms` milliseconds yields when `events` happen.
pub open spec fn spec_gather(window_ms: u64, events: Seq<Event>) -> Result<
    Seq<FlashblocksPayloadV1>,
    IngestError,
> {
    spec_outcome(spec_run(spec_next(spec_idle(), Event::Requested { window_ms }), events))
}

/// A session: what has been asked for, and what has arrived so far.
#[derive(Debug)]
pub struct Session {
    state: State,
    window_ms: u64,
    collected: Vec<FlashblocksPayloadV1>,
}

impl View for Session {
    type V = SessionView;

    closed spec fn view(&self) -> SessionView {
        SessionView { state: self.state, window_ms: self.window_ms, collected: self.collected@ }
    }
}

impl Session {
    /// A session before anything has been asked for.
    pub fn new() -> (r: Session)
        ensures
            r@ == spec_idle(),
    {
        Session { state: State::Idle, window_ms: 0, collected: Vec::new() }
    }

    /// Where the session stands.
    pub fn state(&self) -> (r: State)
        ensures
            r == self@.state,
    {
        self.state
    }

    /// The flashblocks that have arrived, in the order in which they arrived.
    pub fn collected(&self) -> (r: &Vec<FlashblocksPayloadV1>)
        ensures
            r@ == self@.collected,
    {
        &self.collected
    }

    /// Takes note of `event` and says what to do next.
    pub fn step(&mut self, event: Event) -> (action: Action)
        ensures
            final(self)@ == spec_next(old(self)@, event),
            action == spec_action(old(self)@, event),
    {
        match self.state {
            State::Idle => match event {
                Event::Requested { window_ms } => {
                    self.state = State::Connecting;
                    self.window_ms = window_ms;
                    Action::Connect
                },
                _ => Action::Ignore,
            },
            State::Connecting => match event {
                Event::Connected => {
                    if self.window_ms == 0 {
                        self.state = State::Closed;
                        Action::Close
                    } else {
                        self.state = State::Streaming;
                        Action::Listen { window_ms: self.window_ms }
                    }
                },
                Event::ConnectFailed => {
                    self.state = State::Failed(IngestError::Transport);
                    self.collected = Vec::new();
                    Action::Abort
                },
                _ => Action::Ignore,
            },
            State::Streaming => match event {
                Event::Message(flashblock) => {
                    self.collected.push(flashblock);
                    Action::Read
                },
                Event::Malformed => {
                    self.state = State::Failed(IngestError::MessageParse);
                    self.collected = Vec::new();
                    Action::Abort
                },
                Event::TransportError => {
                    self.state = State::Failed(IngestError::Transport);
                    self.collected = Vec::new();
                    Action::Abort
                },
                Event::StreamEnded => Action::AwaitDeadline,
                Event::DeadlineElapsed => {
                    self.state = State::Closed;
                    Action::Close
                },
                _ => Action::Ignore,
            },
            _ => Action::Ignore,
        }
    }

    /// What the session yields: the flashblocks that arrived, if the
    /// deadline closed it; why there are none, if it failed or is not over.
    pub fn into_result(self) -> (r: Result<Vec<FlashblocksPayloadV1>, IngestError>)
        ensures
            match r {
                Ok(flashblocks) => spec_outcome(self@) == Ok::<
                    Seq<FlashblocksPayloadV1>,
                    IngestError,
                >(flashblocks@),
                Err(e) => spec_outcome(self@) == Err::<Seq<FlashblocksPayloadV1>, IngestError>(e),
            },
    {
        match self.state {
            State::Closed => Ok(self.collected),
            State::Failed(e) => Err(e),
            _ => Err(IngestError::Unfinished),
        }
    }
}

} // verus!

verus! {

/// The events that bring the flashblocks `flashblocks`, one message each.
pub open spec fn spec_messages(flashblocks: Seq<FlashblocksPayloadV1>) -> Seq<Event> {
    flashblocks.map_values(|f: FlashblocksPayloadV1| Event::Message(f))
}

/// Events that happen one after the other act one after the other.
pub proof fn lemma_run_concat(s: SessionView, first: Seq<Event>, then: Seq<Event>)
    ensures
        spec_run(s, first + then) == spec_run(spec_run(s, first), then),
    decreases then.len(),
{
    if then.len() == 0 {
        assert(first + then =~= first);
    } else {
        lemma_run_concat(s, first, then.drop_last());
        assert((first + then).drop_last() =~= first + then.drop_last());
        assert((first + then).last() == then.last());
    }
}

/// One event acts as a step.
pub proof fn lemma_run_one(s: SessionView, event: Event)
    ensures
        spec_run(s, seq![event]) == spec_next(s, event),
{
    assert(seq![event].drop_last() =~= Seq::<Event>::empty());
    assert(spec_run(s, seq![event].drop_last()) == s);
}

/// A session that is closed or has failed stays as it is, whatever happens.
pub proof fn lemma_terminal_stays(s: SessionView, events: Seq<Event>)
    requires
        s.state is Closed || s.state is Failed,
    ensures
        spec_run(s, events) == s,
    decreases events.len(),
{
    if events.len() > 0 {
        lemma_terminal_stays(s, events.drop_last());
    }
}

/// While a session is streaming, the flashblocks that arrive are kept in the
/// order in which they arrive: none is dropped, none is moved, none is doubled.
pub proof fn lemma_messages_kept(s: SessionView, flashblocks: Seq<FlashblocksPayloadV1>)
    requires
        s.state is Streaming,
    ensures
        spec_run(s, spec_messages(flashblocks)) == (SessionView {
            state: State::Streaming,
            window_ms: s.window_ms,
            collected: s.collected + flashblocks,
        }),
    decreases flashblocks.len(),
{
    let events = spec_messages(flashblocks);
    if flashblocks.len() == 0 {
        assert(s.collected + flashblocks =~= s.collected);
    } else {
        lemma_messages_kept(s, flashblocks.drop_last());
        assert(events.drop_last() =~= spec_messages(flashblocks.drop_last()));
        assert(events.last() == Event::Message(flashblocks.last()));
        assert((s.collected + flashblocks.drop_last()).push(flashblocks.last()) =~= s.collected
            + flashblocks);
    }
}

/// How far a session has come: it starts idle, connects, streams, and ends
/// closed or failed.
pub open spec fn spec_progress(state: State) -> nat {
    match state {
        State::Idle => 0,
        State::Connecting => 1,
        State::Streaming => 2,
        State::Closed => 3,
        State::Failed(_) => 3,
    }
}

/// A session never moves back, it fails only while it connects or streams,
/// and when it fails it keeps nothing of what it had gathered.
pub proof fn lemma_session_moves_forward(s: SessionView, event: Event)
    ensures
        spec_progress(spec_next(s, event).state) >= spec_progress(s.state),
        spec_next(s, event).state is Failed && !(s.state is Failed) ==> (s.state is Connecting
            || s.state is Streaming) && spec_next(s, event).collected.len() == 0,
{
}

/// Gathering for no time at all yields no flashblocks and no error, once the
/// connection is open, whatever happens afterwards.
pub proof fn lemma_zero_window(events: Seq<Event>)
    ensures
        spec_gather(0, seq![Event::Connected] + events) == Ok::<
            Seq<FlashblocksPayloadV1>,
            IngestError,
        >(Seq::empty()),
{
    let requested = spec_next(spec_idle(), Event::Requested { window_ms: 0 });
    lemma_run_concat(requested, seq![Event::Connected], events);
    lemma_run_one(requested, Event::Connected);
    lemma_terminal_stays(spec_next(requested, Event::Connected), events);
}

/// Flashblocks that arrive before the deadline are the result, in the order
/// in which they arrived, whatever happens after the deadline.
pub proof fn lemma_gathered_in_order(
    window_ms: u64,
    flashblocks: Seq<FlashblocksPayloadV1>,
    later: Seq<Event>,
)
    requires
        window_ms > 0,
    ensures
        spec_gather(
            window_ms,
            seq![Event::Connected] + spec_messages(flashblocks) + seq![Event::DeadlineElapsed]
                + later,
        ) == Ok::<Seq<FlashblocksPayloadV1>, IngestError>(flashblocks),
{
    let requested = spec_next(spec_idle(), Event::Requested { window_ms });
    let streaming = spec_next(requested, Event::Connected);
    let messages = spec_messages(flashblocks);
    lemma_run_concat(
        requested,
        seq![Event::Connected] + messages + seq![Event::DeadlineElapsed],
        later,
    );
    lemma_run_concat(requested, seq![Event::Connected] + messages, seq![Event::DeadlineElapsed]);
    lemma_run_concat(requested, seq![Event::Connected], messages);
    lemma_run_one(requested, Event::Connected);
    lemma_messages_kept(streaming, flashblocks);
    let full = spec_run(streaming, messages);
    lemma_run_one(full, Event::DeadlineElapsed);
    lemma_terminal_stays(spec_next(full, Event::DeadlineElapsed), later);
    assert(Seq::<FlashblocksPayloadV1>::empty() + flashblocks =~= flashblocks);
}

/// A message that does not read as a flashblock makes the whole gathering
/// fail: the flashblocks that arrived before it are not the result, and
/// nothing that happens afterwards changes that.
pub proof fn lemma_malformed_fails(
    window_ms: u64,
    flashblocks: Seq<FlashblocksPayloadV1>,
    later: Seq<Event>,
)
    requires
        window_ms > 0,
    ensures
        spec_gather(
            window_ms,
            seq![Event::Connected] + spec_messages(flashblocks) + seq![Event::Malformed] + later,
        ) == Err::<Seq<FlashblocksPayloadV1>, IngestError>(IngestError::MessageParse),
{
    let requested = spec_next(spec_idle(), Event::Requested { window_ms });
    let streaming = spec_next(requested, Event::Connected);
    let messages = spec_messages(flashblocks);
    lemma_run_concat(requested, seq![Event::Connected] + messages + seq![Event::Malformed], later);
    lemma_run_concat(requested, seq![Event::Connected] + messages, seq![Event::Malformed]);
    lemma_run_concat(requested, seq![Event::Connected], messages);
    lemma_run_one(requested, Event::Connected);
    lemma_messages_kept(streaming, flashblocks);
    let full = spec_run(streaming, messages);
    lemma_run_one(full, Event::Malformed);
    lemma_terminal_stays(spec_next(full, Event::Malformed), later);
}

/// A connection that breaks makes the whole gathering fail, as a message
/// that does not read as a flashblock does.
pub proof fn lemma_transport_error_fails(
    window_ms: u64,
    flashblocks: Seq<FlashblocksPayloadV1>,
    later: Seq<Event>,
)
    requires
        window_ms > 0,
    ensures
        spec_gather(
            window_ms,
            seq![Event::Connected] + spec_messages(flashblocks) + seq![Event::TransportError]
                + later,
        ) == Err::<Seq<FlashblocksPayloadV1>, IngestError>(IngestError::Transport),
{
    let requested = spec_next(spec_idle(), Event::Requested { window_ms });
    let streaming = spec_next(requested, Event::Connected);
    let messages = spec_messages(flashblocks);
    lemma_run_concat(
        requested,
        seq![Event::Connected] + messages + seq![Event::TransportError],
        later,
    );
    lemma_run_concat(requested, seq![Event::Connected] + messages, seq![Event::TransportError]);
    lemma_run_concat(requested, seq![Event::Connected], messages);
    lemma_run_one(requested, Event::Connected);
    lemma_messages_kept(streaming, flashblocks);
    let full = spec_run(streaming, messages);
    lemma_run_one(full, Event::TransportError);
    lemma_terminal_stays(spec_next(full, Event::TransportError), later);
}

/// A connection that cannot be opened makes the gathering fail.
pub proof fn lemma_connect_failure_fails(window_ms: u64, later: Seq<Event>)
    ensures
        spec_gather(window_ms, seq![Event::ConnectFailed] + later) == Err::<
            Seq<FlashblocksPayloadV1>,
            IngestError,
        >(IngestError::Transport),
{
    let requested = spec_next(spec_idle(), Event::Requested { window_ms });
    lemma_run_concat(requested, seq![Event::ConnectFailed], later);
    lemma_run_one(requested, Event::ConnectFailed);
    lemma_terminal_stays(spec_next(requested, Event::ConnectFailed), later);
}

/// Where flashblocks are to be gathered from.
#[derive(Clone, Debug, PartialEq, Eq)]
pub struct WebsocketSubscriber {
    uri: String,
}

impl WebsocketSubscriber {
    /// A subscriber to the stream at `uri`.
    pub fn new(uri: String) -> (r: Self)
        ensures
            r.spec_uri() == uri,
    {
        Self { uri }
    }

    /// Where the stream is.
    pub closed spec fn spec_uri(&self) -> String {
        self.uri
    }

    /// Where the stream is.
    pub fn uri(&self) -> (r: &String)
        ensures
            *r == self.spec_uri(),
    {
        &self.uri
    }

    /// Gathers flashblocks for `window_ms` milliseconds from what happens on
    /// the stream, given as `events` in the order in which it happens.
    pub fn gather_flashblocks(&self, window_ms: u64, events: Vec<Event>) -> (r: Result<
        Vec<FlashblocksPayloadV1>,
        IngestError,
    >)
        ensures
            match r {
                Ok(flashblocks) => spec_gather(window_ms, events@) == Ok::<
                    Seq<FlashblocksPayloadV1>,
                    IngestError,
                >(flashblocks@),
                Err(e) => spec_gather(window_ms, events@) == Err::<
                    Seq<FlashblocksPayloadV1>,
                    IngestError,
                >(e),
            },
    {
        let mut session = Session::new();
        session.step(Event::Requested { window_ms });
        let ghost requested = session@;
        let ghost all = events@;
        for event in it: events
            invariant
                all == it.seq(),
                session@ == spec_run(requested, all.take(it.index() as int)),
        {
            proof {
                let next = all.take(it.index() + 1);
                assert(next.drop_last() =~= all.take(it.index() as int));
                assert(next.last() == event);
            }
            session.step(event);
        }
        assert(all.take(all.len() as int) =~= all);
        session.into_result()
    }
}

} // verus!
