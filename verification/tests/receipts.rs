use flashblocks_ssz::error::DecodeError;
use flashblocks_ssz::payload::receipts_ssz::{decode, encode};
use flashblocks_ssz::payload::Receipts;
use flashblocks_ssz::primitives::FixedBytes;
use flashblocks_ssz::receipt::Receipt;
use flashblocks_ssz::table::Table;

const EIP1559: &str = r#"{"type":"0x2","status":"0x1","cumulativeGasUsed":"0x5208","logs":[]}"#;
const DEPOSIT: &str = r#"{"type":"0x7e","status":"0x0","cumulativeGasUsed":"0xb41c","logs":[],"depositNonce":"0x4","depositReceiptVersion":"0x1"}"#;

fn receipt(text: &str) -> Receipt {
    Receipt::from_json(text.as_bytes().to_vec()).unwrap()
}

fn hash(n: u8) -> FixedBytes<32> {
    FixedBytes([n; 32])
}

#[test]
fn receipts_are_of_variable_width() {
    assert!(!encode::is_ssz_fixed_len());
    assert!(!decode::is_ssz_fixed_len());
    assert_eq!(encode::ssz_fixed_len(), 4);
    assert_eq!(decode::ssz_fixed_len(), 4);
}

#[test]
fn text_that_reads_as_a_receipt_is_a_receipt() {
    assert_eq!(receipt(EIP1559).json().as_slice(), EIP1559.as_bytes());
    assert_eq!(receipt(DEPOSIT).json().as_slice(), DEPOSIT.as_bytes());
}

#[test]
fn what_serde_writes_for_a_receipt_is_a_receipt() {
    let parsed: op_alloy_consensus::OpReceipt = serde_json::from_str(DEPOSIT).unwrap();
    let written = serde_json::to_vec(&parsed).unwrap();
    let r = Receipt::from_json(written.clone()).unwrap();
    assert_eq!(r.json(), &written);
    let again: op_alloy_consensus::OpReceipt = serde_json::from_slice(r.json()).unwrap();
    assert_eq!(again, parsed);
}

#[test]
fn text_that_does_not_read_as_a_receipt_is_none() {
    for text in [
        "",
        "{",
        "null",
        "[]",
        r#"{"type":"0x2"}"#,
        r#"{"status":"0x1","cumulativeGasUsed":"0x5208","logs":[]}"#,
        r#"{"type":"0x99","status":"0x1","cumulativeGasUsed":"0x5208","logs":[]}"#,
        r#"{"type":"0x2","status":"0x1","cumulativeGasUsed":"0x5208","logs":[]} x"#,
    ] {
        assert_eq!(Receipt::from_json(text.as_bytes().to_vec()), None, "{text}");
    }
    assert_eq!(Receipt::from_json(vec![0xFF, 0xFE]), None);
}

#[test]
fn the_caller_can_vouch_for_a_text() {
    let text = EIP1559.as_bytes().to_vec();
    assert_eq!(Receipt::from_checked_json(text.clone(), true), Some(receipt(EIP1559)));
    assert_eq!(Receipt::from_checked_json(b"{".to_vec(), false), None);
}

#[test]
fn one_receipt_is_a_hash_a_big_endian_length_and_the_text() {
    let mut table: Receipts = Table::new();
    table.insert(hash(0x11), receipt(EIP1559));
    let bytes = encode::as_ssz_bytes(&table);
    let l = EIP1559.len();
    assert_eq!(bytes.len(), 32 + 4 + l);
    assert_eq!(encode::ssz_bytes_len(&table), 32 + 4 + l);
    assert_eq!(bytes[..32].to_vec(), vec![0x11u8; 32]);
    assert_eq!(bytes[32..36].to_vec(), (l as u32).to_be_bytes().to_vec());
    assert_eq!(bytes[32..36].to_vec(), vec![0, 0, 0, l as u8]);
    assert_eq!(bytes[36..].to_vec(), EIP1559.as_bytes().to_vec());
}

#[test]
fn written_receipts_read_back() {
    let mut table: Receipts = Table::new();
    table.insert(hash(1), receipt(EIP1559));
    table.insert(hash(2), receipt(DEPOSIT));
    table.insert(hash(3), receipt(EIP1559));
    let bytes = encode::as_ssz_bytes(&table);
    assert_eq!(bytes.len(), 3 * 36 + 2 * EIP1559.len() + DEPOSIT.len());
    let back = decode::from_ssz_bytes(&bytes).unwrap();
    assert_eq!(back, table);
    assert_eq!(back.get(&hash(2)), Some(&receipt(DEPOSIT)));
    let mut buf = vec![1u8];
    encode::ssz_append(&table, &mut buf);
    assert_eq!(buf[1..].to_vec(), bytes);
}

#[test]
fn receipts_read_back_whatever_the_order_of_their_entries() {
    let mut forward: Receipts = Table::new();
    forward.insert(hash(1), receipt(EIP1559));
    forward.insert(hash(2), receipt(DEPOSIT));
    let mut backward: Receipts = Table::new();
    backward.insert(hash(2), receipt(DEPOSIT));
    backward.insert(hash(1), receipt(EIP1559));
    let a = decode::from_ssz_bytes(&encode::as_ssz_bytes(&forward)).unwrap();
    let b = decode::from_ssz_bytes(&encode::as_ssz_bytes(&backward)).unwrap();
    assert_ne!(encode::as_ssz_bytes(&forward), encode::as_ssz_bytes(&backward));
    assert_eq!(a.len(), 2);
    assert_eq!(b.len(), 2);
    for n in [1u8, 2] {
        assert_eq!(a.get(&hash(n)), b.get(&hash(n)));
    }
}

#[test]
fn no_receipts_are_no_bytes() {
    let table: Receipts = Table::new();
    let bytes = encode::as_ssz_bytes(&table);
    assert!(bytes.is_empty());
    assert_eq!(decode::from_ssz_bytes(&bytes).unwrap().len(), 0);
    assert_eq!(decode::read_entries(&[]), Ok(vec![]));
}

#[test]
fn a_region_cut_short_is_refused() {
    let mut table: Receipts = Table::new();
    table.insert(hash(0x11), receipt(EIP1559));
    let bytes = encode::as_ssz_bytes(&table);
    let l = EIP1559.len();
    for keep in 1..bytes.len() {
        let r = decode::from_ssz_bytes(&bytes[..keep]);
        let expected = if keep < 32 {
            DecodeError::InvalidByteLength { len: keep, expected: 32 }
        } else if keep < 36 {
            DecodeError::InvalidLengthPrefix { len: keep - 32, expected: 4 }
        } else {
            DecodeError::InvalidByteLength { len: keep - 36, expected: l }
        };
        assert_eq!(r, Err(expected), "{keep}");
        assert_eq!(decode::read_entries(&bytes[..keep]), Err(expected), "{keep}");
    }
    assert!(decode::from_ssz_bytes(&bytes).is_ok());
}

#[test]
fn a_region_cut_short_in_its_second_entry_is_refused() {
    let mut table: Receipts = Table::new();
    table.insert(hash(1), receipt(EIP1559));
    table.insert(hash(2), receipt(DEPOSIT));
    let bytes = encode::as_ssz_bytes(&table);
    let first = 36 + EIP1559.len();
    assert_eq!(
        decode::from_ssz_bytes(&bytes[..bytes.len() - 1]),
        Err(DecodeError::InvalidByteLength { len: DEPOSIT.len() - 1, expected: DEPOSIT.len() })
    );
    assert_eq!(
        decode::from_ssz_bytes(&bytes[..first + 5]),
        Err(DecodeError::InvalidByteLength { len: 5, expected: 32 })
    );
    assert_eq!(
        decode::from_ssz_bytes(&bytes[..first + 33]),
        Err(DecodeError::InvalidLengthPrefix { len: 1, expected: 4 })
    );
    assert!(decode::from_ssz_bytes(&bytes[..first]).is_ok());
}

#[test]
fn a_length_that_reaches_past_the_end_is_refused() {
    let mut region = vec![0x22u8; 32];
    region.extend_from_slice(&[0xFF, 0xFF, 0xFF, 0xFF]);
    region.extend_from_slice(b"{}");
    assert_eq!(
        decode::from_ssz_bytes(&region),
        Err(DecodeError::InvalidByteLength { len: 2, expected: 0xFFFF_FFFF })
    );
}

#[test]
fn entries_are_cut_without_being_read() {
    let mut region = vec![0x22u8; 32];
    region.extend_from_slice(&[0, 0, 0, 3]);
    region.extend_from_slice(b"abc");
    region.extend_from_slice(&[0x33u8; 32]);
    region.extend_from_slice(&[0, 0, 0, 0]);
    let entries = decode::read_entries(&region).unwrap();
    assert_eq!(entries, vec![(hash(0x22), b"abc".to_vec()), (hash(0x33), vec![])]);
    assert_eq!(
        decode::check_entries(&entries),
        Err(DecodeError::InvalidReceipt { index: 0 })
    );
    assert_eq!(decode::from_ssz_bytes(&region), Err(DecodeError::InvalidReceipt { index: 0 }));
}

#[test]
fn the_first_text_that_is_no_receipt_is_named() {
    let entries = vec![
        (hash(1), EIP1559.as_bytes().to_vec()),
        (hash(2), b"{}".to_vec()),
        (hash(3), b"nonsense".to_vec()),
    ];
    assert_eq!(
        decode::check_entries(&entries),
        Err(DecodeError::InvalidReceipt { index: 1 })
    );
    let good = vec![(hash(1), EIP1559.as_bytes().to_vec()), (hash(2), DEPOSIT.as_bytes().to_vec())];
    let table = decode::check_entries(&good).unwrap();
    assert_eq!(table.len(), 2);
    assert_eq!(table.get(&hash(2)), Some(&receipt(DEPOSIT)));
}

#[test]
fn the_last_receipt_of_a_hash_stands() {
    let entries = vec![
        (hash(1), EIP1559.as_bytes().to_vec()),
        (hash(1), DEPOSIT.as_bytes().to_vec()),
    ];
    let table = decode::check_entries(&entries).unwrap();
    assert_eq!(table.len(), 1);
    assert_eq!(table.get(&hash(1)), Some(&receipt(DEPOSIT)));
}
