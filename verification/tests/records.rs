use flashblocks_ssz::error::DecodeError;
use flashblocks_ssz::list::{decode_list, encode_list, list_encoded_len};
use flashblocks_ssz::payload::flashblock::{
    decode_flashblocks, decode_option_base, encode_flashblocks,
};
use flashblocks_ssz::payload::{
    ExecutionPayloadBaseV1, ExecutionPayloadFlashblockDeltaV1, FlashblocksMetadata,
    FlashblocksPayloadV1, NewAccountBalances, Receipts,
};
use flashblocks_ssz::primitives::{FixedBytes, PayloadId, U256};
use flashblocks_ssz::receipt::Receipt;
use flashblocks_ssz::table::Table;
use flashblocks_ssz::withdrawal::{
    decode_withdrawals, encode_withdrawals, withdrawals_encoded_len, Withdrawal,
};

const EIP1559: &str = r#"{"type":"0x2","status":"0x1","cumulativeGasUsed":"0x5208","logs":[]}"#;

fn base(extra: &[u8]) -> ExecutionPayloadBaseV1 {
    ExecutionPayloadBaseV1 {
        parent_beacon_block_root: FixedBytes([1; 32]),
        parent_hash: FixedBytes([2; 32]),
        fee_recipient: FixedBytes([3; 20]),
        prev_randao: FixedBytes([4; 32]),
        block_number: 5,
        gas_limit: 6,
        timestamp: 7,
        extra_data: extra.to_vec(),
        base_fee_per_gas: U256::from_u64(8),
    }
}

fn withdrawal(n: u64) -> Withdrawal {
    Withdrawal { index: n, validator_index: n + 1, address: FixedBytes([n as u8; 20]), amount: n + 2 }
}

fn delta(transactions: Vec<Vec<u8>>, withdrawals: Vec<Withdrawal>) -> ExecutionPayloadFlashblockDeltaV1 {
    ExecutionPayloadFlashblockDeltaV1 {
        state_root: FixedBytes([0x10; 32]),
        receipts_root: FixedBytes([0x11; 32]),
        logs_bloom: FixedBytes([0x12; 256]),
        gas_used: 0x13,
        block_hash: FixedBytes([0x14; 32]),
        transactions,
        withdrawals,
        withdrawals_root: FixedBytes([0x15; 32]),
    }
}

fn metadata(receipts: &[u8], balances: &[u8], block_number: u64) -> FlashblocksMetadata {
    let mut r: Receipts = Table::new();
    for n in receipts {
        r.insert(FixedBytes([*n; 32]), Receipt::from_json(EIP1559.as_bytes().to_vec()).unwrap());
    }
    let mut b: NewAccountBalances = Table::new();
    for n in balances {
        b.insert(FixedBytes([*n; 20]), U256::from_u64(*n as u64 * 1000));
    }
    FlashblocksMetadata::new(r, b, block_number)
}

fn flashblock(index: u64, with_base: bool) -> FlashblocksPayloadV1 {
    FlashblocksPayloadV1 {
        payload_id: PayloadId(FixedBytes([0xA0, 0xA1, 0xA2, 0xA3, 0xA4, 0xA5, 0xA6, 0xA7])),
        index,
        base: if with_base { Some(base(b"extra")) } else { None },
        diff: delta(vec![vec![1, 2, 3], vec![], vec![4]], vec![withdrawal(1), withdrawal(2)]),
        metadata: metadata(&[1, 2], &[3, 4, 5], 99),
    }
}

#[test]
fn a_withdrawal_is_44_bytes() {
    let w = Withdrawal {
        index: 1,
        validator_index: 2,
        address: FixedBytes([9; 20]),
        amount: 0x0102,
    };
    let bytes = w.as_ssz_bytes();
    let mut expected = vec![1u8, 0, 0, 0, 0, 0, 0, 0, 2, 0, 0, 0, 0, 0, 0, 0];
    expected.extend_from_slice(&[9u8; 20]);
    expected.extend_from_slice(&[2, 1, 0, 0, 0, 0, 0, 0]);
    assert_eq!(bytes, expected);
    assert_eq!(Withdrawal::from_ssz_bytes(&bytes), Ok(w));
    assert_eq!(
        Withdrawal::from_ssz_bytes(&bytes[..43]),
        Err(DecodeError::InvalidByteLength { len: 43, expected: 44 })
    );
    let mut buf = vec![5u8];
    w.ssz_append(&mut buf);
    assert_eq!(buf[1..].to_vec(), expected);
}

#[test]
fn withdrawals_follow_one_another() {
    let items = vec![withdrawal(1), withdrawal(2), withdrawal(3)];
    let bytes = encode_withdrawals(&items);
    assert_eq!(bytes.len(), 132);
    assert_eq!(withdrawals_encoded_len(&items), Some(132));
    assert_eq!(bytes[44..88].to_vec(), withdrawal(2).as_ssz_bytes());
    assert_eq!(decode_withdrawals(&bytes), Ok(items));
    assert_eq!(decode_withdrawals(&[]), Ok(vec![]));
    assert_eq!(
        decode_withdrawals(&bytes[..100]),
        Err(DecodeError::InvalidByteLength { len: 12, expected: 44 })
    );
}

#[test]
fn a_list_is_its_offsets_and_its_items() {
    let items = vec![vec![0xAAu8, 0xBB], vec![], vec![0xCC]];
    let bytes = encode_list(&items);
    assert_eq!(
        bytes,
        vec![12, 0, 0, 0, 14, 0, 0, 0, 14, 0, 0, 0, 0xAA, 0xBB, 0xCC]
    );
    assert_eq!(list_encoded_len(&items), Some(15));
    assert_eq!(decode_list(&bytes), Ok(items));
}

#[test]
fn the_empty_list_is_no_bytes() {
    let items: Vec<Vec<u8>> = vec![];
    assert_eq!(encode_list(&items), Vec::<u8>::new());
    assert_eq!(list_encoded_len(&items), Some(0));
    assert_eq!(decode_list(&[]), Ok(vec![]));
    assert_eq!(decode_list(&[4, 0, 0, 0]), Ok(vec![vec![]]));
}

#[test]
fn a_list_with_a_bad_offset_table_is_refused() {
    assert_eq!(
        decode_list(&[4, 0]),
        Err(DecodeError::InvalidLengthPrefix { len: 2, expected: 4 })
    );
    assert_eq!(decode_list(&[9, 0, 0, 0]), Err(DecodeError::OffsetOutOfBounds(9)));
    assert_eq!(
        decode_list(&[0, 0, 0, 0]),
        Err(DecodeError::InvalidListFixedBytesLen(0))
    );
    assert_eq!(
        decode_list(&[6, 0, 0, 0, 0, 0, 0, 0]),
        Err(DecodeError::InvalidListFixedBytesLen(6))
    );
    assert_eq!(
        decode_list(&[8, 0, 0, 0, 4, 0, 0, 0]),
        Err(DecodeError::OffsetIntoFixedPortion(4))
    );
    assert_eq!(
        decode_list(&[8, 0, 0, 0, 10, 0, 0, 0, 1]),
        Err(DecodeError::OffsetOutOfBounds(10))
    );
    assert_eq!(
        decode_list(&[12, 0, 0, 0, 14, 0, 0, 0, 13, 0, 0, 0, 1, 2]),
        Err(DecodeError::OffsetsAreDecreasing(13))
    );
}

#[test]
fn a_base_is_176_bytes_and_its_extra_data() {
    let b = base(b"hello");
    let bytes = b.as_ssz_bytes();
    assert_eq!(bytes.len(), 181);
    assert_eq!(b.encoded_len(), Some(181));
    assert_eq!(bytes[..32].to_vec(), vec![1u8; 32]);
    assert_eq!(bytes[64..84].to_vec(), vec![3u8; 20]);
    assert_eq!(bytes[116..124].to_vec(), vec![5, 0, 0, 0, 0, 0, 0, 0]);
    assert_eq!(bytes[140..144].to_vec(), vec![176, 0, 0, 0]);
    assert_eq!(bytes[144], 8);
    assert_eq!(bytes[176..].to_vec(), b"hello".to_vec());
    assert_eq!(ExecutionPayloadBaseV1::from_ssz_bytes(&bytes), Ok(b.clone()));
    let mut buf = vec![1u8, 2];
    b.ssz_append(&mut buf);
    assert_eq!(buf[2..].to_vec(), bytes);
}

#[test]
fn a_base_that_is_cut_short_or_mispointed_is_refused() {
    let bytes = base(b"hello").as_ssz_bytes();
    assert_eq!(
        ExecutionPayloadBaseV1::from_ssz_bytes(&bytes[..10]),
        Err(DecodeError::InvalidByteLength { len: 10, expected: 32 })
    );
    assert_eq!(
        ExecutionPayloadBaseV1::from_ssz_bytes(&bytes[..142]),
        Err(DecodeError::InvalidLengthPrefix { len: 2, expected: 4 })
    );
    assert_eq!(
        ExecutionPayloadBaseV1::from_ssz_bytes(&bytes[..150]),
        Err(DecodeError::OffsetOutOfBounds(176))
    );
    let mut low = bytes.clone();
    low[140] = 100;
    assert_eq!(
        ExecutionPayloadBaseV1::from_ssz_bytes(&low),
        Err(DecodeError::OffsetIntoFixedPortion(100))
    );
    let mut high = bytes.clone();
    high[140] = 178;
    assert_eq!(
        ExecutionPayloadBaseV1::from_ssz_bytes(&high),
        Err(DecodeError::OffsetSkipsVariableBytes(178))
    );
    let mut far = bytes.clone();
    far[141] = 1;
    assert_eq!(
        ExecutionPayloadBaseV1::from_ssz_bytes(&far),
        Err(DecodeError::OffsetOutOfBounds(176 + 256))
    );
}

#[test]
fn a_delta_is_400_bytes_and_its_lists() {
    let d = delta(vec![vec![1, 2, 3], vec![4]], vec![withdrawal(7)]);
    let bytes = d.as_ssz_bytes();
    assert_eq!(bytes.len(), 400 + (8 + 4) + 44);
    assert_eq!(d.encoded_len(), Some(456));
    assert_eq!(bytes[360..364].to_vec(), vec![0x90, 1, 0, 0]);
    assert_eq!(bytes[364..368].to_vec(), vec![0x9C, 1, 0, 0]);
    assert_eq!(bytes[400..412].to_vec(), vec![8, 0, 0, 0, 11, 0, 0, 0, 1, 2, 3, 4]);
    assert_eq!(bytes[412..].to_vec(), withdrawal(7).as_ssz_bytes());
    assert_eq!(ExecutionPayloadFlashblockDeltaV1::from_ssz_bytes(&bytes), Ok(d));
}

#[test]
fn a_delta_without_lists_is_400_bytes() {
    let d = delta(vec![], vec![]);
    let bytes = d.as_ssz_bytes();
    assert_eq!(bytes.len(), 400);
    assert_eq!(ExecutionPayloadFlashblockDeltaV1::from_ssz_bytes(&bytes), Ok(d));
}

#[test]
fn a_delta_with_a_bad_list_is_refused() {
    let d = delta(vec![vec![1, 2, 3]], vec![withdrawal(7)]);
    let bytes = d.as_ssz_bytes();
    assert_eq!(
        ExecutionPayloadFlashblockDeltaV1::from_ssz_bytes(&bytes[..bytes.len() - 1]),
        Err(DecodeError::InvalidByteLength { len: 43, expected: 44 })
    );
    let mut bad = bytes.clone();
    bad[400] = 3;
    assert_eq!(
        ExecutionPayloadFlashblockDeltaV1::from_ssz_bytes(&bad),
        Err(DecodeError::InvalidListFixedBytesLen(3))
    );
}

#[test]
fn metadata_is_16_bytes_and_its_tables() {
    let m = metadata(&[1], &[2, 3], 0x0102);
    let bytes = m.as_ssz_bytes();
    let receipts = 36 + EIP1559.len();
    assert_eq!(bytes.len(), 16 + receipts + 104);
    assert_eq!(m.encoded_len(), Some(bytes.len()));
    assert_eq!(m.encode(), Some(bytes.clone()));
    assert_eq!(bytes[..4].to_vec(), vec![16, 0, 0, 0]);
    assert_eq!(bytes[4..8].to_vec(), ((16 + receipts) as u32).to_le_bytes().to_vec());
    assert_eq!(bytes[8..16].to_vec(), vec![2, 1, 0, 0, 0, 0, 0, 0]);
    assert_eq!(bytes[16..48].to_vec(), vec![1u8; 32]);
    assert_eq!(FlashblocksMetadata::from_ssz_bytes(&bytes), Ok(m.clone()));
    let mut buf = vec![0u8];
    m.ssz_append(&mut buf);
    assert_eq!(buf[1..].to_vec(), bytes);
}

#[test]
fn metadata_without_entries_is_16_bytes() {
    let m = metadata(&[], &[], 7);
    let bytes = m.as_ssz_bytes();
    assert_eq!(bytes, vec![16, 0, 0, 0, 16, 0, 0, 0, 7, 0, 0, 0, 0, 0, 0, 0]);
    let back = FlashblocksMetadata::from_ssz_bytes(&bytes).unwrap();
    assert_eq!(back.receipts.len(), 0);
    assert_eq!(back.new_account_balances.len(), 0);
    assert_eq!(back.block_number, 7);
}

#[test]
fn metadata_with_a_bad_table_is_refused() {
    let m = metadata(&[1], &[2], 7);
    let bytes = m.as_ssz_bytes();
    assert_eq!(
        FlashblocksMetadata::from_ssz_bytes(&bytes[..bytes.len() - 1]),
        Err(DecodeError::InvalidByteLength { len: 51, expected: 52 })
    );
    let mut not_a_receipt = bytes.clone();
    not_a_receipt[16 + 36] = b'[';
    assert_eq!(
        FlashblocksMetadata::from_ssz_bytes(&not_a_receipt),
        Err(DecodeError::InvalidReceipt { index: 0 })
    );
    assert_eq!(
        FlashblocksMetadata::from_ssz_bytes(&bytes[..15]),
        Err(DecodeError::OffsetOutOfBounds(16))
    );
    assert_eq!(
        FlashblocksMetadata::from_ssz_bytes(&[8, 0, 0, 0, 8, 0, 0, 0]),
        Err(DecodeError::InvalidByteLength { len: 8, expected: 16 })
    );
}

#[test]
fn an_optional_base_is_a_selector_and_the_base() {
    assert_eq!(decode_option_base(&[0]), Ok(None));
    let mut some = vec![1u8];
    some.extend_from_slice(&base(b"x").as_ssz_bytes());
    assert_eq!(decode_option_base(&some), Ok(Some(base(b"x"))));
    assert_eq!(decode_option_base(&[]), Err(DecodeError::OutOfBoundsByte { i: 0 }));
    assert_eq!(
        decode_option_base(&[0, 9, 9]),
        Err(DecodeError::InvalidByteLength { len: 2, expected: 0 })
    );
    assert_eq!(decode_option_base(&[2]), Err(DecodeError::UnionSelectorInvalid(2)));
    assert_eq!(decode_option_base(&[200, 1]), Err(DecodeError::UnionSelectorInvalid(200)));
    assert_eq!(
        decode_option_base(&[1, 0]),
        Err(DecodeError::InvalidByteLength { len: 1, expected: 32 })
    );
}

#[test]
fn a_flashblock_is_28_bytes_and_its_parts() {
    let f = flashblock(3, true);
    let bytes = f.as_ssz_bytes();
    let base_len = 1 + 176 + 5;
    let diff_len = f.diff.as_ssz_bytes().len();
    let metadata_len = f.metadata.as_ssz_bytes().len();
    assert_eq!(bytes.len(), 28 + base_len + diff_len + metadata_len);
    assert_eq!(f.encoded_len(), Some(bytes.len()));
    assert_eq!(f.encode(), Some(bytes.clone()));
    assert_eq!(bytes[..8].to_vec(), vec![0xA0, 0xA1, 0xA2, 0xA3, 0xA4, 0xA5, 0xA6, 0xA7]);
    assert_eq!(bytes[8..16].to_vec(), vec![3, 0, 0, 0, 0, 0, 0, 0]);
    assert_eq!(bytes[16..20].to_vec(), vec![28, 0, 0, 0]);
    assert_eq!(bytes[20..24].to_vec(), ((28 + base_len) as u32).to_le_bytes().to_vec());
    assert_eq!(
        bytes[24..28].to_vec(),
        ((28 + base_len + diff_len) as u32).to_le_bytes().to_vec()
    );
    assert_eq!(bytes[28], 1);
    assert_eq!(bytes[28 + base_len..28 + base_len + diff_len].to_vec(), f.diff.as_ssz_bytes());
    assert_eq!(bytes[28 + base_len + diff_len..].to_vec(), f.metadata.as_ssz_bytes());
    assert_eq!(FlashblocksPayloadV1::from_ssz_bytes(&bytes), Ok(f.clone()));
    let mut buf = vec![0u8; 2];
    f.ssz_append(&mut buf);
    assert_eq!(buf[2..].to_vec(), bytes);
}

#[test]
fn a_flashblock_without_base_reads_back_without_base() {
    for index in [0u64, 1, 17] {
        let f = flashblock(index, false);
        let bytes = f.as_ssz_bytes();
        assert_eq!(bytes[28], 0);
        let back = FlashblocksPayloadV1::from_ssz_bytes(&bytes).unwrap();
        assert_eq!(back.base, None);
        assert_eq!(back, f);
    }
    let late = flashblock(17, true);
    assert_eq!(FlashblocksPayloadV1::from_ssz_bytes(&late.as_ssz_bytes()), Ok(late));
}

#[test]
fn a_flashblock_reads_back_with_its_tables_as_maps() {
    let f = flashblock(1, true);
    let mut other = f.clone();
    other.metadata = metadata(&[2, 1], &[5, 4, 3], 99);
    let a = FlashblocksPayloadV1::from_ssz_bytes(&f.as_ssz_bytes()).unwrap();
    let b = FlashblocksPayloadV1::from_ssz_bytes(&other.as_ssz_bytes()).unwrap();
    assert_ne!(f.as_ssz_bytes(), other.as_ssz_bytes());
    assert_eq!(a.payload_id, b.payload_id);
    assert_eq!(a.index, b.index);
    assert_eq!(a.base, b.base);
    assert_eq!(a.diff, b.diff);
    assert_eq!(a.metadata.block_number, b.metadata.block_number);
    for n in [1u8, 2] {
        let k = FixedBytes([n; 32]);
        assert!(a.metadata.receipts.get(&k).is_some());
        assert_eq!(a.metadata.receipts.get(&k), b.metadata.receipts.get(&k));
    }
    for n in [3u8, 4, 5] {
        let k = FixedBytes([n; 20]);
        assert_eq!(a.metadata.new_account_balances.get(&k), Some(&U256::from_u64(n as u64 * 1000)));
        assert_eq!(a.metadata.new_account_balances.get(&k), b.metadata.new_account_balances.get(&k));
    }
}

#[test]
fn a_flashblock_that_is_cut_short_is_refused() {
    let whole = flashblock(3, true);
    let bytes = whole.as_ssz_bytes();
    for keep in 0..bytes.len() {
        let r = FlashblocksPayloadV1::from_ssz_bytes(&bytes[..keep]);
        assert_ne!(r, Ok(whole.clone()), "{keep}");
        if keep + 52 > bytes.len() || keep < 28 {
            assert!(r.is_err(), "{keep}");
        }
    }
    assert_eq!(
        FlashblocksPayloadV1::from_ssz_bytes(&bytes[..7]),
        Err(DecodeError::InvalidByteLength { len: 7, expected: 8 })
    );
    assert_eq!(
        FlashblocksPayloadV1::from_ssz_bytes(&bytes[..18]),
        Err(DecodeError::InvalidLengthPrefix { len: 2, expected: 4 })
    );
    let mut bad_selector = bytes.clone();
    bad_selector[28] = 5;
    assert_eq!(
        FlashblocksPayloadV1::from_ssz_bytes(&bad_selector),
        Err(DecodeError::UnionSelectorInvalid(5))
    );
}

#[test]
fn flashblocks_are_a_list_of_records() {
    let all = vec![flashblock(0, true), flashblock(1, false), flashblock(2, false)];
    let bytes = encode_flashblocks(&all).unwrap();
    let a = all[0].as_ssz_bytes();
    let b = all[1].as_ssz_bytes();
    let c = all[2].as_ssz_bytes();
    assert_eq!(bytes.len(), 12 + a.len() + b.len() + c.len());
    assert_eq!(bytes[..4].to_vec(), vec![12, 0, 0, 0]);
    assert_eq!(bytes[4..8].to_vec(), ((12 + a.len()) as u32).to_le_bytes().to_vec());
    assert_eq!(bytes[12..12 + a.len()].to_vec(), a);
    assert_eq!(bytes[12 + a.len() + b.len()..].to_vec(), c);
    assert_eq!(decode_flashblocks(&bytes), Ok(all));
    assert_eq!(encode_flashblocks(&vec![]), Some(vec![]));
    assert_eq!(decode_flashblocks(&[]), Ok(vec![]));
    assert!(decode_flashblocks(&bytes[..bytes.len() - 1]).is_err());
    assert_eq!(
        decode_flashblocks(&[4, 0, 0, 0, 1, 2]),
        Err(DecodeError::InvalidByteLength { len: 2, expected: 8 })
    );
}

#[test]
fn the_default_flashblock_is_445_bytes() {
    let f = FlashblocksPayloadV1::default();
    assert_eq!(f.index, 0);
    assert_eq!(f.base, None);
    assert_eq!(f.payload_id, PayloadId(FixedBytes([0; 8])));
    assert_eq!(f.diff, ExecutionPayloadFlashblockDeltaV1::default());
    assert_eq!(f.metadata, FlashblocksMetadata::default());
    assert_eq!(f.metadata.receipts.len(), 0);
    let bytes = f.as_ssz_bytes();
    assert_eq!(bytes.len(), 28 + 1 + 400 + 16);
    let mut expected = vec![0u8; 445];
    expected[16..28].copy_from_slice(&[28, 0, 0, 0, 29, 0, 0, 0, 0xAD, 1, 0, 0]);
    expected[29 + 360..29 + 368].copy_from_slice(&[0x90, 1, 0, 0, 0x90, 1, 0, 0]);
    expected[429..437].copy_from_slice(&[16, 0, 0, 0, 16, 0, 0, 0]);
    assert_eq!(bytes, expected);
    assert_eq!(FlashblocksPayloadV1::from_ssz_bytes(&bytes), Ok(f));
    assert_eq!(ExecutionPayloadBaseV1::default().as_ssz_bytes().len(), 176);
    assert_eq!(Withdrawal::default().as_ssz_bytes(), vec![0u8; 44]);
    assert_eq!(U256::default(), U256::from_u64(0));
    assert_eq!(Table::<20, U256>::default().len(), 0);
}
