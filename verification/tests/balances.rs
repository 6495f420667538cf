use flashblocks_ssz::error::DecodeError;
use flashblocks_ssz::payload::new_account_balances_ssz::{decode, encode, ENTRY_LEN};
use flashblocks_ssz::payload::NewAccountBalances;
use flashblocks_ssz::primitives::{FixedBytes, U256};
use flashblocks_ssz::table::Table;

fn address(n: u8) -> FixedBytes<20> {
    let mut bytes = [0u8; 20];
    bytes[0] = n;
    bytes[19] = n.wrapping_add(1);
    FixedBytes(bytes)
}

fn balances(keys: &[u8]) -> NewAccountBalances {
    let mut table: NewAccountBalances = Table::new();
    for k in keys {
        table.insert(address(*k), U256::from_limbs([*k as u64, 0, 0, *k as u64 + 1]));
    }
    table
}

#[test]
fn balances_are_of_variable_width() {
    assert!(!encode::is_ssz_fixed_len());
    assert!(!decode::is_ssz_fixed_len());
    assert_eq!(encode::ssz_fixed_len(), 4);
    assert_eq!(decode::ssz_fixed_len(), 4);
    assert_eq!(encode::ssz_fixed_len(), ssz::BYTES_PER_LENGTH_OFFSET);
}

#[test]
fn one_balance_is_an_address_and_a_little_endian_integer() {
    let mut table: NewAccountBalances = Table::new();
    table.insert(FixedBytes([0xAB; 20]), U256::from_u64(0x0102));
    let bytes = encode::as_ssz_bytes(&table);
    let mut expected = vec![0xABu8; 20];
    expected.extend_from_slice(&[2, 1]);
    expected.extend_from_slice(&[0u8; 30]);
    assert_eq!(bytes, expected);
    assert_eq!(bytes.len(), ENTRY_LEN);
}

#[test]
fn n_balances_take_52_bytes_each() {
    for n in 0u8..6 {
        let keys: Vec<u8> = (0..n).collect();
        let table = balances(&keys);
        let bytes = encode::as_ssz_bytes(&table);
        assert_eq!(bytes.len(), 52 * n as usize);
        assert_eq!(encode::ssz_bytes_len(&table), 52 * n as usize);
    }
}

#[test]
fn balances_are_appended_after_what_is_there() {
    let table = balances(&[1, 2]);
    let mut buf = vec![7u8, 7, 7];
    encode::ssz_append(&table, &mut buf);
    assert_eq!(buf[..3].to_vec(), vec![7, 7, 7]);
    assert_eq!(buf[3..].to_vec(), encode::as_ssz_bytes(&table));
}

#[test]
fn written_balances_read_back() {
    let table = balances(&[9, 4, 200, 1]);
    let bytes = encode::as_ssz_bytes(&table);
    let back = decode::from_ssz_bytes(&bytes).unwrap();
    assert_eq!(back, table);
    for k in [9u8, 4, 200, 1] {
        assert_eq!(back.get(&address(k)), table.get(&address(k)));
    }
}

#[test]
fn balances_read_back_whatever_the_order_of_their_entries() {
    let forward = balances(&[1, 2, 3]);
    let backward = balances(&[3, 2, 1]);
    let a = decode::from_ssz_bytes(&encode::as_ssz_bytes(&forward)).unwrap();
    let b = decode::from_ssz_bytes(&encode::as_ssz_bytes(&backward)).unwrap();
    assert_ne!(encode::as_ssz_bytes(&forward), encode::as_ssz_bytes(&backward));
    for k in [1u8, 2, 3] {
        assert_eq!(a.get(&address(k)), b.get(&address(k)));
        assert!(a.get(&address(k)).is_some());
    }
    assert_eq!(a.len(), b.len());
}

#[test]
fn no_balances_are_no_bytes() {
    let table: NewAccountBalances = Table::new();
    let bytes = encode::as_ssz_bytes(&table);
    assert!(bytes.is_empty());
    let back = decode::from_ssz_bytes(&bytes).unwrap();
    assert_eq!(back.len(), 0);
}

#[test]
fn a_region_that_is_not_a_multiple_of_52_is_refused() {
    let table = balances(&[1, 2]);
    let bytes = encode::as_ssz_bytes(&table);
    for len in 0..bytes.len() + 60 {
        let mut region = bytes.clone();
        region.resize(len, 0);
        let r = decode::from_ssz_bytes(&region);
        if len % 52 == 0 {
            assert!(r.is_ok(), "{len}");
        } else {
            assert_eq!(
                r,
                Err(DecodeError::InvalidByteLength { len: len % 52, expected: 52 }),
                "{len}"
            );
        }
    }
}

#[test]
fn the_last_balance_of_an_address_stands() {
    let first = encode::as_ssz_bytes(&balances(&[1]));
    let mut second_table: NewAccountBalances = Table::new();
    second_table.insert(address(1), U256::from_u64(77));
    let second = encode::as_ssz_bytes(&second_table);
    let mut region = first;
    region.extend_from_slice(&second);
    let back = decode::from_ssz_bytes(&region).unwrap();
    assert_eq!(back.len(), 1);
    assert_eq!(back.get(&address(1)), Some(&U256::from_u64(77)));
}
