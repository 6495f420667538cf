use flashblocks_ssz::codec::{
    add_len, append_be_length, append_bytes, append_offset, append_u64, read_be_length,
    read_offset, read_u64, BYTES_PER_LENGTH_OFFSET, MAX_LENGTH_VALUE,
};
use flashblocks_ssz::primitives::{FixedBytes, U256};

#[test]
fn offset_width_is_that_of_the_ssz_crate() {
    assert_eq!(BYTES_PER_LENGTH_OFFSET, ssz::BYTES_PER_LENGTH_OFFSET);
    assert_eq!(BYTES_PER_LENGTH_OFFSET, 4);
    assert_eq!(MAX_LENGTH_VALUE, 0xFFFF_FFFF);
}

#[test]
fn offsets_are_little_endian() {
    let mut buf = vec![9u8];
    append_offset(&mut buf, 0x0102_0304);
    assert_eq!(buf, vec![9, 4, 3, 2, 1]);
    assert_eq!(read_offset(&buf, 1), 0x0102_0304);
    let mut max = Vec::new();
    append_offset(&mut max, MAX_LENGTH_VALUE);
    assert_eq!(max, vec![255, 255, 255, 255]);
    assert_eq!(read_offset(&max, 0), MAX_LENGTH_VALUE);
}

#[test]
fn offsets_are_written_as_the_ssz_crate_writes_them() {
    for n in [0usize, 1, 28, 176, 400, 65_536, 0x00FF_FFFF, 0xFFFF_FFFF] {
        let mut buf = Vec::new();
        append_offset(&mut buf, n);
        assert_eq!(buf, ssz::encode_length(n).to_vec());
        assert_eq!(Ok(read_offset(&buf, 0)), ssz::read_offset(&buf));
    }
}

#[test]
fn lengths_are_big_endian() {
    let mut buf = Vec::new();
    append_be_length(&mut buf, 0x0102_0304);
    assert_eq!(buf, vec![1, 2, 3, 4]);
    assert_eq!(read_be_length(&buf, 0), 0x0102_0304);
    let mut small = vec![7u8, 7];
    append_be_length(&mut small, 5);
    assert_eq!(small, vec![7, 7, 0, 0, 0, 5]);
    assert_eq!(read_be_length(&small, 2), 5);
    assert_eq!(small[2..].to_vec(), 5u32.to_be_bytes().to_vec());
}

#[test]
fn integers_are_little_endian() {
    let mut buf = Vec::new();
    append_u64(&mut buf, 0x0102_0304_0506_0708);
    assert_eq!(buf, vec![8, 7, 6, 5, 4, 3, 2, 1]);
    assert_eq!(read_u64(&buf, 0), 0x0102_0304_0506_0708);
    let mut padded = vec![0u8; 3];
    append_u64(&mut padded, u64::MAX);
    assert_eq!(read_u64(&padded, 3), u64::MAX);
}

#[test]
fn bytes_are_appended_in_order() {
    let mut buf = vec![1u8, 2];
    append_bytes(&mut buf, &[3, 4, 5]);
    append_bytes(&mut buf, &[]);
    assert_eq!(buf, vec![1, 2, 3, 4, 5]);
}

#[test]
fn lengths_add_up_to_the_largest_offset_and_no_further() {
    assert_eq!(add_len(Some(10), 5), Some(15));
    assert_eq!(add_len(Some(0), MAX_LENGTH_VALUE), Some(MAX_LENGTH_VALUE));
    assert_eq!(add_len(Some(1), MAX_LENGTH_VALUE), None);
    assert_eq!(add_len(Some(MAX_LENGTH_VALUE), 1), None);
    assert_eq!(add_len(None, 0), None);
}

#[test]
fn fixed_bytes_copy_and_compare() {
    let a = FixedBytes::<4>::from_slice(&[1, 2, 3, 4]);
    assert_eq!(a, FixedBytes([1, 2, 3, 4]));
    assert_eq!(a.as_slice(), &[1, 2, 3, 4]);
    assert!(a.is_equal(&FixedBytes([1, 2, 3, 4])));
    assert!(!a.is_equal(&FixedBytes([1, 2, 3, 5])));
    assert!(!a.is_equal(&FixedBytes([0, 2, 3, 4])));
    assert_eq!(FixedBytes::<3>::zero(), FixedBytes([0, 0, 0]));
}

#[test]
fn wide_integers_are_little_endian() {
    let one = U256::from_u64(1);
    let mut buf = Vec::new();
    one.append_le_bytes(&mut buf);
    let mut expected = vec![0u8; 32];
    expected[0] = 1;
    assert_eq!(buf, expected);
    assert_eq!(U256::from_le_slice(&buf), one);
    assert_eq!(one.into_limbs(), [1, 0, 0, 0]);

    let mixed = U256::from_limbs([0x0807_0605_0403_0201, 0x11, 0x22, 0xFF00_0000_0000_0000]);
    let mut bytes = Vec::new();
    mixed.append_le_bytes(&mut bytes);
    assert_eq!(bytes.len(), 32);
    assert_eq!(bytes[..8].to_vec(), vec![1, 2, 3, 4, 5, 6, 7, 8]);
    assert_eq!(bytes[8], 0x11);
    assert_eq!(bytes[16], 0x22);
    assert_eq!(bytes[31], 0xFF);
    assert_eq!(U256::from_le_slice(&bytes), mixed);
}

#[test]
fn wide_integers_are_written_as_the_ssz_crate_writes_them() {
    let limbs = [
        [0u64, 0, 0, 0],
        [1, 0, 0, 0],
        [u64::MAX, u64::MAX, u64::MAX, u64::MAX],
        [0x0123_4567_89AB_CDEF, 0xFEDC_BA98_7654_3210, 7, 0x8000_0000_0000_0000],
    ];
    for l in limbs {
        let theirs = alloy_primitives::U256::from_limbs(l);
        let mut mine = Vec::new();
        U256::from_limbs(l).append_le_bytes(&mut mine);
        assert_eq!(mine, ssz::Encode::as_ssz_bytes(&theirs));
        let back: alloy_primitives::U256 = ssz::Decode::from_ssz_bytes(&mine).unwrap();
        assert_eq!(U256::from_le_slice(&mine).into_limbs(), back.into_limbs());
    }
}
