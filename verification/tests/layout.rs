use flashblocks_ssz::error::DecodeError;
use flashblocks_ssz::layout::{encode_container, split, FieldKind};
use ssz::SszDecoderBuilder;

struct Rng(u64);

impl Rng {
    fn next(&mut self) -> u64 {
        self.0 = self.0.wrapping_mul(6364136223846793005).wrapping_add(1442695040888963407);
        self.0 >> 33
    }

    fn below(&mut self, n: usize) -> usize {
        (self.next() % n as u64) as usize
    }

    fn bytes(&mut self, n: usize) -> Vec<u8> {
        (0..n).map(|_| self.next() as u8).collect()
    }
}

/// The fields of the record `bytes` as the `ssz` crate cuts them.
fn ssz_split(bytes: &[u8], layout: &[FieldKind]) -> Result<Vec<Vec<u8>>, ssz::DecodeError> {
    let mut builder = SszDecoderBuilder::new(bytes);
    for field in layout {
        match field {
            FieldKind::Fixed(width) => builder.register_type_parameterized(true, *width)?,
            FieldKind::Variable => builder.register_type_parameterized(false, 4)?,
        }
    }
    let mut decoder = builder.build()?;
    let mut parts = Vec::new();
    for _ in layout {
        parts.push(decoder.decode_next_with(|slice| Ok(slice.to_vec()))?);
    }
    Ok(parts)
}

fn cut(bytes: &[u8], ranges: &[(usize, usize)]) -> Vec<Vec<u8>> {
    ranges.iter().map(|(a, b)| bytes[*a..*b].to_vec()).collect()
}

#[test]
fn a_record_is_its_fixed_region_and_its_variable_region() {
    let layout = [FieldKind::Fixed(2), FieldKind::Variable, FieldKind::Fixed(1), FieldKind::Variable];
    let parts = vec![vec![1u8, 2], vec![3, 4, 5], vec![6], vec![7]];
    let bytes = encode_container(&layout, &parts);
    assert_eq!(bytes, vec![1, 2, 11, 0, 0, 0, 6, 14, 0, 0, 0, 3, 4, 5, 7]);
    let ranges = split(&bytes, &layout).unwrap();
    assert_eq!(ranges, vec![(0, 2), (11, 14), (6, 7), (14, 15)]);
    assert_eq!(cut(&bytes, &ranges), parts);
}

#[test]
fn a_record_without_fields_is_no_bytes() {
    let parts: Vec<Vec<u8>> = vec![];
    assert_eq!(encode_container(&[], &parts), Vec::<u8>::new());
    assert_eq!(split(&[], &[]), Ok(vec![]));
    assert_eq!(
        split(&[1], &[]),
        Err(DecodeError::InvalidByteLength { len: 1, expected: 0 })
    );
}

#[test]
fn a_record_of_fixed_fields_has_exactly_their_width() {
    let layout = [FieldKind::Fixed(2), FieldKind::Fixed(3)];
    assert_eq!(split(&[1, 2, 3, 4, 5], &layout), Ok(vec![(0, 2), (2, 5)]));
    assert_eq!(
        split(&[1, 2, 3, 4, 5, 6], &layout),
        Err(DecodeError::InvalidByteLength { len: 6, expected: 5 })
    );
    assert_eq!(
        split(&[1, 2, 3, 4], &layout),
        Err(DecodeError::InvalidByteLength { len: 4, expected: 5 })
    );
    assert_eq!(
        split(&[1], &layout),
        Err(DecodeError::InvalidByteLength { len: 1, expected: 2 })
    );
}

#[test]
fn offsets_must_be_in_order_and_in_reach() {
    let layout = [FieldKind::Variable, FieldKind::Variable];
    assert_eq!(split(&[8, 0, 0, 0, 8, 0, 0, 0], &layout), Ok(vec![(8, 8), (8, 8)]));
    assert_eq!(
        split(&[8, 0, 0, 0, 9, 0, 0, 0, 1, 2], &layout),
        Ok(vec![(8, 9), (9, 10)])
    );
    assert_eq!(
        split(&[9, 0, 0, 0, 8, 0, 0, 0, 1, 2], &layout),
        Err(DecodeError::OffsetsAreDecreasing(8))
    );
    assert_eq!(
        split(&[8, 0, 0, 0, 11, 0, 0, 0, 1, 2], &layout),
        Err(DecodeError::OffsetOutOfBounds(11))
    );
    assert_eq!(
        split(&[7, 0, 0, 0, 9, 0, 0, 0, 1, 2], &layout),
        Err(DecodeError::OffsetIntoFixedPortion(7))
    );
    assert_eq!(
        split(&[9, 0, 0, 0, 9, 0, 0, 0, 1, 2], &layout),
        Err(DecodeError::OffsetSkipsVariableBytes(9))
    );
    assert_eq!(
        split(&[4, 0, 0, 0, 9, 0], &layout),
        Err(DecodeError::InvalidLengthPrefix { len: 2, expected: 4 })
    );
}

#[test]
fn written_records_split_into_their_parts() {
    let mut rng = Rng(11);
    for _ in 0..300 {
        let n = rng.below(7);
        let mut layout = Vec::new();
        let mut parts = Vec::new();
        for _ in 0..n {
            if rng.below(2) == 0 {
                let width = rng.below(6);
                layout.push(FieldKind::Fixed(width));
                parts.push(rng.bytes(width));
            } else {
                layout.push(FieldKind::Variable);
                let width = rng.below(9);
                parts.push(rng.bytes(width));
            }
        }
        let bytes = encode_container(&layout, &parts);
        let ranges = split(&bytes, &layout).unwrap();
        assert_eq!(cut(&bytes, &ranges), parts);
        assert_eq!(ssz_split(&bytes, &layout), Ok(parts));
    }
}

#[test]
fn records_are_split_as_the_ssz_crate_splits_them() {
    let mut rng = Rng(12);
    let mut split_ok = 0;
    let mut refused = 0;
    for _ in 0..20_000 {
        let n = rng.below(5);
        let layout: Vec<FieldKind> = (0..n)
            .map(|_| {
                if rng.below(2) == 0 {
                    FieldKind::Fixed(rng.below(4))
                } else {
                    FieldKind::Variable
                }
            })
            .collect();
        let len = rng.below(24);
        let bytes: Vec<u8> = (0..len)
            .map(|i| if i % 4 == 0 { rng.below(len + 3) as u8 } else { (rng.below(8) == 0) as u8 })
            .collect();
        let mine = split(&bytes, &layout);
        match ssz_split(&bytes, &layout) {
            Ok(parts) => {
                split_ok += 1;
                assert_eq!(cut(&bytes, &mine.unwrap()), parts, "{layout:?} {bytes:?}");
            }
            Err(e) => {
                refused += 1;
                let mine = mine.unwrap_err();
                assert_eq!(format!("{mine:?}"), format!("{e:?}"), "{layout:?} {bytes:?}");
            }
        }
    }
    assert!(split_ok > 300, "{split_ok}");
    assert!(refused > 500, "{refused}");
}
