//! The base of an execution payload as a record.

use crate::codec::{
    add_len, append_bytes, copy_bytes, lemma_u64_roundtrip, read_u64, u64_bytes, MAX_LENGTH_VALUE,
};
use crate::error::DecodeError;
use crate::layout::{
    conforms, container_len, encode_container, fixed_len, lemma_split_container, slot_start,
    spec_container, spec_split, split, var_len, views, FieldKind,
};
use crate::payload::{BaseView, ExecutionPayloadBaseV1};
use crate::primitives::{
    lemma_u256_roundtrip, pow2_256, spec_u256_bytes, spec_u256_value, FixedBytes, U256,
};
use vstd::bytes::*;
use vstd::prelude::*;
use vstd::slice::*;

verus! {

/// Width of the fixed region of a base.
pub const BASE_FIXED_LEN: usize = 176;

/// The fields of a base, in declared order: all of fixed width but the extra data.
pub open spec fn base_layout() -> Seq<FieldKind> {
    seq![
        FieldKind::Fixed(32),
        FieldKind::Fixed(32),
        FieldKind::Fixed(20),
        FieldKind::Fixed(32),
        FieldKind::Fixed(8),
        FieldKind::Fixed(8),
        FieldKind::Fixed(8),
        FieldKind::Variable,
        FieldKind::Fixed(32),
    ]
}

/// The bytes of each field of the base `v`, in declared order.
pub open spec fn base_parts(v: BaseView) -> Seq<Seq<u8>> {
    seq![
        v.parent_beacon_block_root,
        v.parent_hash,
        v.fee_recipient,
        v.prev_randao,
        spec_u64_to_le_bytes(v.block_number),
        spec_u64_to_le_bytes(v.gas_limit),
        spec_u64_to_le_bytes(v.timestamp),
        v.extra_data,
        spec_u256_bytes(v.base_fee_per_gas),
    ]
}

/// The base whose fields have the bytes `parts`, in declared order.
pub open spec fn base_of_parts(parts: Seq<Seq<u8>>) -> BaseView {
    BaseView {
        parent_beacon_block_root: parts[0],
        parent_hash: parts[1],
        fee_recipient: parts[2],
        prev_randao: parts[3],
        block_number: spec_u64_from_le_bytes(parts[4]),
        gas_limit: spec_u64_from_le_bytes(parts[5]),
        timestamp: spec_u64_from_le_bytes(parts[6]),
        extra_data: parts[7],
        base_fee_per_gas: spec_u256_value(parts[8]),
    }
}

/// The record that holds the base `v`.
pub open spec fn spec_encode_base(v: BaseView) -> Seq<u8> {
    spec_container(base_layout(), base_parts(v))
}

/// The base that the record `bytes` holds, or the first thing wrong with the record.
pub open spec fn spec_decode_base(bytes: Seq<u8>) -> Result<BaseView, DecodeError> {
    match spec_split(bytes, base_layout()) {
        Ok(parts) => Ok(base_of_parts(parts)),
        Err(e) => Err(e),
    }
}

/// Width of the record that holds the base `v`.
pub open spec fn spec_base_len(v: BaseView) -> nat {
    BASE_FIXED_LEN as nat + v.extra_data.len()
}

/// Whether the fields of `v` have the widths of their kinds.
pub open spec fn base_well_formed(v: BaseView) -> bool {
    &&& v.parent_beacon_block_root.len() == 32
    &&& v.parent_hash.len() == 32
    &&& v.fee_recipient.len() == 20
    &&& v.prev_randao.len() == 32
    &&& v.base_fee_per_gas < pow2_256()
}

/// The fixed region of a base has 176 bytes.
pub proof fn lemma_base_layout()
    ensures
        base_layout().len() == 9,
        fixed_len(base_layout()) == BASE_FIXED_LEN,
{
    reveal_with_fuel(slot_start, 10);
}

/// The parts of a base fit its layout, and its record has the width of the
/// fixed region and the extra data.
pub proof fn lemma_base_parts(v: BaseView)
    requires
        base_well_formed(v),
    ensures
        conforms(base_layout(), base_parts(v)),
        container_len(base_layout(), base_parts(v)) == spec_base_len(v),
{
    lemma_base_layout();
    lemma_auto_spec_u64_to_from_le_bytes();
    lemma_u64_roundtrip(v.block_number);
    lemma_u64_roundtrip(v.gas_limit);
    lemma_u64_roundtrip(v.timestamp);
    lemma_u256_roundtrip(v.base_fee_per_gas);
    reveal_with_fuel(var_len, 10);
}

/// Reading a written base gives it back.
pub proof fn lemma_base_roundtrip(v: BaseView)
    requires
        base_well_formed(v),
        spec_base_len(v) <= MAX_LENGTH_VALUE,
    ensures
        spec_encode_base(v).len() == spec_base_len(v),
        spec_decode_base(spec_encode_base(v)) == Ok::<BaseView, DecodeError>(v),
{
    lemma_base_parts(v);
    lemma_split_container(base_layout(), base_parts(v));
    lemma_u64_roundtrip(v.block_number);
    lemma_u64_roundtrip(v.gas_limit);
    lemma_u64_roundtrip(v.timestamp);
    lemma_u256_roundtrip(v.base_fee_per_gas);
    assert(base_of_parts(base_parts(v)) =~= v);
}

} // verus!

verus! {

/// The layout of a base.
pub fn layout() -> (r: Vec<FieldKind>)
    ensures
        r@ == base_layout(),
{
    let r = vec![
        FieldKind::Fixed(32),
        FieldKind::Fixed(32),
        FieldKind::Fixed(20),
        FieldKind::Fixed(32),
        FieldKind::Fixed(8),
        FieldKind::Fixed(8),
        FieldKind::Fixed(8),
        FieldKind::Variable,
        FieldKind::Fixed(32),
    ];
    assert(r@ =~= base_layout());
    r
}

impl Default for ExecutionPayloadBaseV1 {
    fn default() -> (r: Self)
        ensures
            r.block_number == 0,
            r.gas_limit == 0,
            r.timestamp == 0,
            r.extra_data@ == Seq::<u8>::empty(),
            r.base_fee_per_gas@ == 0,
            spec_base_len(r@) == BASE_FIXED_LEN,
    {
        ExecutionPayloadBaseV1 {
            parent_beacon_block_root: FixedBytes::zero(),
            parent_hash: FixedBytes::zero(),
            fee_recipient: FixedBytes::zero(),
            prev_randao: FixedBytes::zero(),
            block_number: 0,
            gas_limit: 0,
            timestamp: 0,
            extra_data: Vec::new(),
            base_fee_per_gas: U256::from_u64(0),
        }
    }
}

impl ExecutionPayloadBaseV1 {
    /// The fields of a base have the widths of their kinds.
    pub proof fn lemma_well_formed(&self)
        ensures
            base_well_formed(self@),
    {
        self.base_fee_per_gas.lemma_value();
    }

    /// Width of the record that holds the base, if it can be written: a
    /// record of more than `MAX_LENGTH_VALUE` bytes cannot.
    pub fn encoded_len(&self) -> (r: Option<usize>)
        ensures
            match r {
                Some(n) => n == spec_base_len(self@) && n <= MAX_LENGTH_VALUE,
                None => spec_base_len(self@) > MAX_LENGTH_VALUE,
            },
    {
        add_len(Some(BASE_FIXED_LEN), self.extra_data.len())
    }

    /// The record that holds the base.
    pub fn as_ssz_bytes(&self) -> (r: Vec<u8>)
        requires
            spec_base_len(self@) <= MAX_LENGTH_VALUE,
        ensures
            r@ == spec_encode_base(self@),
            r@.len() == spec_base_len(self@),
            spec_decode_base(r@) == Ok::<BaseView, DecodeError>(self@),
    {
        let mut base_fee: Vec<u8> = Vec::new();
        self.base_fee_per_gas.append_le_bytes(&mut base_fee);
        let mut parts: Vec<Vec<u8>> = Vec::new();
        parts.push(copy_bytes(self.parent_beacon_block_root.as_slice()));
        parts.push(copy_bytes(self.parent_hash.as_slice()));
        parts.push(copy_bytes(self.fee_recipient.as_slice()));
        parts.push(copy_bytes(self.prev_randao.as_slice()));
        parts.push(u64_bytes(self.block_number));
        parts.push(u64_bytes(self.gas_limit));
        parts.push(u64_bytes(self.timestamp));
        parts.push(copy_bytes(self.extra_data.as_slice()));
        parts.push(base_fee);
        proof {
            assert(base_fee@ =~= spec_u256_bytes(self.base_fee_per_gas@));
            assert(views(parts@) =~= base_parts(self@));
            self.lemma_well_formed();
            lemma_base_parts(self@);
            lemma_base_roundtrip(self@);
        }
        let layout = layout();
        encode_container(layout.as_slice(), &parts)
    }

    /// Appends the record that holds the base.
    pub fn ssz_append(&self, buf: &mut Vec<u8>)
        requires
            spec_base_len(self@) <= MAX_LENGTH_VALUE,
        ensures
            final(buf)@ == old(buf)@ + spec_encode_base(self@),
    {
        let bytes = self.as_ssz_bytes();
        append_bytes(buf, bytes.as_slice());
    }

    /// Reads the base that the record `bytes` holds.
    pub fn from_ssz_bytes(bytes: &[u8]) -> (r: Result<ExecutionPayloadBaseV1, DecodeError>)
        ensures
            match r {
                Ok(base) => spec_decode_base(bytes@) == Ok::<BaseView, DecodeError>(base@),
                Err(e) => spec_decode_base(bytes@) == Err::<BaseView, DecodeError>(e),
            },
    {
        let layout = layout();
        proof {
            lemma_base_layout();
        }
        let ranges = match split(bytes, layout.as_slice()) {
            Ok(ranges) => ranges,
            Err(e) => { return Err(e); },
        };
        let ghost parts = spec_split(bytes@, base_layout()).unwrap();
        proof {
            assert forall|k: int| 0 <= k < 9 implies bytes@.subrange(
                ranges@[k].0 as int,
                ranges@[k].1 as int,
            ) == #[trigger] parts[k] by {}
        }
        let base = ExecutionPayloadBaseV1 {
            parent_beacon_block_root: FixedBytes::<32>::from_slice(
                slice_subrange(bytes, ranges[0].0, ranges[0].1),
            ),
            parent_hash: FixedBytes::<32>::from_slice(
                slice_subrange(bytes, ranges[1].0, ranges[1].1),
            ),
            fee_recipient: FixedBytes::<20>::from_slice(
                slice_subrange(bytes, ranges[2].0, ranges[2].1),
            ),
            prev_randao: FixedBytes::<32>::from_slice(
                slice_subrange(bytes, ranges[3].0, ranges[3].1),
            ),
            block_number: read_u64(bytes, ranges[4].0),
            gas_limit: read_u64(bytes, ranges[5].0),
            timestamp: read_u64(bytes, ranges[6].0),
            extra_data: copy_bytes(slice_subrange(bytes, ranges[7].0, ranges[7].1)),
            base_fee_per_gas: U256::from_le_slice(slice_subrange(bytes, ranges[8].0, ranges[8].1)),
        };
        assert(base@ =~= base_of_parts(parts));
        Ok(base)
    }
}

} // verus!
