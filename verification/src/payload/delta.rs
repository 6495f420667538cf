//! The delta of an execution payload as a record.

use crate::codec::{
    add_len, append_bytes, copy_bytes, lemma_u64_roundtrip, read_u64, u64_bytes, MAX_LENGTH_VALUE,
};
use crate::error::DecodeError;
use crate::layout::{
    conforms, container_len, encode_container, fixed_len, lemma_split_container, slot_start,
    spec_container, spec_split, split, var_len, views, FieldKind,
};
use crate::list::{
    decode_list, encode_list, lemma_list_roundtrip, list_encoded_len, list_len, spec_decode_list,
    spec_encode_list,
};
use crate::payload::{DeltaView, ExecutionPayloadFlashblockDeltaV1};
use crate::primitives::FixedBytes;
use crate::withdrawal::Withdrawal;
use crate::withdrawal::{
    decode_withdrawals, encode_withdrawals, lemma_withdrawals_roundtrip, spec_decode_withdrawals,
    spec_encode_withdrawals, withdrawals_encoded_len, withdrawals_well_formed,
};
use vstd::bytes::*;
use vstd::prelude::*;
use vstd::slice::*;

verus! {

/// Width of the fixed region of a delta.
pub const DELTA_FIXED_LEN: usize = 400;

/// The fields of a delta, in declared order: the two lists are of variable width.
pub open spec fn delta_layout() -> Seq<FieldKind> {
    seq![
        FieldKind::Fixed(32),
        FieldKind::Fixed(32),
        FieldKind::Fixed(256),
        FieldKind::Fixed(8),
        FieldKind::Fixed(32),
        FieldKind::Variable,
        FieldKind::Variable,
        FieldKind::Fixed(32),
    ]
}

/// The bytes of each field of the delta `v`, in declared order.
pub open spec fn delta_parts(v: DeltaView) -> Seq<Seq<u8>> {
    seq![
        v.state_root,
        v.receipts_root,
        v.logs_bloom,
        spec_u64_to_le_bytes(v.gas_used),
        v.block_hash,
        spec_encode_list(v.transactions),
        spec_encode_withdrawals(v.withdrawals),
        v.withdrawals_root,
    ]
}

/// The record that holds the delta `v`.
pub open spec fn spec_encode_delta(v: DeltaView) -> Seq<u8> {
    spec_container(delta_layout(), delta_parts(v))
}

/// The delta that the record `bytes` holds, or the first thing wrong with
/// it: with the record itself, then with the list of transactions, then
/// with the list of withdrawals.
pub open spec fn spec_decode_delta(bytes: Seq<u8>) -> Result<DeltaView, DecodeError> {
    match spec_split(bytes, delta_layout()) {
        Err(e) => Err(e),
        Ok(parts) => match spec_decode_list(parts[5]) {
            Err(e) => Err(e),
            Ok(transactions) => match spec_decode_withdrawals(parts[6]) {
                Err(e) => Err(e),
                Ok(withdrawals) => Ok(
                    DeltaView {
                        state_root: parts[0],
                        receipts_root: parts[1],
                        logs_bloom: parts[2],
                        gas_used: spec_u64_from_le_bytes(parts[3]),
                        block_hash: parts[4],
                        transactions,
                        withdrawals,
                        withdrawals_root: parts[7],
                    },
                ),
            },
        },
    }
}

/// Width of the record that holds the delta `v`.
pub open spec fn spec_delta_len(v: DeltaView) -> nat {
    DELTA_FIXED_LEN as nat + list_len(v.transactions) + 44 * v.withdrawals.len()
}

/// Whether the fields of `v` have the widths of their kinds.
pub open spec fn delta_well_formed(v: DeltaView) -> bool {
    &&& v.state_root.len() == 32
    &&& v.receipts_root.len() == 32
    &&& v.logs_bloom.len() == 256
    &&& v.block_hash.len() == 32
    &&& v.withdrawals_root.len() == 32
    &&& withdrawals_well_formed(v.withdrawals)
}

/// The fixed region of a delta has 400 bytes.
pub proof fn lemma_delta_layout()
    ensures
        delta_layout().len() == 8,
        fixed_len(delta_layout()) == DELTA_FIXED_LEN,
{
    reveal_with_fuel(slot_start, 9);
}

/// The parts of a delta fit its layout, and its record has the width of the
/// fixed region and the two lists.
pub proof fn lemma_delta_parts(v: DeltaView)
    requires
        delta_well_formed(v),
        spec_delta_len(v) <= MAX_LENGTH_VALUE,
    ensures
        conforms(delta_layout(), delta_parts(v)),
        container_len(delta_layout(), delta_parts(v)) == spec_delta_len(v),
{
    lemma_delta_layout();
    lemma_u64_roundtrip(v.gas_used);
    lemma_list_roundtrip(v.transactions);
    lemma_withdrawals_roundtrip(v.withdrawals);
    reveal_with_fuel(var_len, 9);
}

/// Reading a written delta gives it back.
pub proof fn lemma_delta_roundtrip(v: DeltaView)
    requires
        delta_well_formed(v),
        spec_delta_len(v) <= MAX_LENGTH_VALUE,
    ensures
        spec_encode_delta(v).len() == spec_delta_len(v),
        spec_decode_delta(spec_encode_delta(v)) == Ok::<DeltaView, DecodeError>(v),
{
    lemma_delta_parts(v);
    lemma_split_container(delta_layout(), delta_parts(v));
    lemma_u64_roundtrip(v.gas_used);
    lemma_list_roundtrip(v.transactions);
    lemma_withdrawals_roundtrip(v.withdrawals);
    let parts = delta_parts(v);
    assert(spec_decode_delta(spec_encode_delta(v)).unwrap() =~= v);
}

/// The layout of a delta.
pub fn layout() -> (r: Vec<FieldKind>)
    ensures
        r@ == delta_layout(),
{
    let r = vec![
        FieldKind::Fixed(32),
        FieldKind::Fixed(32),
        FieldKind::Fixed(256),
        FieldKind::Fixed(8),
        FieldKind::Fixed(32),
        FieldKind::Variable,
        FieldKind::Variable,
        FieldKind::Fixed(32),
    ];
    assert(r@ =~= delta_layout());
    r
}

impl Default for ExecutionPayloadFlashblockDeltaV1 {
    fn default() -> (r: Self)
        ensures
            r.gas_used == 0,
            r.transactions@ == Seq::<Vec<u8>>::empty(),
            r.withdrawals@ == Seq::<Withdrawal>::empty(),
            spec_delta_len(r@) == DELTA_FIXED_LEN,
    {
        let r = ExecutionPayloadFlashblockDeltaV1 {
            state_root: FixedBytes::zero(),
            receipts_root: FixedBytes::zero(),
            logs_bloom: FixedBytes::zero(),
            gas_used: 0,
            block_hash: FixedBytes::zero(),
            transactions: Vec::new(),
            withdrawals: Vec::new(),
            withdrawals_root: FixedBytes::zero(),
        };
        assert(r@.transactions =~= Seq::<Seq<u8>>::empty());
        r
    }
}

impl ExecutionPayloadFlashblockDeltaV1 {
    /// The fields of a delta have the widths of their kinds.
    pub proof fn lemma_well_formed(&self)
        ensures
            delta_well_formed(self@),
    {
    }

    /// Width of the record that holds the delta, if it can be written: a
    /// record of more than `MAX_LENGTH_VALUE` bytes cannot.
    pub fn encoded_len(&self) -> (r: Option<usize>)
        ensures
            match r {
                Some(n) => n == spec_delta_len(self@) && n <= MAX_LENGTH_VALUE,
                None => spec_delta_len(self@) > MAX_LENGTH_VALUE,
            },
    {
        let transactions = match list_encoded_len(&self.transactions) {
            Some(n) => n,
            None => { return None; },
        };
        let withdrawals = match withdrawals_encoded_len(&self.withdrawals) {
            Some(n) => n,
            None => { return None; },
        };
        add_len(add_len(Some(DELTA_FIXED_LEN), transactions), withdrawals)
    }

    /// The record that holds the delta.
    pub fn as_ssz_bytes(&self) -> (r: Vec<u8>)
        requires
            spec_delta_len(self@) <= MAX_LENGTH_VALUE,
        ensures
            r@ == spec_encode_delta(self@),
            r@.len() == spec_delta_len(self@),
            spec_decode_delta(r@) == Ok::<DeltaView, DecodeError>(self@),
    {
        let mut parts: Vec<Vec<u8>> = Vec::new();
        parts.push(copy_bytes(self.state_root.as_slice()));
        parts.push(copy_bytes(self.receipts_root.as_slice()));
        parts.push(copy_bytes(self.logs_bloom.as_slice()));
        parts.push(u64_bytes(self.gas_used));
        parts.push(copy_bytes(self.block_hash.as_slice()));
        parts.push(encode_list(&self.transactions));
        parts.push(encode_withdrawals(&self.withdrawals));
        parts.push(copy_bytes(self.withdrawals_root.as_slice()));
        proof {
            assert(views(parts@) =~= delta_parts(self@));
            lemma_delta_parts(self@);
            lemma_delta_roundtrip(self@);
        }
        let layout = layout();
        encode_container(layout.as_slice(), &parts)
    }

    /// Appends the record that holds the delta.
    pub fn ssz_append(&self, buf: &mut Vec<u8>)
        requires
            spec_delta_len(self@) <= MAX_LENGTH_VALUE,
        ensures
            final(buf)@ == old(buf)@ + spec_encode_delta(self@),
    {
        let bytes = self.as_ssz_bytes();
        append_bytes(buf, bytes.as_slice());
    }

    /// Reads the delta that the record `bytes` holds.
    pub fn from_ssz_bytes(bytes: &[u8]) -> (r: Result<
        ExecutionPayloadFlashblockDeltaV1,
        DecodeError,
    >)
        ensures
            match r {
                Ok(delta) => spec_decode_delta(bytes@) == Ok::<DeltaView, DecodeError>(delta@),
                Err(e) => spec_decode_delta(bytes@) == Err::<DeltaView, DecodeError>(e),
            },
    {
        let layout = layout();
        proof {
            lemma_delta_layout();
        }
        let ranges = match split(bytes, layout.as_slice()) {
            Ok(ranges) => ranges,
            Err(e) => { return Err(e); },
        };
        let ghost parts = spec_split(bytes@, delta_layout()).unwrap();
        proof {
            assert forall|k: int| 0 <= k < 8 implies bytes@.subrange(
                ranges@[k].0 as int,
                ranges@[k].1 as int,
            ) == #[trigger] parts[k] by {}
        }
        let transactions = match decode_list(slice_subrange(bytes, ranges[5].0, ranges[5].1)) {
            Ok(items) => items,
            Err(e) => { return Err(e); },
        };
        let withdrawals = match decode_withdrawals(
            slice_subrange(bytes, ranges[6].0, ranges[6].1),
        ) {
            Ok(items) => items,
            Err(e) => { return Err(e); },
        };
        let delta = ExecutionPayloadFlashblockDeltaV1 {
            state_root: FixedBytes::<32>::from_slice(
                slice_subrange(bytes, ranges[0].0, ranges[0].1),
            ),
            receipts_root: FixedBytes::<32>::from_slice(
                slice_subrange(bytes, ranges[1].0, ranges[1].1),
            ),
            logs_bloom: FixedBytes::<256>::from_slice(
                slice_subrange(bytes, ranges[2].0, ranges[2].1),
            ),
            gas_used: read_u64(bytes, ranges[3].0),
            block_hash: FixedBytes::<32>::from_slice(
                slice_subrange(bytes, ranges[4].0, ranges[4].1),
            ),
            transactions,
            withdrawals,
            withdrawals_root: FixedBytes::<32>::from_slice(
                slice_subrange(bytes, ranges[7].0, ranges[7].1),
            ),
        };
        assert(delta@ =~= spec_decode_delta(bytes@).unwrap());
        Ok(delta)
    }
}

} // verus!
