//! Lists of byte strings: an offset for each item, then the items.
//!
//! A list is written as the record whose fields are its items, all of them
//! variable-width. Nothing but the first offset tells how many items there are:
//! the offsets fill the fixed region, so the first offset is four times the
//! number of items. The empty list is written as no bytes at all.

use crate::codec::{
    add_len, read_offset, spec_offset_at, BYTES_PER_LENGTH_OFFSET, MAX_LENGTH_VALUE,
};
use crate::error::DecodeError;
use crate::layout::{
    conforms, container_len, encode_container, lemma_split_container,
    lemma_written_offset, slot_start, spec_container, spec_split, split, var_len, views, FieldKind,
};
use vstd::prelude::*;
use vstd::slice::*;

verus! {

/// The layout of a list of `n` items.
pub open spec fn list_layout(n: nat) -> Seq<FieldKind> {
    Seq::new(n, |i: int| FieldKind::Variable)
}

/// Total width of the first `k` items.
pub open spec fn items_len(items: Seq<Seq<u8>>, k: int) -> nat
    decreases k,
{
    if k <= 0 {
        0
    } else {
        items_len(items, k - 1) + items[k - 1].len()
    }
}

/// Width of the list that holds `items`.
pub open spec fn list_len(items: Seq<Seq<u8>>) -> nat {
    BYTES_PER_LENGTH_OFFSET as nat * items.len() + items_len(items, items.len() as int)
}

/// The bytes of the list that holds `items`.
pub open spec fn spec_encode_list(items: Seq<Seq<u8>>) -> Seq<u8> {
    spec_container(list_layout(items.len()), items)
}

/// The items of the list that `bytes` holds, or the first thing wrong with it.
///
/// An offset other than the first that points back into the offset table is
/// reported as such, not as a decreasing one.
pub open spec fn spec_decode_list(bytes: Seq<u8>) -> Result<Seq<Seq<u8>>, DecodeError> {
    if bytes.len() == 0 {
        Ok(Seq::empty())
    } else if bytes.len() < BYTES_PER_LENGTH_OFFSET {
        Err(
            DecodeError::InvalidLengthPrefix {
                len: bytes.len() as usize,
                expected: BYTES_PER_LENGTH_OFFSET,
            },
        )
    } else {
        let first = spec_offset_at(bytes, 0);
        if first > bytes.len() {
            Err(DecodeError::OffsetOutOfBounds(first as usize))
        } else if first % (BYTES_PER_LENGTH_OFFSET as nat) != 0 || first < BYTES_PER_LENGTH_OFFSET {
            Err(DecodeError::InvalidListFixedBytesLen(first as usize))
        } else {
            match spec_split(bytes, list_layout(first / (BYTES_PER_LENGTH_OFFSET as nat))) {
                Ok(items) => Ok(items),
                Err(DecodeError::OffsetsAreDecreasing(o)) => if o < first {
                    Err(DecodeError::OffsetIntoFixedPortion(o))
                } else {
                    Err(DecodeError::OffsetsAreDecreasing(o))
                },
                Err(e) => Err(e),
            }
        }
    }
}

/// The offsets of a list of `n` items take four bytes each.
pub proof fn lemma_list_layout(n: nat, k: int)
    requires
        0 <= k <= n,
    ensures
        slot_start(list_layout(n), k) == 4 * k,
    decreases k,
{
    if k > 0 {
        lemma_list_layout(n, k - 1);
    }
}

/// The items of a list are the variable region of its record.
pub proof fn lemma_list_var_len(items: Seq<Seq<u8>>, k: int)
    requires
        0 <= k <= items.len(),
    ensures
        var_len(list_layout(items.len()), items, k) == items_len(items, k),
    decreases k,
{
    if k > 0 {
        lemma_list_var_len(items, k - 1);
    }
}

/// A list has the width of its offsets and its items.
pub proof fn lemma_list_len(items: Seq<Seq<u8>>)
    ensures
        conforms(list_layout(items.len()), items),
        container_len(list_layout(items.len()), items) == list_len(items),
{
    lemma_list_layout(items.len(), items.len() as int);
    lemma_list_var_len(items, items.len() as int);
}

/// Reading a written list gives back its items.
pub proof fn lemma_list_roundtrip(items: Seq<Seq<u8>>)
    requires
        list_len(items) <= MAX_LENGTH_VALUE,
    ensures
        spec_encode_list(items).len() == list_len(items),
        spec_decode_list(spec_encode_list(items)) == Ok::<Seq<Seq<u8>>, DecodeError>(items),
{
    let n = items.len();
    let layout = list_layout(n);
    let bytes = spec_encode_list(items);
    lemma_list_len(items);
    lemma_split_container(layout, items);
    if n == 0 {
        assert(items =~= Seq::<Seq<u8>>::empty());
    } else {
        lemma_written_offset(layout, items, 0);
        lemma_list_layout(n, n as int);
        assert(spec_offset_at(bytes, 0) == 4 * n);
    }
}

} // verus!

verus! {

/// A layout of `n` variable-width fields.
fn make_list_layout(n: usize) -> (layout: Vec<FieldKind>)
    ensures
        layout@ == list_layout(n as nat),
{
    let mut layout: Vec<FieldKind> = Vec::new();
    let mut k: usize = 0;
    while k < n
        invariant
            k <= n,
            layout@ == list_layout(k as nat),
        decreases n - k,
    {
        layout.push(FieldKind::Variable);
        k += 1;
        assert(layout@ =~= list_layout(k as nat));
    }
    layout
}

/// Copies the byte ranges `ranges` out of `bytes`.
pub fn copy_ranges(bytes: &[u8], ranges: &Vec<(usize, usize)>) -> (items: Vec<Vec<u8>>)
    requires
        forall|k: int|
            0 <= k < ranges@.len() ==> (#[trigger] ranges@[k]).0 <= ranges@[k].1 <= bytes@.len(),
    ensures
        items@.len() == ranges@.len(),
        forall|k: int|
            0 <= k < ranges@.len() ==> (#[trigger] items@[k])@ == bytes@.subrange(
                ranges@[k].0 as int,
                ranges@[k].1 as int,
            ),
{
    let mut items: Vec<Vec<u8>> = Vec::new();
    let mut k: usize = 0;
    while k < ranges.len()
        invariant
            k <= ranges@.len(),
            items@.len() == k,
            forall|j: int|
                0 <= j < ranges@.len() ==> (#[trigger] ranges@[j]).0 <= ranges@[j].1
                    <= bytes@.len(),
            forall|j: int|
                0 <= j < k ==> (#[trigger] items@[j])@ == bytes@.subrange(
                    ranges@[j].0 as int,
                    ranges@[j].1 as int,
                ),
        decreases ranges@.len() - k,
    {
        let (start, end) = ranges[k];
        items.push(slice_to_vec(slice_subrange(bytes, start, end)));
        k += 1;
    }
    items
}

/// Writes the list that holds `items`.
pub fn encode_list(items: &Vec<Vec<u8>>) -> (out: Vec<u8>)
    requires
        list_len(views(items@)) <= MAX_LENGTH_VALUE,
    ensures
        out@ == spec_encode_list(views(items@)),
{
    proof {
        lemma_list_len(views(items@));
    }
    let layout = make_list_layout(items.len());
    encode_container(layout.as_slice(), items)
}

/// Reads the list that `bytes` holds.
pub fn decode_list(bytes: &[u8]) -> (r: Result<Vec<Vec<u8>>, DecodeError>)
    ensures
        match r {
            Ok(items) => spec_decode_list(bytes@) == Ok::<Seq<Seq<u8>>, DecodeError>(
                views(items@),
            ),
            Err(e) => spec_decode_list(bytes@) == Err::<Seq<Seq<u8>>, DecodeError>(e),
        },
{
    let len = bytes.len();
    if len == 0 {
        let items: Vec<Vec<u8>> = Vec::new();
        assert(views(items@) =~= Seq::<Seq<u8>>::empty());
        return Ok(items);
    }
    if len < BYTES_PER_LENGTH_OFFSET {
        return Err(DecodeError::InvalidLengthPrefix { len, expected: BYTES_PER_LENGTH_OFFSET });
    }
    let first = read_offset(bytes, 0);
    if first > len {
        return Err(DecodeError::OffsetOutOfBounds(first));
    }
    if first % BYTES_PER_LENGTH_OFFSET != 0 || first < BYTES_PER_LENGTH_OFFSET {
        return Err(DecodeError::InvalidListFixedBytesLen(first));
    }
    let n = first / BYTES_PER_LENGTH_OFFSET;
    let layout = make_list_layout(n);
    proof {
        lemma_list_layout(n as nat, n as int);
    }
    match split(bytes, layout.as_slice()) {
        Ok(ranges) => {
            let items = copy_ranges(bytes, &ranges);
            assert(views(items@) =~= spec_split(bytes@, layout@).unwrap());
            Ok(items)
        },
        Err(DecodeError::OffsetsAreDecreasing(o)) => {
            if o < first {
                Err(DecodeError::OffsetIntoFixedPortion(o))
            } else {
                Err(DecodeError::OffsetsAreDecreasing(o))
            }
        },
        Err(e) => Err(e),
    }
}

} // verus!

verus! {

/// Width of the list that holds `items`, if it can be written: a list of
/// more than `MAX_LENGTH_VALUE` bytes cannot.
pub fn list_encoded_len(items: &Vec<Vec<u8>>) -> (r: Option<usize>)
    ensures
        match r {
            Some(n) => n == list_len(views(items@)) && n <= MAX_LENGTH_VALUE,
            None => list_len(views(items@)) > MAX_LENGTH_VALUE,
        },
{
    let ghost v = views(items@);
    let mut total: Option<usize> = Some(0);
    let mut i: usize = 0;
    while i < items.len()
        invariant
            i <= items@.len(),
            v == views(items@),
            match total {
                Some(t) => t == 4 * i + items_len(v, i as int) && t <= MAX_LENGTH_VALUE,
                None => 4 * i + items_len(v, i as int) > MAX_LENGTH_VALUE,
            },
        decreases items@.len() - i,
    {
        total = add_len(add_len(total, BYTES_PER_LENGTH_OFFSET), items[i].len());
        i += 1;
    }
    total
}

} // verus!
