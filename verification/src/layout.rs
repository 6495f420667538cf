//! Records: fixed-width fields in place, variable-width fields behind offsets.
//!
//! A record is written as a fixed region followed by a variable region. Every
//! field owns one slot of the fixed region, in declared order. The slot of a
//! fixed-width field holds the field's bytes. The slot of a variable-width field
//! holds a four-byte offset, counted from the start of the record, to the
//! field's bytes in the variable region, where the variable-width fields follow
//! one another in declared order.

use crate::codec::{
    append_bytes, append_offset, lemma_offset_roundtrip, read_offset, spec_offset_at,
    spec_offset_bytes, BYTES_PER_LENGTH_OFFSET, MAX_LENGTH_VALUE,
};
use crate::error::DecodeError;
use vstd::prelude::*;
use vstd::slice::*;

verus! {

/// How a field takes part in a record.
#[derive(Clone, Copy, Debug, PartialEq, Eq, Structural)]
pub enum FieldKind {
    /// The field always occupies this many bytes.
    Fixed(usize),
    /// The field's width is known only from the offsets around it.
    Variable,
}

/// Width of the slot that a field of kind `f` owns in the fixed region.
pub open spec fn slot_len(f: FieldKind) -> nat {
    match f {
        FieldKind::Fixed(n) => n as nat,
        FieldKind::Variable => BYTES_PER_LENGTH_OFFSET as nat,
    }
}

/// Position at which the slot of field `k` begins: the widths of the slots before it.
pub open spec fn slot_start(layout: Seq<FieldKind>, k: int) -> nat
    decreases k,
{
    if k <= 0 {
        0
    } else {
        slot_start(layout, k - 1) + slot_len(layout[k - 1])
    }
}

/// Width of the fixed region of a record with this layout.
pub open spec fn fixed_len(layout: Seq<FieldKind>) -> nat {
    slot_start(layout, layout.len() as int)
}

/// The offset that the slot of field `k` holds.
pub open spec fn field_offset(bytes: Seq<u8>, layout: Seq<FieldKind>, k: int) -> nat {
    spec_offset_at(bytes, slot_start(layout, k) as int)
}

/// The offset of the last variable-width field before field `k`, if there is one.
pub open spec fn prev_offset(bytes: Seq<u8>, layout: Seq<FieldKind>, k: int) -> Option<nat>
    decreases k,
{
    if k <= 0 {
        None
    } else if layout[k - 1] is Variable {
        Some(field_offset(bytes, layout, k - 1))
    } else {
        prev_offset(bytes, layout, k - 1)
    }
}

/// The offset of the first variable-width field among the first `k` fields, if there is one.
pub open spec fn first_offset(bytes: Seq<u8>, layout: Seq<FieldKind>, k: int) -> Option<nat>
    decreases k,
{
    if k <= 0 {
        None
    } else {
        match first_offset(bytes, layout, k - 1) {
            Some(o) => Some(o),
            None => if layout[k - 1] is Variable {
                Some(field_offset(bytes, layout, k - 1))
            } else {
                None
            },
        }
    }
}

/// The offset of the first variable-width field at index `j` or later, or the
/// buffer's length if there is none: where the variable-width field before it ends.
pub open spec fn next_offset(bytes: Seq<u8>, layout: Seq<FieldKind>, j: int) -> nat
    decreases layout.len() - j,
{
    if j < 0 || j >= layout.len() {
        bytes.len()
    } else if layout[j] is Variable {
        field_offset(bytes, layout, j)
    } else {
        next_offset(bytes, layout, j + 1)
    }
}

/// What is wrong with the slot of field `k`, the slots before it being in order.
pub open spec fn slot_error(bytes: Seq<u8>, layout: Seq<FieldKind>, k: int) -> Option<DecodeError> {
    let start = slot_start(layout, k);
    match layout[k] {
        FieldKind::Fixed(n) => if start + n > bytes.len() {
            Some(
                DecodeError::InvalidByteLength {
                    len: bytes.len() as usize,
                    expected: (start + n) as usize,
                },
            )
        } else {
            None
        },
        FieldKind::Variable => if start + BYTES_PER_LENGTH_OFFSET > bytes.len() {
            Some(
                DecodeError::InvalidLengthPrefix {
                    len: (bytes.len() - start) as usize,
                    expected: BYTES_PER_LENGTH_OFFSET,
                },
            )
        } else {
            let offset = field_offset(bytes, layout, k);
            if offset > bytes.len() {
                Some(DecodeError::OffsetOutOfBounds(offset as usize))
            } else if prev_offset(bytes, layout, k) matches Some(p) && p > offset {
                Some(DecodeError::OffsetsAreDecreasing(offset as usize))
            } else {
                None
            }
        },
    }
}

/// The first thing wrong with the slots of the first `k` fields, taken in order.
pub open spec fn scan_error(bytes: Seq<u8>, layout: Seq<FieldKind>, k: int) -> Option<DecodeError>
    decreases k,
{
    if k <= 0 {
        None
    } else {
        match scan_error(bytes, layout, k - 1) {
            Some(e) => Some(e),
            None => slot_error(bytes, layout, k - 1),
        }
    }
}

/// What is wrong with the record as a whole, all its slots being in order: the
/// first offset must point at the byte that follows the fixed region, and a
/// record without variable-width fields must end where its fixed region ends.
pub open spec fn finish_error(bytes: Seq<u8>, layout: Seq<FieldKind>) -> Option<DecodeError> {
    let fixed = fixed_len(layout);
    match first_offset(bytes, layout, layout.len() as int) {
        Some(first) => if first < fixed {
            Some(DecodeError::OffsetIntoFixedPortion(first as usize))
        } else if first > fixed {
            Some(DecodeError::OffsetSkipsVariableBytes(first as usize))
        } else {
            None
        },
        None => if fixed != bytes.len() {
            Some(
                DecodeError::InvalidByteLength {
                    len: bytes.len() as usize,
                    expected: fixed as usize,
                },
            )
        } else {
            None
        },
    }
}

/// Index of the first byte of field `k`.
pub open spec fn part_start(bytes: Seq<u8>, layout: Seq<FieldKind>, k: int) -> nat {
    match layout[k] {
        FieldKind::Fixed(_) => slot_start(layout, k),
        FieldKind::Variable => field_offset(bytes, layout, k),
    }
}

/// Index one past the last byte of field `k`.
pub open spec fn part_end(bytes: Seq<u8>, layout: Seq<FieldKind>, k: int) -> nat {
    match layout[k] {
        FieldKind::Fixed(n) => slot_start(layout, k) + n as nat,
        FieldKind::Variable => next_offset(bytes, layout, k + 1),
    }
}

/// The bytes of field `k`.
pub open spec fn part(bytes: Seq<u8>, layout: Seq<FieldKind>, k: int) -> Seq<u8> {
    bytes.subrange(part_start(bytes, layout, k) as int, part_end(bytes, layout, k) as int)
}

/// The bytes of each field of the record that `bytes` holds, or the first thing
/// wrong with it: the slots are examined in declared order, then the record as a whole.
pub open spec fn spec_split(bytes: Seq<u8>, layout: Seq<FieldKind>) -> Result<
    Seq<Seq<u8>>,
    DecodeError,
> {
    match scan_error(bytes, layout, layout.len() as int) {
        Some(e) => Err(e),
        None => match finish_error(bytes, layout) {
            Some(e) => Err(e),
            None => Ok(Seq::new(layout.len(), |k: int| part(bytes, layout, k))),
        },
    }
}

} // verus!

verus! {

/// A record whose slots are in order has every one of them in order.
pub proof fn lemma_scan_ok(bytes: Seq<u8>, layout: Seq<FieldKind>, k: int, j: int)
    requires
        scan_error(bytes, layout, k) is None,
        0 <= j < k,
    ensures
        slot_error(bytes, layout, j) is None,
        scan_error(bytes, layout, j) is None,
    decreases k,
{
    if j < k - 1 {
        lemma_scan_ok(bytes, layout, k - 1, j);
    }
}

/// The first thing wrong stays the first thing wrong when more fields are looked at.
pub proof fn lemma_scan_error_sticky(bytes: Seq<u8>, layout: Seq<FieldKind>, j: int, k: int)
    requires
        scan_error(bytes, layout, j) is Some,
        j <= k,
    ensures
        scan_error(bytes, layout, k) == scan_error(bytes, layout, j),
    decreases k - j,
{
    if j < k {
        lemma_scan_error_sticky(bytes, layout, j, k - 1);
    }
}

/// Slots only move forward.
pub proof fn lemma_slot_start_monotonic(layout: Seq<FieldKind>, j: int, k: int)
    requires
        j <= k,
    ensures
        slot_start(layout, j) <= slot_start(layout, k),
    decreases k - j,
{
    if j < k {
        lemma_slot_start_monotonic(layout, j, k - 1);
    }
}

/// Fixed-width fields between `j` and `k` leave the last offset before `k` as it was before `j`.
pub proof fn lemma_prev_offset_skip(bytes: Seq<u8>, layout: Seq<FieldKind>, j: int, k: int)
    requires
        0 <= j <= k,
        forall|i: int| j <= i < k ==> layout[i] is Fixed,
    ensures
        prev_offset(bytes, layout, k) == prev_offset(bytes, layout, j),
    decreases k - j,
{
    if j < k {
        lemma_prev_offset_skip(bytes, layout, j, k - 1);
    }
}

/// Splits the record in `bytes` into its fields: the result holds, for each
/// field in declared order, the index of its first byte and the index one past
/// its last byte.
pub fn split(bytes: &[u8], layout: &[FieldKind]) -> (r: Result<Vec<(usize, usize)>, DecodeError>)
    requires
        fixed_len(layout@) <= usize::MAX,
    ensures
        match r {
            Ok(ranges) => {
                &&& spec_split(bytes@, layout@) is Ok
                &&& ranges@.len() == layout@.len()
                &&& forall|k: int|
                    0 <= k < layout@.len() ==> {
                        &&& (#[trigger] ranges@[k]).0 == part_start(bytes@, layout@, k)
                        &&& ranges@[k].1 == part_end(bytes@, layout@, k)
                        &&& ranges@[k].0 <= ranges@[k].1 <= bytes@.len()
                    }
            },
            Err(e) => spec_split(bytes@, layout@) == Err::<Seq<Seq<u8>>, DecodeError>(e),
        },
{
    let n = layout.len();
    let len = bytes.len();
    let mut ranges: Vec<(usize, usize)> = Vec::new();
    let mut pos: usize = 0;
    let mut first: Option<usize> = None;
    let mut prev: Option<usize> = None;
    let mut k: usize = 0;
    while k < n
        invariant
            k <= n,
            n == layout@.len(),
            len == bytes@.len(),
            fixed_len(layout@) <= usize::MAX,
            pos == slot_start(layout@, k as int),
            pos <= len,
            scan_error(bytes@, layout@, k as int) is None,
            match first {
                Some(o) => first_offset(bytes@, layout@, k as int) == Some(o as nat),
                None => first_offset(bytes@, layout@, k as int) is None,
            },
            match prev {
                Some(o) => prev_offset(bytes@, layout@, k as int) == Some(o as nat),
                None => prev_offset(bytes@, layout@, k as int) is None,
            },
            ranges@.len() == k,
            forall|j: int|
                0 <= j < k ==> {
                    &&& (#[trigger] ranges@[j]).0 == part_start(bytes@, layout@, j)
                    &&& ranges@[j].0 <= len
                    &&& layout@[j] is Fixed ==> ranges@[j].1 == part_end(bytes@, layout@, j)
                        && ranges@[j].0 <= ranges@[j].1 <= len
                },
        decreases n - k,
    {
        proof {
            lemma_slot_start_monotonic(layout@, k as int + 1, n as int);
            if slot_error(bytes@, layout@, k as int) is Some {
                lemma_scan_error_sticky(bytes@, layout@, k as int + 1, n as int);
            }
        }
        match layout[k] {
            FieldKind::Fixed(width) => {
                if width > len - pos {
                    return Err(DecodeError::InvalidByteLength { len, expected: pos + width });
                }
                ranges.push((pos, pos + width));
                pos = pos + width;
            },
            FieldKind::Variable => {
                if BYTES_PER_LENGTH_OFFSET > len - pos {
                    return Err(
                        DecodeError::InvalidLengthPrefix {
                            len: len - pos,
                            expected: BYTES_PER_LENGTH_OFFSET,
                        },
                    );
                }
                let offset = read_offset(bytes, pos);
                if offset > len {
                    return Err(DecodeError::OffsetOutOfBounds(offset));
                }
                if let Some(p) = prev {
                    if p > offset {
                        return Err(DecodeError::OffsetsAreDecreasing(offset));
                    }
                }
                if first.is_none() {
                    first = Some(offset);
                }
                prev = Some(offset);
                ranges.push((offset, offset));
                pos = pos + BYTES_PER_LENGTH_OFFSET;
            },
        }
        k += 1;
    }
    match first {
        Some(o) => {
            if o < pos {
                return Err(DecodeError::OffsetIntoFixedPortion(o));
            }
            if o > pos {
                return Err(DecodeError::OffsetSkipsVariableBytes(o));
            }
        },
        None => {
            if pos != len {
                return Err(DecodeError::InvalidByteLength { len, expected: pos });
            }
        },
    }
    let mut next: usize = len;
    let mut j: usize = n;
    let ghost mut m: int = n as int;
    while j > 0
        invariant
            j <= n,
            n == layout@.len(),
            len == bytes@.len(),
            ranges@.len() == n,
            scan_error(bytes@, layout@, n as int) is None,
            j <= m <= n,
            forall|i: int| j <= i < m ==> layout@[i] is Fixed,
            m < n ==> layout@[m] is Variable,
            next == next_offset(bytes@, layout@, j as int),
            next == next_offset(bytes@, layout@, m),
            next <= len,
            forall|i: int|
                0 <= i < n ==> {
                    &&& (#[trigger] ranges@[i]).0 == part_start(bytes@, layout@, i)
                    &&& ranges@[i].0 <= len
                    &&& (layout@[i] is Fixed || i >= j) ==> ranges@[i].1 == part_end(
                        bytes@,
                        layout@,
                        i,
                    ) && ranges@[i].0 <= ranges@[i].1 <= len
                },
        decreases j,
    {
        j -= 1;
        match layout[j] {
            FieldKind::Fixed(_) => {},
            FieldKind::Variable => {
                let start = ranges[j].0;
                proof {
                    lemma_scan_ok(bytes@, layout@, n as int, j as int);
                    if m < n {
                        lemma_scan_ok(bytes@, layout@, n as int, m);
                        lemma_prev_offset_skip(bytes@, layout@, j as int + 1, m);
                    }
                }
                ranges.set(j, (start, next));
                next = start;
                proof {
                    m = j as int;
                }
            },
        }
    }
    Ok(ranges)
}

} // verus!

verus! {

/// Whether `parts` holds one byte string per field and fixed-width fields have their width.
pub open spec fn conforms(layout: Seq<FieldKind>, parts: Seq<Seq<u8>>) -> bool {
    &&& parts.len() == layout.len()
    &&& forall|k: int|
        0 <= k < layout.len() ==> (#[trigger] layout[k] matches FieldKind::Fixed(n)
            ==> parts[k].len() == n)
}

/// Total width of the variable-width fields among the first `k` fields.
pub open spec fn var_len(layout: Seq<FieldKind>, parts: Seq<Seq<u8>>, k: int) -> nat
    decreases k,
{
    if k <= 0 {
        0
    } else if layout[k - 1] is Variable {
        var_len(layout, parts, k - 1) + parts[k - 1].len()
    } else {
        var_len(layout, parts, k - 1)
    }
}

/// Width of the whole record.
pub open spec fn container_len(layout: Seq<FieldKind>, parts: Seq<Seq<u8>>) -> nat {
    fixed_len(layout) + var_len(layout, parts, layout.len() as int)
}

/// What the slot of field `k` holds.
pub open spec fn slot_bytes(layout: Seq<FieldKind>, parts: Seq<Seq<u8>>, k: int) -> Seq<u8> {
    match layout[k] {
        FieldKind::Fixed(_) => parts[k],
        FieldKind::Variable => spec_offset_bytes(fixed_len(layout) + var_len(layout, parts, k)),
    }
}

/// The slots of the first `k` fields, in order.
pub open spec fn fixed_region(layout: Seq<FieldKind>, parts: Seq<Seq<u8>>, k: int) -> Seq<u8>
    decreases k,
{
    if k <= 0 {
        Seq::empty()
    } else {
        fixed_region(layout, parts, k - 1) + slot_bytes(layout, parts, k - 1)
    }
}

/// The bytes of the variable-width fields among the first `k` fields, in order.
pub open spec fn var_region(layout: Seq<FieldKind>, parts: Seq<Seq<u8>>, k: int) -> Seq<u8>
    decreases k,
{
    if k <= 0 {
        Seq::empty()
    } else if layout[k - 1] is Variable {
        var_region(layout, parts, k - 1) + parts[k - 1]
    } else {
        var_region(layout, parts, k - 1)
    }
}

/// The record that holds `parts`: the fixed region, then the variable region.
pub open spec fn spec_container(layout: Seq<FieldKind>, parts: Seq<Seq<u8>>) -> Seq<u8> {
    fixed_region(layout, parts, layout.len() as int) + var_region(
        layout,
        parts,
        layout.len() as int,
    )
}

/// The byte strings that a list of buffers holds.
pub open spec fn views(parts: Seq<Vec<u8>>) -> Seq<Seq<u8>> {
    parts.map_values(|p: Vec<u8>| p@)
}

/// The variable region only grows.
pub proof fn lemma_var_len_monotonic(layout: Seq<FieldKind>, parts: Seq<Seq<u8>>, j: int, k: int)
    requires
        j <= k,
    ensures
        var_len(layout, parts, j) <= var_len(layout, parts, k),
    decreases k - j,
{
    if j < k {
        lemma_var_len_monotonic(layout, parts, j, k - 1);
    }
}

/// The regions have the widths that the layout and the parts give them.
pub proof fn lemma_region_lens(layout: Seq<FieldKind>, parts: Seq<Seq<u8>>, k: int)
    requires
        conforms(layout, parts),
        container_len(layout, parts) <= MAX_LENGTH_VALUE,
        0 <= k <= layout.len(),
    ensures
        fixed_region(layout, parts, k).len() == slot_start(layout, k),
        var_region(layout, parts, k).len() == var_len(layout, parts, k),
    decreases k,
{
    if k > 0 {
        lemma_region_lens(layout, parts, k - 1);
        lemma_var_len_monotonic(layout, parts, k - 1, layout.len() as int);
        if layout[k - 1] is Variable {
            lemma_offset_roundtrip(fixed_len(layout) + var_len(layout, parts, k - 1));
        }
    }
}

/// Writes the record that holds `parts`.
pub fn encode_container(layout: &[FieldKind], parts: &Vec<Vec<u8>>) -> (out: Vec<u8>)
    requires
        conforms(layout@, views(parts@)),
        container_len(layout@, views(parts@)) <= MAX_LENGTH_VALUE,
    ensures
        out@ == spec_container(layout@, views(parts@)),
{
    let n = layout.len();
    let ghost p = views(parts@);
    let mut fixed: usize = 0;
    let mut k: usize = 0;
    while k < n
        invariant
            k <= n,
            n == layout@.len(),
            fixed == slot_start(layout@, k as int),
            fixed_len(layout@) <= MAX_LENGTH_VALUE,
        decreases n - k,
    {
        proof {
            lemma_slot_start_monotonic(layout@, k as int + 1, n as int);
        }
        match layout[k] {
            FieldKind::Fixed(width) => {
                fixed = fixed + width;
            },
            FieldKind::Variable => {
                fixed = fixed + BYTES_PER_LENGTH_OFFSET;
            },
        }
        k += 1;
    }
    let mut out: Vec<u8> = Vec::new();
    let mut tail: Vec<u8> = Vec::new();
    let mut k: usize = 0;
    while k < n
        invariant
            k <= n,
            n == layout@.len(),
            p == views(parts@),
            conforms(layout@, p),
            container_len(layout@, p) <= MAX_LENGTH_VALUE,
            fixed == fixed_len(layout@),
            out@ == fixed_region(layout@, p, k as int),
            tail@ == var_region(layout@, p, k as int),
        decreases n - k,
    {
        proof {
            lemma_region_lens(layout@, p, k as int);
            lemma_var_len_monotonic(layout@, p, k as int, n as int);
        }
        match layout[k] {
            FieldKind::Fixed(_) => {
                append_bytes(&mut out, parts[k].as_slice());
            },
            FieldKind::Variable => {
                append_offset(&mut out, fixed + tail.len());
                append_bytes(&mut tail, parts[k].as_slice());
            },
        }
        k += 1;
    }
    append_bytes(&mut out, tail.as_slice());
    out
}

} // verus!

verus! {

/// In a written record, the slot of field `k` holds what was written there.
proof fn lemma_slot_content(layout: Seq<FieldKind>, parts: Seq<Seq<u8>>, k: int, m: int)
    requires
        conforms(layout, parts),
        container_len(layout, parts) <= MAX_LENGTH_VALUE,
        0 <= k < m <= layout.len(),
    ensures
        fixed_region(layout, parts, m).subrange(
            slot_start(layout, k) as int,
            slot_start(layout, k + 1) as int,
        ) == slot_bytes(layout, parts, k),
    decreases m - k,
{
    lemma_region_lens(layout, parts, k);
    lemma_region_lens(layout, parts, k + 1);
    lemma_region_lens(layout, parts, m - 1);
    lemma_region_lens(layout, parts, m);
    let a = fixed_region(layout, parts, m - 1);
    let b = slot_bytes(layout, parts, m - 1);
    if m == k + 1 {
        assert((a + b).subrange(a.len() as int, (a.len() + b.len()) as int) =~= b);
    } else {
        lemma_slot_start_monotonic(layout, k + 1, m - 1);
        lemma_slot_content(layout, parts, k, m - 1);
        assert((a + b).subrange(
            slot_start(layout, k) as int,
            slot_start(layout, k + 1) as int,
        ) =~= a.subrange(slot_start(layout, k) as int, slot_start(layout, k + 1) as int));
    }
}

/// In a written record, the bytes of a variable-width field stand where the
/// variable-width fields before it end.
proof fn lemma_var_content(layout: Seq<FieldKind>, parts: Seq<Seq<u8>>, k: int, m: int)
    requires
        conforms(layout, parts),
        container_len(layout, parts) <= MAX_LENGTH_VALUE,
        0 <= k < m <= layout.len(),
        layout[k] is Variable,
    ensures
        var_region(layout, parts, m).subrange(
            var_len(layout, parts, k) as int,
            var_len(layout, parts, k + 1) as int,
        ) == parts[k],
    decreases m - k,
{
    lemma_region_lens(layout, parts, k);
    lemma_region_lens(layout, parts, k + 1);
    lemma_region_lens(layout, parts, m - 1);
    lemma_region_lens(layout, parts, m);
    let a = var_region(layout, parts, m - 1);
    if m == k + 1 {
        let b = parts[k];
        assert((a + b).subrange(a.len() as int, (a.len() + b.len()) as int) =~= b);
    } else {
        lemma_var_len_monotonic(layout, parts, k + 1, m - 1);
        lemma_var_content(layout, parts, k, m - 1);
        if layout[m - 1] is Variable {
            let b = parts[m - 1];
            assert((a + b).subrange(
                var_len(layout, parts, k) as int,
                var_len(layout, parts, k + 1) as int,
            ) =~= a.subrange(
                var_len(layout, parts, k) as int,
                var_len(layout, parts, k + 1) as int,
            ));
        }
    }
}

/// In a written record, the offset of a variable-width field is the width of
/// the fixed region and of the variable-width fields before it.
pub proof fn lemma_written_offset(layout: Seq<FieldKind>, parts: Seq<Seq<u8>>, k: int)
    requires
        conforms(layout, parts),
        container_len(layout, parts) <= MAX_LENGTH_VALUE,
        0 <= k < layout.len(),
        layout[k] is Variable,
    ensures
        field_offset(spec_container(layout, parts), layout, k) == fixed_len(layout) + var_len(
            layout,
            parts,
            k,
        ),
{
    let n = layout.len() as int;
    let bytes = spec_container(layout, parts);
    let fixed = fixed_region(layout, parts, n);
    lemma_slot_content(layout, parts, k, n);
    lemma_region_lens(layout, parts, n);
    lemma_slot_start_monotonic(layout, k + 1, n);
    lemma_var_len_monotonic(layout, parts, k, n);
    lemma_offset_roundtrip(fixed_len(layout) + var_len(layout, parts, k));
    assert(bytes.subrange(slot_start(layout, k) as int, slot_start(layout, k) as int + 4)
        =~= fixed.subrange(slot_start(layout, k) as int, slot_start(layout, k + 1) as int));
}

/// In a written record, no offset is smaller than the one before it.
proof fn lemma_written_prev_offset(layout: Seq<FieldKind>, parts: Seq<Seq<u8>>, k: int)
    requires
        conforms(layout, parts),
        container_len(layout, parts) <= MAX_LENGTH_VALUE,
        0 <= k <= layout.len(),
    ensures
        prev_offset(spec_container(layout, parts), layout, k) matches Some(p) ==> p <= fixed_len(
            layout,
        ) + var_len(layout, parts, k),
    decreases k,
{
    if k > 0 {
        if layout[k - 1] is Variable {
            lemma_written_offset(layout, parts, k - 1);
        } else {
            lemma_written_prev_offset(layout, parts, k - 1);
        }
    }
}

/// In a written record, every slot is in order.
proof fn lemma_written_scan(layout: Seq<FieldKind>, parts: Seq<Seq<u8>>, k: int)
    requires
        conforms(layout, parts),
        container_len(layout, parts) <= MAX_LENGTH_VALUE,
        0 <= k <= layout.len(),
    ensures
        scan_error(spec_container(layout, parts), layout, k) is None,
    decreases k,
{
    if k > 0 {
        let n = layout.len() as int;
        lemma_written_scan(layout, parts, k - 1);
        lemma_region_lens(layout, parts, n);
        lemma_slot_start_monotonic(layout, k, n);
        lemma_var_len_monotonic(layout, parts, k - 1, n);
        if layout[k - 1] is Variable {
            lemma_written_offset(layout, parts, k - 1);
            lemma_written_prev_offset(layout, parts, k - 1);
        }
    }
}

/// In a written record, the first offset points at the byte that follows the fixed region.
proof fn lemma_written_first_offset(layout: Seq<FieldKind>, parts: Seq<Seq<u8>>, k: int)
    requires
        conforms(layout, parts),
        container_len(layout, parts) <= MAX_LENGTH_VALUE,
        0 <= k <= layout.len(),
    ensures
        match first_offset(spec_container(layout, parts), layout, k) {
            Some(o) => o == fixed_len(layout),
            None => var_len(layout, parts, k) == 0,
        },
    decreases k,
{
    if k > 0 {
        lemma_written_first_offset(layout, parts, k - 1);
        if layout[k - 1] is Variable {
            lemma_written_offset(layout, parts, k - 1);
        }
    }
}

/// In a written record, a variable-width field ends where the next one begins.
proof fn lemma_written_next_offset(layout: Seq<FieldKind>, parts: Seq<Seq<u8>>, j: int)
    requires
        conforms(layout, parts),
        container_len(layout, parts) <= MAX_LENGTH_VALUE,
        0 <= j <= layout.len(),
    ensures
        next_offset(spec_container(layout, parts), layout, j) == fixed_len(layout) + var_len(
            layout,
            parts,
            j,
        ),
    decreases layout.len() - j,
{
    let n = layout.len() as int;
    if j == n {
        lemma_region_lens(layout, parts, n);
    } else if layout[j] is Variable {
        lemma_written_offset(layout, parts, j);
    } else {
        lemma_written_next_offset(layout, parts, j + 1);
    }
}

/// Splitting a written record gives back the parts it was written from.
pub proof fn lemma_split_container(layout: Seq<FieldKind>, parts: Seq<Seq<u8>>)
    requires
        conforms(layout, parts),
        container_len(layout, parts) <= MAX_LENGTH_VALUE,
    ensures
        spec_container(layout, parts).len() == container_len(layout, parts),
        spec_split(spec_container(layout, parts), layout) == Ok::<Seq<Seq<u8>>, DecodeError>(
            parts,
        ),
{
    let n = layout.len() as int;
    let bytes = spec_container(layout, parts);
    let fixed = fixed_region(layout, parts, n);
    let tail = var_region(layout, parts, n);
    lemma_region_lens(layout, parts, n);
    lemma_written_scan(layout, parts, n);
    lemma_written_first_offset(layout, parts, n);
    let split = Seq::new(layout.len(), |k: int| part(bytes, layout, k));
    assert forall|k: int| 0 <= k < n implies split[k] == parts[k] by {
        lemma_slot_start_monotonic(layout, k + 1, n);
        match layout[k] {
            FieldKind::Fixed(width) => {
                lemma_slot_content(layout, parts, k, n);
                assert(bytes.subrange(
                    slot_start(layout, k) as int,
                    slot_start(layout, k) as int + width,
                ) =~= fixed.subrange(
                    slot_start(layout, k) as int,
                    slot_start(layout, k + 1) as int,
                ));
            },
            FieldKind::Variable => {
                lemma_written_offset(layout, parts, k);
                lemma_written_next_offset(layout, parts, k + 1);
                lemma_var_content(layout, parts, k, n);
                lemma_var_len_monotonic(layout, parts, k + 1, n);
                assert(bytes.subrange(
                    (fixed_len(layout) + var_len(layout, parts, k)) as int,
                    (fixed_len(layout) + var_len(layout, parts, k + 1)) as int,
                ) =~= tail.subrange(
                    var_len(layout, parts, k) as int,
                    var_len(layout, parts, k + 1) as int,
                ));
            },
        }
    }
    assert(split =~= parts);
}

} // verus!
