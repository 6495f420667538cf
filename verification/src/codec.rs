//! Byte-level building blocks of the positional binary encoding.

use vstd::bytes::*;
use vstd::prelude::*;
use vstd::slice::*;

verus! {

/// Number of bytes an offset occupies in the fixed region of a record.
pub const BYTES_PER_LENGTH_OFFSET: usize = 4;

/// The largest length or offset that `BYTES_PER_LENGTH_OFFSET` bytes can hold.
pub const MAX_LENGTH_VALUE: usize = 0xFFFF_FFFF;

/// The four bytes that stand for the offset or length `n`, least significant byte first.
pub open spec fn spec_offset_bytes(n: nat) -> Seq<u8> {
    spec_u32_to_le_bytes(n as u32)
}

/// The offset that the four bytes of `b` stand for, least significant byte first.
pub open spec fn spec_offset_value(b: Seq<u8>) -> nat {
    spec_u32_from_le_bytes(b) as nat
}

/// The offset stored in `bytes` at position `pos`.
pub open spec fn spec_offset_at(bytes: Seq<u8>, pos: int) -> nat {
    spec_offset_value(bytes.subrange(pos, pos + 4))
}

/// The four bytes that stand for `n`, most significant byte first.
pub open spec fn spec_be_length_bytes(n: nat) -> Seq<u8> {
    spec_u32_to_le_bytes(n as u32).reverse()
}

/// The length that the four bytes of `b` stand for, most significant byte first.
pub open spec fn spec_be_length_value(b: Seq<u8>) -> nat {
    spec_u32_from_le_bytes(b.reverse()) as nat
}

/// An offset survives being written and read back.
pub proof fn lemma_offset_roundtrip(n: nat)
    requires
        n <= MAX_LENGTH_VALUE,
    ensures
        spec_offset_bytes(n).len() == 4,
        spec_offset_value(spec_offset_bytes(n)) == n,
{
    lemma_auto_spec_u32_to_from_le_bytes();
    assert(spec_u32_to_le_bytes(n as u32).len() == 4);
}

/// A big-endian length survives being written and read back.
pub proof fn lemma_be_length_roundtrip(n: nat)
    requires
        n <= MAX_LENGTH_VALUE,
    ensures
        spec_be_length_bytes(n).len() == 4,
        spec_be_length_value(spec_be_length_bytes(n)) == n,
{
    lemma_auto_spec_u32_to_from_le_bytes();
    let le = spec_u32_to_le_bytes(n as u32);
    assert(le.reverse().reverse() =~= le);
}

/// A 64-bit integer survives being written and read back.
pub proof fn lemma_u64_roundtrip(x: u64)
    ensures
        spec_u64_to_le_bytes(x).len() == 8,
        spec_u64_from_le_bytes(spec_u64_to_le_bytes(x)) == x,
{
    lemma_auto_spec_u64_to_from_le_bytes();
}

/// Appends `src` to `buf`.
pub fn append_bytes(buf: &mut Vec<u8>, src: &[u8])
    ensures
        final(buf)@ == old(buf)@ + src@,
{
    let mut i: usize = 0;
    while i < src.len()
        invariant
            i <= src@.len(),
            buf@ == old(buf)@ + src@.subrange(0, i as int),
        decreases src@.len() - i,
    {
        buf.push(src[i]);
        i += 1;
    }
    assert(src@.subrange(0, src@.len() as int) == src@);
}

/// Appends the eight bytes of `x`, least significant byte first.
pub fn append_u64(buf: &mut Vec<u8>, x: u64)
    ensures
        final(buf)@ == old(buf)@ + spec_u64_to_le_bytes(x),
{
    let le = u64_to_le_bytes(x);
    append_bytes(buf, le.as_slice());
}

/// Reads the 64-bit integer stored at `pos`, least significant byte first.
pub fn read_u64(bytes: &[u8], pos: usize) -> (x: u64)
    requires
        pos + 8 <= bytes.len(),
    ensures
        x == spec_u64_from_le_bytes(bytes@.subrange(pos as int, pos + 8)),
{
    u64_from_le_bytes(slice_subrange(bytes, pos, pos + 8))
}

/// Asks `ssz::encode_length` for the four bytes that stand for the offset
/// `n`, least significant byte first. It is asked only for what four bytes
/// can hold: of a larger number it keeps the low four bytes, and says so by a
/// failed assertion where assertions are compiled in.
#[verifier::external_body]
fn offset_bytes(n: usize) -> (r: Vec<u8>)
    requires
        n <= MAX_LENGTH_VALUE,
    ensures
        r@ == spec_offset_bytes(n as nat),
{
    ssz::encode_length(n).to_vec()
}

/// Asks `ssz::read_offset` for the offset that `bytes` begins with: the
/// number that its first four bytes stand for, least significant byte
/// first. There is none where there are fewer than four bytes.
#[verifier::external_body]
fn leading_offset(bytes: &[u8]) -> (r: Option<usize>)
    ensures
        r is Some <==> bytes@.len() >= BYTES_PER_LENGTH_OFFSET,
        r matches Some(n) ==> n == spec_offset_at(bytes@, 0),
{
    ssz::read_offset(bytes).ok()
}

/// Appends the four bytes of the offset `n`, least significant byte first.
pub fn append_offset(buf: &mut Vec<u8>, n: usize)
    requires
        n <= MAX_LENGTH_VALUE,
    ensures
        final(buf)@ == old(buf)@ + spec_offset_bytes(n as nat),
{
    let le = offset_bytes(n);
    append_bytes(buf, le.as_slice());
}

/// Reads the offset stored at `pos`, least significant byte first.
pub fn read_offset(bytes: &[u8], pos: usize) -> (n: usize)
    requires
        pos + 4 <= bytes.len(),
    ensures
        n == spec_offset_at(bytes@, pos as int),
        n <= MAX_LENGTH_VALUE,
{
    let rest = slice_subrange(bytes, pos, bytes.len());
    assert(rest@.subrange(0, 4) =~= bytes@.subrange(pos as int, pos + 4));
    match leading_offset(rest) {
        Some(n) => n,
        None => {
            assert(false);
            0
        },
    }
}

/// Appends the four bytes of the length `n`, most significant byte first.
pub fn append_be_length(buf: &mut Vec<u8>, n: usize)
    requires
        n <= MAX_LENGTH_VALUE,
    ensures
        final(buf)@ == old(buf)@ + spec_be_length_bytes(n as nat),
{
    let le = u32_to_le_bytes(n as u32);
    buf.push(le[3]);
    buf.push(le[2]);
    buf.push(le[1]);
    buf.push(le[0]);
    assert(buf@ =~= old(buf)@ + le@.reverse());
}

/// Reads the length stored at `pos`, most significant byte first.
pub fn read_be_length(bytes: &[u8], pos: usize) -> (n: usize)
    requires
        pos + 4 <= bytes.len(),
    ensures
        n == spec_be_length_value(bytes@.subrange(pos as int, pos + 4)),
        n <= MAX_LENGTH_VALUE,
{
    let mut le: Vec<u8> = Vec::new();
    le.push(bytes[pos + 3]);
    le.push(bytes[pos + 2]);
    le.push(bytes[pos + 1]);
    le.push(bytes[pos]);
    assert(le@ =~= bytes@.subrange(pos as int, pos + 4).reverse());
    let x = u32_from_le_bytes(le.as_slice());
    x as usize
}

} // verus!

verus! {

/// Adds a width to a running total, as long as the total can still be
/// written as an offset.
pub fn add_len(total: Option<usize>, width: usize) -> (r: Option<usize>)
    ensures
        match r {
            Some(n) => total matches Some(t) && n == t + width && n <= MAX_LENGTH_VALUE,
            None => total matches Some(t) ==> t + width > MAX_LENGTH_VALUE,
        },
{
    match total {
        Some(t) => {
            if t <= MAX_LENGTH_VALUE && width <= MAX_LENGTH_VALUE - t {
                Some(t + width)
            } else {
                None
            }
        },
        None => None,
    }
}

/// The eight bytes of `x`, least significant byte first.
pub fn u64_bytes(x: u64) -> (r: Vec<u8>)
    ensures
        r@ == spec_u64_to_le_bytes(x),
{
    u64_to_le_bytes(x)
}

/// A copy of `src`.
pub fn copy_bytes(src: &[u8]) -> (r: Vec<u8>)
    ensures
        r@ == src@,
{
    slice_to_vec(src)
}

} // verus!
