//! Why a byte buffer was refused.

use vstd::prelude::*;

verus! {

/// The reason a buffer does not decode.
#[derive(Clone, Copy, Debug, PartialEq, Eq, Structural)]
pub enum DecodeError {
    /// `len` bytes stand where exactly `expected` bytes are needed, or where at
    /// least `expected` bytes are needed to reach the end of a fixed-width field.
    InvalidByteLength { len: usize, expected: usize },
    /// Only `len` bytes are left where a length or an offset of `expected` bytes is to be read.
    InvalidLengthPrefix { len: usize, expected: usize },
    /// The byte at index `i` is needed and does not exist.
    OutOfBoundsByte { i: usize },
    /// The offset points back into the fixed region.
    OffsetIntoFixedPortion(usize),
    /// The first offset points past the byte that follows the fixed region.
    OffsetSkipsVariableBytes(usize),
    /// The offset is smaller than the one before it.
    OffsetsAreDecreasing(usize),
    /// The offset points past the end of the buffer.
    OffsetOutOfBounds(usize),
    /// The offset table of a list does not hold a whole number of offsets.
    InvalidListFixedBytesLen(usize),
    /// The selector of an optional value is neither 0 nor 1.
    UnionSelectorInvalid(u8),
    /// The value of the map entry with this index, counted from 0, is not a receipt.
    InvalidReceipt { index: usize },
}

} // verus!
