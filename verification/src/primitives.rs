//! Fixed-width values that payload fields are made of.

use crate::codec::{append_u64, read_u64};
use vstd::bytes::*;
use vstd::prelude::*;

verus! {

/// A byte string of exactly `N` bytes.
#[derive(Clone, Copy, Debug, PartialEq, Eq, Hash)]
pub struct FixedBytes<const N: usize>(pub [u8; N]);

/// A 20-byte account address.
pub type Address = FixedBytes<20>;

/// A 32-byte hash.
pub type B256 = FixedBytes<32>;

/// A 256-byte logs bloom filter.
pub type Bloom = FixedBytes<256>;

/// An 8-byte string.
pub type B64 = FixedBytes<8>;

impl<const N: usize> View for FixedBytes<N> {
    type V = Seq<u8>;

    open spec fn view(&self) -> Seq<u8> {
        self.0@
    }
}

impl<const N: usize> Default for FixedBytes<N> {
    fn default() -> (r: Self)
        ensures
            r@ == Seq::new(N as nat, |i: int| 0u8),
    {
        FixedBytes::zero()
    }
}

impl<const N: usize> FixedBytes<N> {
    /// The value whose bytes are all zero.
    pub fn zero() -> (r: Self)
        ensures
            r@ == Seq::new(N as nat, |i: int| 0u8),
    {
        let r = FixedBytes([0u8; N]);
        assert(r@ =~= Seq::new(N as nat, |i: int| 0u8));
        r
    }

    /// Copies `src`, which must hold exactly `N` bytes.
    pub fn from_slice(src: &[u8]) -> (r: Self)
        requires
            src@.len() == N,
        ensures
            r@ == src@,
    {
        let mut a = [0u8; N];
        let mut i: usize = 0;
        while i < N
            invariant
                i <= N,
                src@.len() == N,
                forall|j: int| 0 <= j < i ==> a@[j] == src@[j],
            decreases N - i,
        {
            a[i] = src[i];
            i += 1;
        }
        assert(a@ =~= src@);
        FixedBytes(a)
    }

    /// The bytes, in order.
    pub fn as_slice(&self) -> (r: &[u8])
        ensures
            r@ == self@,
    {
        self.0.as_slice()
    }

    /// Whether `self` and `other` hold the same bytes.
    pub fn is_equal(&self, other: &Self) -> (r: bool)
        ensures
            r == (*self == *other),
            r == (self@ == other@),
    {
        let mut i: usize = 0;
        while i < N
            invariant
                i <= N,
                forall|j: int| 0 <= j < i ==> self.0@[j] == other.0@[j],
            decreases N - i,
        {
            if self.0[i] != other.0[i] {
                return false;
            }
            i += 1;
        }
        assert(self.0@ =~= other.0@);
        assert(self.0 =~= other.0);
        true
    }
}

} // verus!

verus! {

/// Two to the power 64.
pub open spec fn pow2_64() -> nat {
    0x1_0000_0000_0000_0000nat
}

/// Two to the power 256.
pub open spec fn pow2_256() -> nat {
    0x1_0000_0000_0000_0000_0000_0000_0000_0000_0000_0000_0000_0000_0000_0000_0000_0000nat
}

/// The number that four 64-bit limbs stand for, least significant limb first.
pub open spec fn limbs_value(l0: u64, l1: u64, l2: u64, l3: u64) -> nat {
    l0 as nat + pow2_64() * (l1 as nat + pow2_64() * (l2 as nat + pow2_64() * (l3 as nat)))
}

/// The `i`-th 64-bit limb of `v`, counted from the least significant one.
pub open spec fn limb_of(v: nat, i: int) -> u64 {
    if i <= 0 {
        (v % pow2_64()) as u64
    } else if i == 1 {
        ((v / pow2_64()) % pow2_64()) as u64
    } else if i == 2 {
        ((v / pow2_64() / pow2_64()) % pow2_64()) as u64
    } else {
        ((v / pow2_64() / pow2_64() / pow2_64()) % pow2_64()) as u64
    }
}

/// Limbs and value determine each other.
pub proof fn lemma_limbs_value(l0: u64, l1: u64, l2: u64, l3: u64)
    ensures
        limbs_value(l0, l1, l2, l3) < pow2_256(),
        limb_of(limbs_value(l0, l1, l2, l3), 0) == l0,
        limb_of(limbs_value(l0, l1, l2, l3), 1) == l1,
        limb_of(limbs_value(l0, l1, l2, l3), 2) == l2,
        limb_of(limbs_value(l0, l1, l2, l3), 3) == l3,
{
    let b = pow2_64();
    let v2 = l2 as nat + b * (l3 as nat);
    let v1 = l1 as nat + b * v2;
    let v0 = l0 as nat + b * v1;
    assert(v0 / b == v1 && v0 % b == l0);
    assert(v1 / b == v2 && v1 % b == l1);
    assert(v2 / b == l3 && v2 % b == l2);
}

/// A value below two to the power 256 is the value of its limbs.
pub proof fn lemma_value_limbs(v: nat)
    requires
        v < pow2_256(),
    ensures
        limbs_value(limb_of(v, 0), limb_of(v, 1), limb_of(v, 2), limb_of(v, 3)) == v,
{
    let b = pow2_64();
    let v1 = v / b;
    let v2 = v1 / b;
    let v3 = v2 / b;
    assert(v == v % b + b * v1);
    assert(v1 == v1 % b + b * v2);
    assert(v2 == v2 % b + b * v3);
    assert(v3 < b);
}

} // verus!

verus! {

/// An unsigned integer below two to the power 256, held as four 64-bit limbs,
/// least significant limb first.
#[derive(Clone, Copy, Debug, PartialEq, Eq, Hash)]
pub struct U256 {
    pub limbs: [u64; 4],
}

impl View for U256 {
    type V = nat;

    open spec fn view(&self) -> nat {
        limbs_value(self.limbs[0], self.limbs[1], self.limbs[2], self.limbs[3])
    }
}

/// The 32 bytes that stand for `v`, least significant byte first.
pub open spec fn spec_u256_bytes(v: nat) -> Seq<u8> {
    spec_u64_to_le_bytes(limb_of(v, 0)) + spec_u64_to_le_bytes(limb_of(v, 1))
        + spec_u64_to_le_bytes(limb_of(v, 2)) + spec_u64_to_le_bytes(limb_of(v, 3))
}

/// The number that the 32 bytes of `b` stand for, least significant byte first.
pub open spec fn spec_u256_value(b: Seq<u8>) -> nat {
    limbs_value(
        spec_u64_from_le_bytes(b.subrange(0, 8)),
        spec_u64_from_le_bytes(b.subrange(8, 16)),
        spec_u64_from_le_bytes(b.subrange(16, 24)),
        spec_u64_from_le_bytes(b.subrange(24, 32)),
    )
}

/// A 256-bit integer survives being written and read back.
pub proof fn lemma_u256_roundtrip(v: nat)
    requires
        v < pow2_256(),
    ensures
        spec_u256_bytes(v).len() == 32,
        spec_u256_value(spec_u256_bytes(v)) == v,
{
    lemma_auto_spec_u64_to_from_le_bytes();
    let b0 = spec_u64_to_le_bytes(limb_of(v, 0));
    let b1 = spec_u64_to_le_bytes(limb_of(v, 1));
    let b2 = spec_u64_to_le_bytes(limb_of(v, 2));
    let b3 = spec_u64_to_le_bytes(limb_of(v, 3));
    assert(b0.len() == 8 && b1.len() == 8 && b2.len() == 8 && b3.len() == 8);
    let b = spec_u256_bytes(v);
    assert(b.subrange(0, 8) =~= b0);
    assert(b.subrange(8, 16) =~= b1);
    assert(b.subrange(16, 24) =~= b2);
    assert(b.subrange(24, 32) =~= b3);
    lemma_value_limbs(v);
}

impl Default for U256 {
    fn default() -> (r: Self)
        ensures
            r@ == 0,
    {
        U256::from_u64(0)
    }
}

impl U256 {
    /// The integer with these limbs, least significant limb first.
    pub fn from_limbs(limbs: [u64; 4]) -> (r: Self)
        ensures
            r.limbs == limbs,
    {
        U256 { limbs }
    }

    /// The integer `x`.
    pub fn from_u64(x: u64) -> (r: Self)
        ensures
            r@ == x,
    {
        U256 { limbs: [x, 0, 0, 0] }
    }

    /// The limbs, least significant limb first.
    pub fn into_limbs(self) -> (r: [u64; 4])
        ensures
            r == self.limbs,
    {
        self.limbs
    }

    /// The integer is below two to the power 256, and its limbs are those of its value.
    pub proof fn lemma_value(self)
        ensures
            self@ < pow2_256(),
            forall|i: int| 0 <= i < 4 ==> limb_of(self@, i) == #[trigger] self.limbs[i],
    {
        lemma_limbs_value(self.limbs[0], self.limbs[1], self.limbs[2], self.limbs[3]);
    }

    /// Reads an integer from the 32 bytes of `src`, least significant byte first.
    pub fn from_le_slice(src: &[u8]) -> (r: Self)
        requires
            src@.len() == 32,
        ensures
            r@ == spec_u256_value(src@),
    {
        let l0 = read_u64(src, 0);
        let l1 = read_u64(src, 8);
        let l2 = read_u64(src, 16);
        let l3 = read_u64(src, 24);
        U256 { limbs: [l0, l1, l2, l3] }
    }

    /// Appends the 32 bytes of the integer, least significant byte first.
    pub fn append_le_bytes(&self, buf: &mut Vec<u8>)
        ensures
            final(buf)@ == old(buf)@ + spec_u256_bytes(self@),
    {
        proof {
            self.lemma_value();
        }
        append_u64(buf, self.limbs[0]);
        append_u64(buf, self.limbs[1]);
        append_u64(buf, self.limbs[2]);
        append_u64(buf, self.limbs[3]);
        assert(buf@ =~= old(buf)@ + spec_u256_bytes(self@));
    }
}

/// An 8-byte identifier of a payload under construction.
#[derive(Clone, Copy, Debug, PartialEq, Eq, Hash)]
pub struct PayloadId(pub B64);

impl Default for PayloadId {
    fn default() -> (r: Self)
        ensures
            r@ == Seq::new(8, |i: int| 0u8),
    {
        PayloadId(FixedBytes::zero())
    }
}

impl View for PayloadId {
    type V = Seq<u8>;

    open spec fn view(&self) -> Seq<u8> {
        self.0@
    }
}

} // verus!
