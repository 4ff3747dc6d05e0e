//! Unsigned 256-bit integers, held as 32 big-endian bytes.

use vstd::prelude::*;
use crate::big_endian::{
    be_value, lemma_be_value_bound, lemma_be_value_concat, lemma_be_value_injective,
    lemma_be_value_leading_zeros, lemma_be_value_single, lemma_be_value_zeros, pow256,
};
use crate::fixed_bytes::bytes_equal;

verus! {

/// The first number that no `UInt256` holds: two to the power 256.
pub open spec fn uint256_limit() -> nat {
    pow256(32)
}

/// An unsigned integer of 256 bits.
#[derive(Clone, Copy, Debug, Default, PartialEq, Eq, PartialOrd, Ord, Hash)]
pub struct UInt256 {
    /// The number, most significant byte first.
    pub bytes: [u8; 32],
}

impl View for UInt256 {
    type V = nat;

    open spec fn view(&self) -> nat {
        be_value(self.bytes@)
    }
}

impl UInt256 {
    /// The number that the 32 bytes denote, most significant byte first.
    pub fn from_be_bytes(bytes: [u8; 32]) -> (r: Self)
        ensures
            r.bytes == bytes,
            r@ == be_value(bytes@),
    {
        UInt256 { bytes }
    }

    /// The 32 bytes of the number, most significant byte first.
    pub fn to_be_bytes(&self) -> (r: [u8; 32])
        ensures
            r == self.bytes,
            be_value(r@) == self@,
    {
        self.bytes
    }

    /// Zero.
    pub fn zero() -> (r: Self)
        ensures
            r@ == 0,
    {
        let r = UInt256 { bytes: [0u8; 32] };
        proof {
            lemma_be_value_zeros(r.bytes@);
        }
        r
    }

    /// The number `x`.
    pub fn from_u64(x: u64) -> (r: Self)
        ensures
            r@ == x,
    {
        let mut bytes = [0u8; 32];
        let mut rest: u64 = x;
        let mut i: usize = 0;
        proof {
            assert(bytes@.subrange(32, 32) =~= Seq::<u8>::empty());
            assert(rest * pow256(0) == rest) by (nonlinear_arith)
                requires
                    pow256(0) == 1,
            ;
        }
        while i < 8
            invariant
                i <= 8,
                forall|j: int| 0 <= j < 32 - i ==> bytes@[j] == 0,
                rest * pow256(i as nat) + be_value(bytes@.subrange(32 - i, 32)) == x,
            decreases 8 - i,
        {
            let ghost before = bytes@;
            let b: u8 = (rest % 256) as u8;
            bytes[31 - i] = b;
            proof {
                let tail = before.subrange(32 - i, 32);
                let grown = bytes@.subrange(31 - i, 32);
                assert(grown =~= seq![b] + tail);
                lemma_be_value_concat(seq![b], tail);
                lemma_be_value_single(b);
                let p = pow256(i as nat);
                assert(pow256((i + 1) as nat) == 256 * p);
                assert(rest == (rest / 256) * 256 + b);
                assert(((rest / 256) * 256 + b) * p == (rest / 256) * (256 * p) + b * p)
                    by (nonlinear_arith);
            }
            rest = rest / 256;
            i = i + 1;
        }
        proof {
            assert(pow256(8) == 0x1_0000_0000_0000_0000) by {
                reveal_with_fuel(pow256, 9);
            }
            assert(rest == 0) by (nonlinear_arith)
                requires
                    rest * 0x1_0000_0000_0000_0000 <= x,
                    x < 0x1_0000_0000_0000_0000,
            ;
            let z = bytes@.subrange(0, 24);
            let tail = bytes@.subrange(24, 32);
            assert(bytes@ =~= z + tail);
            lemma_be_value_leading_zeros(z, tail);
        }
        UInt256 { bytes }
    }

    /// Whether two numbers are equal.
    pub fn is_equal(&self, other: &UInt256) -> (r: bool)
        ensures
            r == (self@ == other@),
            r == (*self == *other),
    {
        let r = bytes_equal(&self.bytes, &other.bytes);
        proof {
            if self@ == other@ {
                lemma_be_value_injective(self.bytes@, other.bytes@);
            }
        }
        r
    }

    /// Whether this number is smaller than `other`.
    pub fn is_less_than(&self, other: &UInt256) -> (r: bool)
        ensures
            r == (self@ < other@),
    {
        self.checked_sub(other).is_none()
    }

    /// Whether the number is zero.
    pub fn is_zero(&self) -> (r: bool)
        ensures
            r == (self@ == 0),
    {
        let z = UInt256::zero();
        self.is_equal(&z)
    }

    /// The sum of two numbers, or nothing where it does not fit in 256 bits.
    pub fn checked_add(&self, rhs: &UInt256) -> (r: Option<UInt256>)
        ensures
            r is Some <==> self@ + rhs@ < uint256_limit(),
            r matches Some(sum) ==> sum@ == self@ + rhs@,
    {
        u256_checked_add(self, rhs)
    }

    /// The difference of two numbers, or nothing where the second is the
    /// larger one.
    pub fn checked_sub(&self, rhs: &UInt256) -> (r: Option<UInt256>)
        ensures
            r is Some <==> self@ >= rhs@,
            r matches Some(difference) ==> difference@ == self@ - rhs@,
    {
        u256_checked_sub(self, rhs)
    }

    /// Two numbers with the same value are the same number.
    pub proof fn lemma_same_value(self, other: UInt256)
        requires
            self@ == other@,
        ensures
            self == other,
    {
        lemma_be_value_injective(self.bytes@, other.bytes@);
        assert(self.bytes =~= other.bytes);
    }

    /// Every number of 256 bits is below the limit.
    pub proof fn lemma_below_limit(self)
        ensures
            self@ < uint256_limit(),
    {
        lemma_be_value_bound(self.bytes@);
    }
}

/// Calls `checked_add` of `alloy_primitives::U256` (that is, of
/// `ruint::Uint<256, 4>`) on the two numbers, each handed over with
/// `from_be_bytes` and taken back with `to_be_bytes` as its 32 big-endian
/// bytes. The contract claims what the outside documentation says: the sum
/// where it fits in 256 bits, and nothing where it overflows.
#[verifier::external_body]
fn u256_checked_add(a: &UInt256, b: &UInt256) -> (r: Option<UInt256>)
    ensures
        r is Some <==> a@ + b@ < uint256_limit(),
        r matches Some(sum) ==> sum@ == a@ + b@,
{
    let x = alloy_primitives::U256::from_be_bytes(a.bytes);
    let y = alloy_primitives::U256::from_be_bytes(b.bytes);
    match x.checked_add(y) {
        Some(sum) => Some(UInt256 { bytes: sum.to_be_bytes() }),
        None => None,
    }
}

/// Calls `checked_sub` of `alloy_primitives::U256` (that is, of
/// `ruint::Uint<256, 4>`) on the two numbers, each handed over with
/// `from_be_bytes` and taken back with `to_be_bytes` as its 32 big-endian
/// bytes. The contract claims what the outside documentation says: the
/// difference where the first number is at least the second, and nothing
/// otherwise.
#[verifier::external_body]
fn u256_checked_sub(a: &UInt256, b: &UInt256) -> (r: Option<UInt256>)
    ensures
        r is Some <==> a@ >= b@,
        r matches Some(difference) ==> difference@ == a@ - b@,
{
    let x = alloy_primitives::U256::from_be_bytes(a.bytes);
    let y = alloy_primitives::U256::from_be_bytes(b.bytes);
    match x.checked_sub(y) {
        Some(difference) => Some(UInt256 { bytes: difference.to_be_bytes() }),
        None => None,
    }
}

} // verus!
