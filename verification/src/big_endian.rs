//! Numbers as big-endian byte strings.

use vstd::prelude::*;

verus! {

/// The number that a big-endian byte string denotes.
pub open spec fn be_value(s: Seq<u8>) -> nat
    decreases s.len(),
{
    if s.len() == 0 {
        0
    } else {
        be_value(s.drop_last()) * 256 + s.last() as nat
    }
}

/// `256` to the power `n`.
pub open spec fn pow256(n: nat) -> nat
    decreases n,
{
    if n == 0 {
        1
    } else {
        256 * pow256((n - 1) as nat)
    }
}

/// `256` to a larger power is no smaller.
pub proof fn lemma_pow256_monotonic(i: nat, j: nat)
    requires
        i <= j,
    ensures
        pow256(i) <= pow256(j),
        pow256(i) >= 1,
    decreases j,
{
    if i < j {
        lemma_pow256_monotonic(i, (j - 1) as nat);
    } else if i > 0 {
        lemma_pow256_monotonic((i - 1) as nat, (i - 1) as nat);
    }
}

/// The powers of `256` that bound numbers of 56 and of 64 bits.
pub proof fn lemma_pow256_values()
    ensures
        pow256(7) == 0x100_0000_0000_0000,
        pow256(8) == 0x1_0000_0000_0000_0000,
{
    reveal_with_fuel(pow256, 9);
}

/// The shortest big-endian byte string that denotes `n`: empty for zero,
/// and without a leading zero byte otherwise.
pub open spec fn min_be_bytes(n: nat) -> Seq<u8>
    decreases n,
{
    if n == 0 {
        Seq::empty()
    } else {
        min_be_bytes(n / 256).push((n % 256) as u8)
    }
}

/// Whether a byte string starts with a zero byte.
pub open spec fn has_leading_zero(s: Seq<u8>) -> bool {
    s.len() > 0 && s[0] == 0
}

/// A byte string of `n` bytes denotes a number below `256` to the power `n`.
pub proof fn lemma_be_value_bound(s: Seq<u8>)
    ensures
        be_value(s) < pow256(s.len()),
    decreases s.len(),
{
    if s.len() > 0 {
        lemma_be_value_bound(s.drop_last());
        assert(pow256(s.len()) == 256 * pow256((s.len() - 1) as nat));
    }
}

/// Two byte strings of one length that denote the same number are equal.
pub proof fn lemma_be_value_injective(a: Seq<u8>, b: Seq<u8>)
    requires
        a.len() == b.len(),
        be_value(a) == be_value(b),
    ensures
        a == b,
    decreases a.len(),
{
    if a.len() > 0 {
        let x = be_value(a.drop_last());
        let y = be_value(b.drop_last());
        assert(x * 256 + a.last() as nat == y * 256 + b.last() as nat);
        assert(x == y && a.last() == b.last());
        lemma_be_value_injective(a.drop_last(), b.drop_last());
        assert(a =~= a.drop_last().push(a.last()));
        assert(b =~= b.drop_last().push(b.last()));
    } else {
        assert(a =~= b);
    }
}

/// A single byte denotes itself.
pub proof fn lemma_be_value_single(b: u8)
    ensures
        be_value(seq![b]) == b,
{
    reveal_with_fuel(be_value, 2);
    assert(seq![b].drop_last() =~= Seq::<u8>::empty());
}

/// A byte string of zeros denotes zero.
pub proof fn lemma_be_value_zeros(s: Seq<u8>)
    requires
        forall|i: int| 0 <= i < s.len() ==> s[i] == 0,
    ensures
        be_value(s) == 0,
    decreases s.len(),
{
    if s.len() > 0 {
        lemma_be_value_zeros(s.drop_last());
    }
}

/// The number of `a` followed by `b` is the number of `a`, shifted by the
/// length of `b`, plus the number of `b`.
pub proof fn lemma_be_value_concat(a: Seq<u8>, b: Seq<u8>)
    ensures
        be_value(a + b) == be_value(a) * pow256(b.len()) + be_value(b),
    decreases b.len(),
{
    if b.len() == 0 {
        assert(a + b =~= a);
        assert(be_value(a) * 1 == be_value(a)) by (nonlinear_arith);
    } else {
        let b0 = b.drop_last();
        lemma_be_value_concat(a, b0);
        assert((a + b).drop_last() =~= a + b0);
        assert((a + b).last() == b.last());
        let x = be_value(a);
        let p = pow256(b0.len());
        let y = be_value(b0);
        assert(pow256(b.len()) == 256 * p);
        assert((x * p + y) * 256 == x * (256 * p) + y * 256) by (nonlinear_arith);
        assert(be_value(a + b) == be_value(a + b0) * 256 + b.last() as nat);
        assert(be_value(b) == y * 256 + b.last() as nat);
    }
}

/// Zero bytes in front of a byte string do not change its number.
pub proof fn lemma_be_value_leading_zeros(z: Seq<u8>, s: Seq<u8>)
    requires
        forall|i: int| 0 <= i < z.len() ==> z[i] == 0,
    ensures
        be_value(z + s) == be_value(s),
{
    lemma_be_value_concat(z, s);
    lemma_be_value_zeros(z);
    assert(0 * pow256(s.len()) == 0) by (nonlinear_arith);
}

/// The shortest byte string of `n` denotes `n`.
pub proof fn lemma_min_be_bytes_value(n: nat)
    ensures
        be_value(min_be_bytes(n)) == n,
    decreases n,
{
    if n != 0 {
        lemma_min_be_bytes_value(n / 256);
        let s = min_be_bytes(n);
        assert(s.drop_last() =~= min_be_bytes(n / 256));
        assert(s.last() == (n % 256) as u8);
    }
}

/// The shortest byte string of a number has no leading zero byte.
pub proof fn lemma_min_be_bytes_canonical(n: nat)
    ensures
        !has_leading_zero(min_be_bytes(n)),
        n == 0 <==> min_be_bytes(n).len() == 0,
    decreases n,
{
    if n != 0 {
        lemma_min_be_bytes_canonical(n / 256);
        let s0 = min_be_bytes(n / 256);
        let s = min_be_bytes(n);
        if s0.len() == 0 {
            assert(n / 256 == 0);
            assert(s[0] == (n % 256) as u8);
        } else {
            assert(s[0] == s0[0]);
        }
    }
}

/// A byte string without a leading zero byte is the shortest one of its
/// number.
pub proof fn lemma_min_be_bytes_of_value(s: Seq<u8>)
    requires
        !has_leading_zero(s),
    ensures
        min_be_bytes(be_value(s)) == s,
    decreases s.len(),
{
    if s.len() > 0 {
        let s0 = s.drop_last();
        let v0 = be_value(s0);
        let v = be_value(s);
        assert(v == v0 * 256 + s.last() as nat);
        assert(v / 256 == v0 && v % 256 == s.last() as nat);
        if s0.len() > 0 {
            assert(s0[0] == s[0]);
            lemma_min_be_bytes_of_value(s0);
            lemma_be_value_positive(s0);
        } else {
            assert(v0 == 0);
            assert(s.last() == s[0]);
        }
        assert(v != 0);
        assert(min_be_bytes(v) == min_be_bytes(v / 256).push((v % 256) as u8));
        assert(s =~= s0.push(s.last()));
    } else {
        assert(s =~= Seq::<u8>::empty());
    }
}

/// A non-empty byte string without a leading zero byte denotes a positive
/// number, at least `256` to the power of its length less one.
pub proof fn lemma_be_value_positive(s: Seq<u8>)
    requires
        s.len() > 0,
        s[0] != 0,
    ensures
        be_value(s) >= pow256((s.len() - 1) as nat),
    decreases s.len(),
{
    let s0 = s.drop_last();
    if s0.len() > 0 {
        assert(s0[0] == s[0]);
        lemma_be_value_positive(s0);
        assert(pow256((s.len() - 1) as nat) == 256 * pow256((s0.len() - 1) as nat));
    } else {
        assert(s.last() == s[0]);
        assert(be_value(s0) == 0);
    }
}

/// The shortest byte string of a number below `256` to the power `k` has at
/// most `k` bytes.
pub proof fn lemma_min_be_bytes_len(n: nat, k: nat)
    requires
        n < pow256(k),
    ensures
        min_be_bytes(n).len() <= k,
    decreases n,
{
    if n != 0 {
        assert(k > 0);
        assert(pow256(k) == 256 * pow256((k - 1) as nat));
        assert(n / 256 < pow256((k - 1) as nat));
        lemma_min_be_bytes_len(n / 256, (k - 1) as nat);
    }
}

} // verus!
