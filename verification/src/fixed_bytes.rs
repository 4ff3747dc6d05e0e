//! Helpers for byte arrays of a fixed length and for byte buffers.

use vstd::prelude::*;

verus! {

/// Whether two byte arrays hold the same bytes.
pub fn bytes_equal<const N: usize>(a: &[u8; N], b: &[u8; N]) -> (r: bool)
    ensures
        r == (a@ == b@),
        r == (*a == *b),
{
    let mut i: usize = 0;
    while i < N
        invariant
            i <= N,
            forall|j: int| 0 <= j < i ==> a@[j] == b@[j],
        decreases N - i,
    {
        if a[i] != b[i] {
            return false;
        }
        i = i + 1;
    }
    assert(a@ =~= b@);
    assert(*a =~= *b);
    true
}

/// Whether `a` comes before `b` in the order of byte strings: where they
/// first differ, `a` has the smaller byte.
pub open spec fn spec_bytes_before(a: Seq<u8>, b: Seq<u8>) -> bool {
    exists|i: int|
        0 <= i < a.len() && i < b.len() && #[trigger] a[i] < b[i] && a.take(i) == b.take(i)
}

/// Whether `a` comes before `b` in the order of byte strings.
pub fn bytes_before<const N: usize>(a: &[u8; N], b: &[u8; N]) -> (r: bool)
    ensures
        r == spec_bytes_before(a@, b@),
{
    let mut i: usize = 0;
    while i < N
        invariant
            i <= N,
            a@.take(i as int) == b@.take(i as int),
        decreases N - i,
    {
        if a[i] != b[i] {
            proof {
                assert forall|k: int| 0 <= k < N && k != i implies !(#[trigger] a@[k] < b@[k]
                    && a@.take(k) == b@.take(k)) by {
                    if k < i {
                        assert(a@.take(i as int)[k] == b@.take(i as int)[k]);
                    } else if a@.take(k) == b@.take(k) {
                        assert(a@.take(k)[i as int] == b@.take(k)[i as int]);
                    }
                }
            }
            return a[i] < b[i];
        }
        proof {
            assert(a@.take(i + 1) =~= a@.take(i as int).push(a@[i as int]));
            assert(b@.take(i + 1) =~= b@.take(i as int).push(b@[i as int]));
        }
        i = i + 1;
    }
    proof {
        assert forall|k: int| 0 <= k < N implies !(#[trigger] a@[k] < b@[k]) by {
            assert(a@.take(N as int)[k] == b@.take(N as int)[k]);
        }
    }
    false
}

/// The first `N` bytes of a slice, as an array.
pub fn array_from_prefix<const N: usize>(s: &[u8]) -> (r: [u8; N])
    requires
        s@.len() >= N,
    ensures
        r@ == s@.take(N as int),
{
    let mut r = [0u8; N];
    let mut i: usize = 0;
    while i < N
        invariant
            i <= N,
            s@.len() >= N,
            forall|j: int| 0 <= j < i ==> r@[j] == s@[j],
        decreases N - i,
    {
        r[i] = s[i];
        i = i + 1;
    }
    assert(r@ =~= s@.take(N as int));
    r
}

/// Appends the bytes of a slice to a buffer.
pub fn append_bytes(out: &mut Vec<u8>, s: &[u8])
    ensures
        final(out)@ == old(out)@ + s@,
{
    let mut i: usize = 0;
    while i < s.len()
        invariant
            i <= s@.len(),
            out@ == old(out)@ + s@.take(i as int),
        decreases s@.len() - i,
    {
        out.push(s[i]);
        proof {
            assert(s@.take(i + 1) =~= s@.take(i as int).push(s@[i as int]));
            assert(out@ =~= old(out)@ + s@.take(i + 1));
        }
        i = i + 1;
    }
    assert(s@.take(s@.len() as int) =~= s@);
}

/// Calls `try_random` of `alloy_primitives::FixedBytes`, which fills `N`
/// bytes from the system's random number generator. Nothing is claimed of
/// the bytes; the outside error becomes an absent result.
#[verifier::external_body]
pub(crate) fn random_bytes<const N: usize>() -> (r: Option<[u8; N]>) {
    match alloy_primitives::FixedBytes::<N>::try_random() {
        Ok(bytes) => Some(bytes.0),
        Err(_) => None,
    }
}

/// The bytes of a slice from index `from` on.
pub fn slice_from(s: &[u8], from: usize) -> (r: &[u8])
    requires
        from <= s@.len(),
    ensures
        r@ == s@.skip(from as int),
{
    let r = vstd::slice::slice_subrange(s, from, s.len());
    assert(r@ =~= s@.skip(from as int));
    r
}

} // verus!
