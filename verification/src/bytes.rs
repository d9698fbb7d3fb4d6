//! Copies of parts of byte strings.

use vstd::prelude::*;

verus! {

/// What each of several byte strings holds.
pub open spec fn contents(v: Seq<Vec<u8>>) -> Seq<Seq<u8>> {
    Seq::new(v.len(), |i: int| v[i]@)
}

/// The bytes of `s` from `i` up to `j`.
pub fn part(s: &[u8], i: usize, j: usize) -> (r: Vec<u8>)
    requires
        i <= j <= s@.len(),
    ensures
        r@ == s@.subrange(i as int, j as int),
{
    vstd::slice::slice_to_vec(vstd::slice::slice_subrange(s, i, j))
}

/// The `N` bytes of `s` that start at `i`.
pub fn array_at<const N: usize>(s: &[u8], i: usize) -> (r: [u8; N])
    requires
        i + N <= s@.len(),
    ensures
        r@ == s@.subrange(i as int, i + N),
{
    let mut r: [u8; N] = [0u8; N];
    let len = s.len();
    let mut j: usize = 0;
    while j < N
        invariant
            j <= N,
            i + N <= s@.len() == len,
            forall|k: int| 0 <= k < j ==> r@[k] == s@[i + k],
        decreases N - j,
    {
        r[j] = s[i + j];
        j += 1;
    }
    assert(r@ =~= s@.subrange(i as int, i + N));
    r
}

/// Appends `more` to `v`.
pub fn append(v: &mut Vec<u8>, more: &[u8])
    ensures
        final(v)@ == old(v)@ + more@,
{
    v.extend_from_slice(more);
    assert(v@ =~= old(v)@ + more@);
}

/// Says whether two byte strings are equal.
pub fn same(a: &[u8], b: &[u8]) -> (r: bool)
    ensures
        r <==> a@ == b@,
{
    if a.len() != b.len() {
        return false;
    }
    let mut i: usize = 0;
    while i < a.len()
        invariant
            i <= a@.len(),
            a@.len() == b@.len(),
            forall|j: int| 0 <= j < i ==> a@[j] == b@[j],
        decreases a@.len() - i,
    {
        if a[i] != b[i] {
            return false;
        }
        i += 1;
    }
    assert(a@ =~= b@);
    true
}

} // verus!
