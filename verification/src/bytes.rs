//! Byte fill, copy and compare over slices.
//!
//! `memset`, `memcpy` and `memcmp` are the primitives the rest of the crate
//! builds its buffer handling on; each works on the first `n` bytes of its
//! arguments. The other functions here are what the crate most often makes
//! of them.

use vstd::prelude::*;
use crate::search::{first_true, is_first_true, lemma_first_true, lemma_first_true_unique};

verus! {

/// `s` with its first `n` bytes replaced by `b`.
pub open spec fn filled(s: Seq<u8>, b: u8, n: int) -> Seq<u8> {
    Seq::new(s.len(), |i: int| if i < n { b } else { s[i] })
}

/// `dest` with its first `n` bytes replaced by the first `n` bytes of `src`.
pub open spec fn copied(dest: Seq<u8>, src: Seq<u8>, n: int) -> Seq<u8> {
    src.take(n) + dest.skip(n)
}

/// `dest` with the bytes from `at` on replaced by `src`, as far as `src`
/// reaches.
pub open spec fn spliced(dest: Seq<u8>, at: int, src: Seq<u8>) -> Seq<u8> {
    dest.take(at) + src + dest.skip(at + src.len())
}

/// For each of the first `n` positions, whether `a` and `b` differ there.
pub open spec fn mismatches(a: Seq<u8>, b: Seq<u8>, n: usize) -> Seq<bool> {
    Seq::new(n as nat, |i: int| a[i] != b[i])
}

/// First position below `n` at which `a` and `b` differ; `n` when the first
/// `n` bytes agree.
pub open spec fn first_mismatch(a: Seq<u8>, b: Seq<u8>, n: usize) -> int {
    first_true(mismatches(a, b, n))
}

/// Difference of the two bytes at the first mismatch below `n`, taken as
/// integers; zero when the first `n` bytes agree.
pub open spec fn signed_difference(a: Seq<u8>, b: Seq<u8>, n: usize) -> int {
    let k = first_mismatch(a, b, n);
    if k < n {
        a[k] - b[k]
    } else {
        0
    }
}

/// Whether `a` and `b` have the same first `n` bytes.
pub open spec fn same_prefix(a: Seq<u8>, b: Seq<u8>, n: usize) -> bool {
    a.take(n as int) == b.take(n as int)
}

/// `line` begins with `pat`.
pub open spec fn has_prefix(line: Seq<u8>, pat: Seq<u8>) -> bool {
    pat.len() <= line.len() && line.take(pat.len() as int) == pat
}

/// `line` ends with `pat`.
pub open spec fn has_suffix(line: Seq<u8>, pat: Seq<u8>) -> bool {
    pat.len() <= line.len() && line.skip(line.len() - pat.len()) == pat
}

/// A sequence is its own prefix of full length.
pub proof fn lemma_take_all(s: Seq<u8>)
    ensures
        s.take(s.len() as int) == s,
{
    assert(s.take(s.len() as int) =~= s);
}

/// The signed difference vanishes exactly when the prefixes are equal.
pub proof fn lemma_difference_zero(a: Seq<u8>, b: Seq<u8>, n: usize)
    requires
        n <= a.len(),
        n <= b.len(),
    ensures
        signed_difference(a, b, n) == 0 <==> same_prefix(a, b, n),
{
    let flags = mismatches(a, b, n);
    lemma_first_true(flags);
    let k = first_mismatch(a, b, n);
    if k < n {
        assert(flags[k]);
        assert(a.take(n as int)[k] == a[k]);
        assert(b.take(n as int)[k] == b[k]);
    } else {
        assert forall|i: int| 0 <= i < n implies a[i] == b[i] by {
            assert(!flags[i]);
        }
        assert(a.take(n as int) =~= b.take(n as int));
    }
}

/// A scan that found the first `i` bytes equal, and stopped at `i` because of
/// a difference or because it reached `n`, has found the first mismatch.
proof fn lemma_scan_stops(a: Seq<u8>, b: Seq<u8>, n: usize, i: usize)
    requires
        i <= n,
        forall|j: int| 0 <= j < i ==> a[j] == b[j],
        i < n ==> a[i as int] != b[i as int],
    ensures
        first_mismatch(a, b, n) == i,
{
    assert(is_first_true(mismatches(a, b, n), i as int));
    lemma_first_true_unique(mismatches(a, b, n), i as int);
}

/// The byte as a signed integer.
fn widen(b: u8) -> (r: i32)
    ensures
        r == b,
{
    b as i32
}

/// Sets the first `n` bytes of `s` to the low eight bits of `c`.
pub fn memset(s: &mut [u8], c: i32, n: usize)
    requires
        n <= old(s)@.len(),
    ensures
        final(s)@ == filled(old(s)@, c as u8, n as int),
{
    let b: u8 = #[verifier::truncate] (c as u8);
    let mut i: usize = 0;
    while i < n
        invariant
            i <= n <= s@.len(),
            s@.len() == old(s)@.len(),
            b == c as u8,
            forall|j: int| 0 <= j < i ==> s@[j] == b,
            forall|j: int| i <= j < s@.len() ==> s@[j] == old(s)@[j],
        decreases n - i,
    {
        s[i] = b;
        i += 1;
    }
    assert(s@ =~= filled(old(s)@, b, n as int));
}

/// Copies the first `n` bytes of `src` over the first `n` bytes of `dest`.
pub fn memcpy(dest: &mut [u8], src: &[u8], n: usize)
    requires
        n <= old(dest)@.len(),
        n <= src@.len(),
    ensures
        final(dest)@ == copied(old(dest)@, src@, n as int),
{
    let mut i: usize = 0;
    while i < n
        invariant
            i <= n <= dest@.len(),
            n <= src@.len(),
            dest@.len() == old(dest)@.len(),
            forall|j: int| 0 <= j < i ==> dest@[j] == src@[j],
            forall|j: int| i <= j < dest@.len() ==> dest@[j] == old(dest)@[j],
        decreases n - i,
    {
        dest[i] = src[i];
        i += 1;
    }
    assert(dest@ =~= copied(old(dest)@, src@, n as int));
}

/// Copies all of `src` over the bytes of `dest` that start at `at`.
pub fn copy_at(dest: &mut [u8], at: usize, src: &[u8])
    requires
        at + src@.len() <= old(dest)@.len(),
    ensures
        final(dest)@ == spliced(old(dest)@, at as int, src@),
{
    let (head, tail) = dest.split_at_mut(at);
    memcpy(tail, src, src.len());
    assert(head@ + tail@ =~= spliced(old(dest)@, at as int, src@));
}

/// Compares the first `n` bytes of `s1` and `s2`: zero when they agree,
/// otherwise the first differing byte of `s1` minus that of `s2`.
pub fn memcmp(s1: &[u8], s2: &[u8], n: usize) -> (r: i32)
    requires
        n <= s1@.len(),
        n <= s2@.len(),
    ensures
        r == signed_difference(s1@, s2@, n),
{
    let mut i: usize = 0;
    while i < n
        invariant
            i <= n <= s1@.len(),
            n <= s2@.len(),
            forall|j: int| 0 <= j < i ==> s1@[j] == s2@[j],
        decreases n - i,
    {
        let a = s1[i];
        let b = s2[i];
        if a != b {
            proof {
                lemma_scan_stops(s1@, s2@, n, i);
            }
            return widen(a) - widen(b);
        }
        i += 1;
    }
    proof {
        lemma_scan_stops(s1@, s2@, n, i);
    }
    0
}

/// Whether `a` and `b` hold the same bytes.
pub fn bytes_eq(a: &[u8], b: &[u8]) -> (r: bool)
    ensures
        r == (a@ == b@),
{
    if a.len() != b.len() {
        return false;
    }
    let r = memcmp(a, b, a.len()) == 0;
    proof {
        lemma_difference_zero(a@, b@, a.len());
        lemma_take_all(a@);
        lemma_take_all(b@);
    }
    r
}

/// Whether `line` begins with `pat`.
pub fn starts_with(line: &[u8], pat: &[u8]) -> (r: bool)
    ensures
        r == has_prefix(line@, pat@),
{
    if pat.len() > line.len() {
        return false;
    }
    let r = memcmp(line, pat, pat.len()) == 0;
    proof {
        lemma_difference_zero(line@, pat@, pat.len());
        lemma_take_all(pat@);
    }
    r
}

/// Whether `line` ends with `pat`.
pub fn ends_with(line: &[u8], pat: &[u8]) -> (r: bool)
    ensures
        r == has_suffix(line@, pat@),
{
    if pat.len() > line.len() {
        return false;
    }
    let tail = vstd::slice::slice_subrange(line, line.len() - pat.len(), line.len());
    bytes_eq(tail, pat)
}

} // verus!
