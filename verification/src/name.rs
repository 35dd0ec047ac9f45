//! Names of files and directories.
//!
//! A name lives in a fixed-width byte field. Only the bytes before the first
//! NUL or space count: that prefix is what is shown, and two names are the
//! same name exactly when their prefixes are byte for byte equal.

use vstd::prelude::*;
use crate::bytes::{copied, lemma_difference_zero, memcmp, memcpy, same_prefix};
use crate::search::{first_true, is_first_true, lemma_first_true, lemma_first_true_unique};

verus! {

/// Width of a name field in bytes.
pub const MAX_NAME: usize = 16;

/// NUL and space end a name.
pub open spec fn is_terminator(b: u8) -> bool {
    b == 0 || b == 0x20
}

/// For each byte of `s`, whether it ends a name.
pub open spec fn terminators(s: Seq<u8>) -> Seq<bool> {
    Seq::new(s.len(), |i: int| is_terminator(s[i]))
}

/// Number of bytes of `s` before its first terminator.
pub open spec fn meaningful_len(s: Seq<u8>) -> int {
    first_true(terminators(s))
}

/// The part of `s` that counts as a name: everything before the first
/// terminator.
pub open spec fn meaningful(s: Seq<u8>) -> Seq<u8> {
    s.take(meaningful_len(s))
}

/// `s` holds no terminator.
pub open spec fn is_plain(s: Seq<u8>) -> bool {
    forall|i: int| 0 <= i < s.len() ==> !is_terminator(#[trigger] s[i])
}

/// What a name field keeps of `s`: its meaningful prefix, cut to the width of
/// the field.
pub open spec fn stored(s: Seq<u8>) -> Seq<u8> {
    let m = meaningful(s);
    if m.len() <= MAX_NAME {
        m
    } else {
        m.take(MAX_NAME as int)
    }
}

/// The meaningful length lies within `s`, no byte before it is a terminator,
/// and the byte at it, if any, is one.
pub proof fn lemma_meaningful_len(s: Seq<u8>)
    ensures
        0 <= meaningful_len(s) <= s.len(),
        forall|i: int| 0 <= i < meaningful_len(s) ==> !is_terminator(#[trigger] s[i]),
        meaningful_len(s) < s.len() ==> is_terminator(s[meaningful_len(s)]),
        meaningful(s).len() == meaningful_len(s),
        is_plain(meaningful(s)),
{
    let flags = terminators(s);
    lemma_first_true(flags);
    let n = meaningful_len(s);
    assert forall|i: int| 0 <= i < n implies !is_terminator(#[trigger] s[i]) by {
        assert(!flags[i]);
    }
    if n < s.len() {
        assert(flags[n]);
    }
}

/// Any `n` that separates a terminator-free prefix from a terminator, or from
/// the end, is the meaningful length.
pub proof fn lemma_meaningful_len_unique(s: Seq<u8>, n: int)
    requires
        0 <= n <= s.len(),
        forall|i: int| 0 <= i < n ==> !is_terminator(#[trigger] s[i]),
        n < s.len() ==> is_terminator(s[n]),
    ensures
        meaningful_len(s) == n,
        meaningful(s) == s.take(n),
{
    assert(is_first_true(terminators(s), n));
    lemma_first_true_unique(terminators(s), n);
}

/// A sequence without terminators is its own meaningful prefix.
pub proof fn lemma_plain_is_meaningful(s: Seq<u8>)
    requires
        is_plain(s),
    ensures
        meaningful(s) == s,
        meaningful_len(s) == s.len(),
{
    lemma_meaningful_len_unique(s, s.len() as int);
    assert(s.take(s.len() as int) =~= s);
}

/// What a field keeps is plain, fits the field, and is kept unchanged when
/// stored again. A name that is short enough is kept whole.
pub proof fn lemma_stored(s: Seq<u8>)
    ensures
        stored(s).len() <= MAX_NAME,
        is_plain(stored(s)),
        meaningful(stored(s)) == stored(s),
        stored(stored(s)) == stored(s),
        meaningful_len(s) <= MAX_NAME ==> stored(s) == meaningful(s),
{
    lemma_meaningful_len(s);
    lemma_plain_is_meaningful(stored(s));
}

/// Number of bytes of `a` before its first NUL or space.
pub fn meaningful_length(a: &[u8]) -> (n: usize)
    ensures
        n == meaningful_len(a@),
{
    let mut i: usize = 0;
    while i < a.len() && a[i] != 0 && a[i] != 0x20
        invariant
            i <= a@.len(),
            forall|j: int| 0 <= j < i ==> !is_terminator(#[trigger] a@[j]),
        decreases a@.len() - i,
    {
        i += 1;
    }
    proof {
        lemma_meaningful_len_unique(a@, i as int);
    }
    i
}

/// Whether `a` and `b` are the same name: whether their meaningful prefixes
/// are equal.
pub fn name_eq(a: &[u8], b: &[u8]) -> (r: bool)
    ensures
        r == (meaningful(a@) == meaningful(b@)),
{
    let a_end = meaningful_length(a);
    let b_end = meaningful_length(b);
    proof {
        lemma_meaningful_len(a@);
        lemma_meaningful_len(b@);
    }
    if a_end != b_end {
        return false;
    }
    let r = memcmp(a, b, a_end) == 0;
    proof {
        lemma_difference_zero(a@, b@, a_end);
        assert(r == same_prefix(a@, b@, a_end));
    }
    r
}

/// A name held in its fixed-width field.
#[derive(Clone, Copy, Debug)]
pub struct Name {
    bytes: [u8; MAX_NAME],
}

impl View for Name {
    type V = Seq<u8>;

    /// The name proper: the meaningful prefix of the field.
    closed spec fn view(&self) -> Seq<u8> {
        meaningful(self.bytes@)
    }
}

impl Name {
    /// A name is plain and no longer than its field.
    pub proof fn lemma_bounds(self)
        ensures
            self@.len() <= MAX_NAME,
            is_plain(self@),
            meaningful(self@) == self@,
    {
        lemma_meaningful_len(self.bytes@);
        lemma_plain_is_meaningful(self@);
    }

    /// The empty name.
    pub fn empty() -> (r: Name)
        ensures
            r@ == Seq::<u8>::empty(),
    {
        let bytes = [0u8; MAX_NAME];
        proof {
            lemma_meaningful_len_unique(bytes@, 0);
            assert(bytes@.take(0) =~= Seq::<u8>::empty());
        }
        Name { bytes }
    }

    /// The name of the root directory, `/`.
    pub fn root() -> (r: Name)
        ensures
            r@ == seq![0x2fu8],
    {
        let mut bytes = [0x20u8; MAX_NAME];
        bytes[0] = 0x2f;
        proof {
            lemma_meaningful_len_unique(bytes@, 1);
            assert(bytes@.take(1) =~= seq![0x2fu8]);
        }
        Name { bytes }
    }

    /// The name that a field keeps of `src`.
    pub fn new(src: &[u8]) -> (r: Name)
        ensures
            r@ == stored(src@),
    {
        let n = meaningful_length(src);
        let k = if n < MAX_NAME { n } else { MAX_NAME };
        let mut bytes = [0u8; MAX_NAME];
        let ghost zeros = bytes@;
        proof {
            lemma_meaningful_len(src@);
        }
        memcpy(&mut bytes, src, k);
        proof {
            assert(bytes@ == copied(zeros, src@, k as int));
            assert forall|i: int| 0 <= i < k implies !is_terminator(#[trigger] bytes@[i]) by {
                assert(bytes@[i] == src@[i]);
            }
            if k < MAX_NAME {
                assert(bytes@[k as int] == zeros[k as int]);
            }
            lemma_meaningful_len_unique(bytes@, k as int);
            assert(bytes@.take(k as int) =~= src@.take(k as int));
            assert(stored(src@) =~= src@.take(k as int));
        }
        Name { bytes }
    }

    /// Length of the name in bytes.
    pub fn len(&self) -> (n: usize)
        ensures
            n == self@.len(),
    {
        proof {
            lemma_meaningful_len(self.bytes@);
        }
        meaningful_length(&self.bytes)
    }

    /// The bytes of the name.
    pub fn as_bytes(&self) -> (r: &[u8])
        ensures
            r@ == self@,
    {
        let n = meaningful_length(&self.bytes);
        proof {
            lemma_meaningful_len(self.bytes@);
        }
        vstd::slice::slice_subrange(&self.bytes, 0, n)
    }

    /// Whether `other` names the same thing as `self`.
    pub fn matches(&self, other: &[u8]) -> (r: bool)
        ensures
            r == (self@ == meaningful(other@)),
    {
        name_eq(&self.bytes, other)
    }
}

} // verus!
