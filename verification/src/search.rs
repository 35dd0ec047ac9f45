//! Position of the first element of a sequence that satisfies a condition.
//!
//! Names end at their first terminator, slot arrays fill up to their first
//! empty slot, and lookups return the first match. All three are the same
//! question asked of a sequence of flags, so it is answered once here.

use vstd::prelude::*;

verus! {

/// Index of the first `true` in `flags` at or after `from`; `flags.len()`
/// when there is none.
pub open spec fn first_true_from(flags: Seq<bool>, from: int) -> int
    decreases flags.len() - from,
{
    if 0 <= from < flags.len() && !flags[from] {
        first_true_from(flags, from + 1)
    } else {
        from
    }
}

/// Index of the first `true` in `flags`; `flags.len()` when there is none.
pub open spec fn first_true(flags: Seq<bool>) -> int {
    first_true_from(flags, 0)
}

/// `n` is the place where a left-to-right scan of `flags` stops: everything
/// before it is `false`, and it is either the end or a `true`.
pub open spec fn is_first_true(flags: Seq<bool>, n: int) -> bool {
    &&& 0 <= n <= flags.len()
    &&& forall|i: int| 0 <= i < n ==> !flags[i]
    &&& n < flags.len() ==> flags[n]
}

/// The scan from `from` stops within the sequence, passes over `false`
/// only, and stops at a `true` or at the end.
proof fn lemma_first_true_from(flags: Seq<bool>, from: int)
    requires
        0 <= from <= flags.len(),
    ensures
        from <= first_true_from(flags, from) <= flags.len(),
        forall|i: int| from <= i < first_true_from(flags, from) ==> !flags[i],
        first_true_from(flags, from) < flags.len() ==> flags[first_true_from(flags, from)],
    decreases flags.len() - from,
{
    if from < flags.len() && !flags[from] {
        lemma_first_true_from(flags, from + 1);
    }
}

/// `first_true` is a stopping place of the scan.
pub proof fn lemma_first_true(flags: Seq<bool>)
    ensures
        is_first_true(flags, first_true(flags)),
{
    lemma_first_true_from(flags, 0);
}

/// The scan has only one stopping place.
pub proof fn lemma_first_true_unique(flags: Seq<bool>, n: int)
    requires
        is_first_true(flags, n),
    ensures
        first_true(flags) == n,
{
    lemma_first_true(flags);
    let m = first_true(flags);
    if m < n {
        assert(!flags[m]);
    } else if n < m {
        assert(!flags[n]);
    }
}

} // verus!
