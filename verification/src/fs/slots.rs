//! Slot arrays that fill from the left and are never compacted.

use vstd::prelude::*;
use crate::search::{first_true, is_first_true, lemma_first_true, lemma_first_true_unique};

verus! {

/// For each slot, whether it is empty.
pub open spec fn vacancies<T>(slots: Seq<Option<T>>) -> Seq<bool> {
    Seq::new(slots.len(), |i: int| slots[i] is None)
}

/// Number of slots before the first empty one.
pub open spec fn occupied<T>(slots: Seq<Option<T>>) -> int {
    first_true(vacancies(slots))
}

/// No slot after the first empty one is in use.
pub open spec fn packed<T>(slots: Seq<Option<T>>) -> bool {
    forall|i: int| occupied(slots) <= i < slots.len() ==> (#[trigger] slots[i]) is None
}

/// The occupied slots come first, and the slot after them, if any, is empty.
pub proof fn lemma_occupied<T>(slots: Seq<Option<T>>)
    ensures
        0 <= occupied(slots) <= slots.len(),
        forall|i: int| 0 <= i < occupied(slots) ==> (#[trigger] slots[i]) is Some,
        occupied(slots) < slots.len() ==> slots[occupied(slots)] is None,
{
    let flags = vacancies(slots);
    lemma_first_true(flags);
    assert forall|i: int| 0 <= i < occupied(slots) implies (#[trigger] slots[i]) is Some by {
        assert(!flags[i]);
    }
    if occupied(slots) < slots.len() {
        assert(flags[occupied(slots)]);
    }
}

/// Any `n` with `n` used slots before it and an empty slot, or the end, at it
/// is the number of occupied slots.
pub proof fn lemma_occupied_unique<T>(slots: Seq<Option<T>>, n: int)
    requires
        0 <= n <= slots.len(),
        forall|i: int| 0 <= i < n ==> (#[trigger] slots[i]) is Some,
        n < slots.len() ==> slots[n] is None,
    ensures
        occupied(slots) == n,
{
    assert(is_first_true(vacancies(slots), n));
    lemma_first_true_unique(vacancies(slots), n);
}

/// Filling the first empty slot of a packed array adds one occupied slot and
/// keeps the array packed.
pub proof fn lemma_fill_first_empty<T>(slots: Seq<Option<T>>, item: T)
    requires
        packed(slots),
        occupied(slots) < slots.len(),
    ensures
        occupied(slots.update(occupied(slots), Some(item))) == occupied(slots) + 1,
        packed(slots.update(occupied(slots), Some(item))),
{
    lemma_occupied(slots);
    let k = occupied(slots);
    let after = slots.update(k, Some(item));
    assert forall|i: int| 0 <= i < k + 1 implies (#[trigger] after[i]) is Some by {
        if i < k {
            assert(slots[i] is Some);
        }
    }
    if k + 1 < slots.len() {
        assert(slots[k + 1] is None);
    }
    lemma_occupied_unique(after, k + 1);
    assert forall|i: int| k + 1 <= i < after.len() implies (#[trigger] after[i]) is None by {
        assert(slots[i] is None);
    }
}

/// Replacing the content of an occupied slot changes neither the count nor
/// the packing.
pub proof fn lemma_replace_occupied<T>(slots: Seq<Option<T>>, k: int, item: T)
    requires
        packed(slots),
        0 <= k < occupied(slots),
    ensures
        occupied(slots.update(k, Some(item))) == occupied(slots),
        packed(slots.update(k, Some(item))),
{
    lemma_occupied(slots);
    let n = occupied(slots);
    let after = slots.update(k, Some(item));
    assert forall|i: int| 0 <= i < n implies (#[trigger] after[i]) is Some by {
        if i != k {
            assert(slots[i] is Some);
        }
    }
    if n < slots.len() {
        assert(slots[n] is None);
    }
    lemma_occupied_unique(after, n);
    assert forall|i: int| n <= i < after.len() implies (#[trigger] after[i]) is None by {
        assert(slots[i] is None);
    }
}

/// Index of the first empty slot; the length of the array when all are in
/// use.
pub fn first_empty<T>(slots: &[Option<T>]) -> (k: usize)
    ensures
        k == occupied(slots@),
{
    let mut i: usize = 0;
    while i < slots.len() && slots[i].is_some()
        invariant
            i <= slots@.len(),
            forall|j: int| 0 <= j < i ==> (#[trigger] slots@[j]) is Some,
        decreases slots@.len() - i,
    {
        i += 1;
    }
    proof {
        lemma_occupied_unique(slots@, i as int);
    }
    i
}

} // verus!
