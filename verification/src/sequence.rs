//! Looking for the first item of a sequence that a predicate holds of.

use vstd::prelude::*;

verus! {

/// The index of the first item at or after `from` that `hit` holds of, or
/// `items.len()` where there is none.
pub open spec fn first_index<T>(items: Seq<T>, hit: spec_fn(T) -> bool, from: int) -> int
    decreases items.len() - from,
{
    if from >= items.len() {
        items.len() as int
    } else if hit(items[from]) {
        from
    } else {
        first_index(items, hit, from + 1)
    }
}

/// `first_index` lies between `from` and the length, `hit` holds of nothing
/// before it, and holds of the item there unless it is the length.
pub proof fn lemma_first_index<T>(items: Seq<T>, hit: spec_fn(T) -> bool, from: int)
    requires
        0 <= from <= items.len(),
    ensures
        from <= first_index(items, hit, from) <= items.len(),
        forall|k: int| from <= k < first_index(items, hit, from) ==> !hit(#[trigger] items[k]),
        first_index(items, hit, from) < items.len() ==> hit(items[first_index(items, hit, from)]),
    decreases items.len() - from,
{
    if from < items.len() && !hit(items[from]) {
        lemma_first_index(items, hit, from + 1);
    }
}

/// `first_index` is `at` where `hit` holds of nothing from `from` up to `at`,
/// and holds of the item at `at` unless `at` is the length.
pub proof fn lemma_first_index_is<T>(items: Seq<T>, hit: spec_fn(T) -> bool, from: int, at: int)
    requires
        0 <= from <= at <= items.len(),
        forall|k: int| from <= k < at ==> !hit(#[trigger] items[k]),
        at < items.len() ==> hit(items[at]),
    ensures
        first_index(items, hit, from) == at,
    decreases at - from,
{
    if from < at {
        lemma_first_index_is(items, hit, from + 1, at);
    }
}

} // verus!
