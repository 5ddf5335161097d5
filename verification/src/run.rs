//! Runs: the longest prefix of a sequence that stops short of a given kind
//! of item.

use vstd::prelude::*;

verus! {

/// The length of the longest prefix of `items` that holds no item which
/// `stop` accepts.
pub open spec fn run_len<A>(items: Seq<A>, stop: spec_fn(A) -> bool) -> nat
    decreases items.len(),
{
    if items.len() == 0 || stop(items[0]) {
        0
    } else {
        1 + run_len(items.drop_first(), stop)
    }
}

/// A run is no longer than the sequence that it starts.
pub proof fn lemma_run_len_bound<A>(items: Seq<A>, stop: spec_fn(A) -> bool)
    ensures
        run_len(items, stop) <= items.len(),
    decreases items.len(),
{
    if items.len() > 0 && !stop(items[0]) {
        lemma_run_len_bound(items.drop_first(), stop);
    }
}

/// No item of a run is one that `stop` accepts, and the run ends at the end
/// of the sequence or before an item that `stop` accepts.
pub proof fn lemma_run_len_holds<A>(items: Seq<A>, stop: spec_fn(A) -> bool)
    ensures
        forall|j: int| 0 <= j < run_len(items, stop) ==> !stop(#[trigger] items[j]),
        run_len(items, stop) == items.len() || stop(items[run_len(items, stop) as int]),
    decreases items.len(),
{
    if items.len() > 0 && !stop(items[0]) {
        let rest = items.drop_first();
        lemma_run_len_holds(rest, stop);
        lemma_run_len_bound(rest, stop);
        assert forall|j: int| 0 <= j < run_len(items, stop) implies !stop(#[trigger] items[j]) by {
            if j > 0 {
                assert(items[j] == rest[j - 1]);
            }
        }
    }
}

/// What a run is: `n` items that `stop` refuses, followed by the end of the
/// sequence or by an item that `stop` accepts.
pub proof fn lemma_run_len_is<A>(items: Seq<A>, stop: spec_fn(A) -> bool, n: int)
    requires
        0 <= n <= items.len(),
        forall|j: int| 0 <= j < n ==> !stop(#[trigger] items[j]),
        n == items.len() || stop(items[n]),
    ensures
        run_len(items, stop) == n,
    decreases n,
{
    if n > 0 {
        let rest = items.drop_first();
        assert forall|j: int| 0 <= j < n - 1 implies !stop(#[trigger] rest[j]) by {}
        lemma_run_len_is(rest, stop, n - 1);
    }
}

} // verus!
