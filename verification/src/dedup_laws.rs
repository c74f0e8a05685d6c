//! What holds of every deduplication.

use crate::dedup::dedup_spec;
use crate::dedup::is_fixpoint;
use crate::dedup::lemma_sweep_shrinks;
use crate::dedup::marked;
use crate::dedup::marked_at_size;
use crate::dedup::removal_set;
use crate::dedup::repeats_at;
use crate::dedup::sweep_spec;
use crate::dedup::without;
use crate::order::is_subsequence;
use crate::order::lemma_empty_is_subsequence;
use crate::order::lemma_subsequence_concat;
use crate::order::lemma_subsequence_contains;
use crate::order::lemma_subsequence_of_self;
use crate::order::lemma_subsequence_transitive;
use crate::throttle::size_is_scanned;
use vstd::prelude::*;

verus! {

/// Deduplication ends in a sequence in which a sweep marks nothing.
pub proof fn lemma_dedup_is_fixpoint<A>(s: Seq<A>, thoroughness: int)
    ensures
        is_fixpoint(dedup_spec(s, thoroughness), thoroughness),
    decreases s.len(),
{
    if !is_fixpoint(s, thoroughness) {
        lemma_sweep_shrinks(s, thoroughness);
        lemma_dedup_is_fixpoint(sweep_spec(s, thoroughness), thoroughness);
    }
}

/// Deduplicating what has been deduplicated changes nothing.
pub proof fn lemma_dedup_idempotent<A>(s: Seq<A>, thoroughness: int)
    ensures
        dedup_spec(dedup_spec(s, thoroughness), thoroughness) == dedup_spec(s, thoroughness),
{
    lemma_dedup_is_fixpoint(s, thoroughness);
}

/// Deduplication never makes a sequence longer, and leaves a sequence as
/// it is exactly when a sweep over it marks nothing.
pub proof fn lemma_dedup_len<A>(s: Seq<A>, thoroughness: int)
    ensures
        dedup_spec(s, thoroughness).len() <= s.len(),
        is_fixpoint(s, thoroughness) <==> dedup_spec(s, thoroughness) == s,
    decreases s.len(),
{
    if !is_fixpoint(s, thoroughness) {
        lemma_sweep_shrinks(s, thoroughness);
        lemma_dedup_len(sweep_spec(s, thoroughness), thoroughness);
    }
}

/// An element is marked only if an equal one follows it at the distance
/// of a window: it is the later of the two that stands for both.
pub proof fn lemma_marked_has_twin<A>(s: Seq<A>, thoroughness: int, k: int) -> (size: int)
    requires
        marked(s, thoroughness, k),
    ensures
        size_is_scanned(s.len() as int, size, thoroughness),
        0 <= k < k + size < s.len(),
        s[k] == s[k + size],
{
    let size = choose|size: int|
        size_is_scanned(s.len() as int, size, thoroughness) && #[trigger] marked_at_size(
            s,
            size,
            k,
        );
    let i = choose|i: int| i <= k < i + size && #[trigger] repeats_at(s, i, size);
    let first = s.subrange(i, i + size);
    let second = s.subrange(i + size, i + 2 * size);
    assert(first[k - i] == second[k - i]);
    size
}

/// Every element has an equal that no sweep mark touches, at its own
/// place or after it.
proof fn lemma_value_survives<A>(s: Seq<A>, thoroughness: int, k: int) -> (stays: int)
    requires
        0 <= k < s.len(),
    ensures
        k <= stays < s.len(),
        !marked(s, thoroughness, stays),
        s[stays] == s[k],
    decreases s.len() - k,
{
    if marked(s, thoroughness, k) {
        let size = lemma_marked_has_twin(s, thoroughness, k);
        lemma_value_survives(s, thoroughness, k + size)
    } else {
        k
    }
}

/// What is not left out is still there.
proof fn lemma_without_keeps<A>(s: Seq<A>, removed: Set<int>, k: int)
    requires
        0 <= k < s.len(),
        !removed.contains(k),
    ensures
        without(s, removed).contains(s[k]),
    decreases s.len(),
{
    let rest = without(s.drop_last(), removed);
    if k < s.len() - 1 {
        lemma_without_keeps(s.drop_last(), removed, k);
        let at = choose|at: int| 0 <= at < rest.len() && rest[at] == s[k];
        if !removed.contains(s.len() - 1) {
            assert(rest.push(s.last())[at] == s[k]);
        }
    } else {
        assert(rest.push(s.last())[rest.len() as int] == s[k]);
    }
}

/// Leaving elements out gives a subsequence.
pub proof fn lemma_without_is_subsequence<A>(s: Seq<A>, removed: Set<int>)
    ensures
        is_subsequence(without(s, removed), s),
    decreases s.len(),
{
    if s.len() == 0 {
        lemma_subsequence_of_self(s);
    } else {
        let none = Seq::<A>::empty();
        let last = seq![s.last()];
        let rest = without(s.drop_last(), removed);
        lemma_without_is_subsequence(s.drop_last(), removed);
        assert(s.drop_last() + last =~= s);
        if removed.contains(s.len() - 1) {
            lemma_empty_is_subsequence(last);
            lemma_subsequence_concat(rest, s.drop_last(), none, last);
        } else {
            lemma_subsequence_of_self(last);
            lemma_subsequence_concat(rest, s.drop_last(), last, last);
            assert(rest + last =~= rest.push(s.last()));
        }
    }
}

/// What deduplication returns is what is left of the sequence when some
/// elements are taken out: nothing is added and nothing changes places.
pub proof fn lemma_dedup_is_subsequence<A>(s: Seq<A>, thoroughness: int)
    ensures
        is_subsequence(dedup_spec(s, thoroughness), s),
    decreases s.len(),
{
    if is_fixpoint(s, thoroughness) {
        lemma_subsequence_of_self(s);
    } else {
        let swept = sweep_spec(s, thoroughness);
        lemma_sweep_shrinks(s, thoroughness);
        lemma_dedup_is_subsequence(swept, thoroughness);
        lemma_without_is_subsequence(s, removal_set(s, thoroughness));
        lemma_subsequence_transitive(dedup_spec(s, thoroughness), swept, s);
    }
}

/// A sweep loses no value: what occurs in the sequence occurs in what the
/// sweep leaves.
pub proof fn lemma_sweep_keeps_values<A>(s: Seq<A>, thoroughness: int, x: A)
    requires
        s.contains(x),
    ensures
        sweep_spec(s, thoroughness).contains(x),
{
    let k = choose|k: int| 0 <= k < s.len() && s[k] == x;
    let stays = lemma_value_survives(s, thoroughness, k);
    lemma_without_keeps(s, removal_set(s, thoroughness), stays);
}

/// Deduplication keeps every distinct element and makes up none: the
/// result holds the very values that the sequence holds.
pub proof fn lemma_dedup_contains<A>(s: Seq<A>, thoroughness: int, x: A)
    ensures
        dedup_spec(s, thoroughness).contains(x) <==> s.contains(x),
    decreases s.len(),
{
    lemma_dedup_is_subsequence(s, thoroughness);
    if dedup_spec(s, thoroughness).contains(x) {
        lemma_subsequence_contains(dedup_spec(s, thoroughness), s, x);
    }
    if s.contains(x) && !is_fixpoint(s, thoroughness) {
        lemma_sweep_shrinks(s, thoroughness);
        lemma_sweep_keeps_values(s, thoroughness, x);
        lemma_dedup_contains(sweep_spec(s, thoroughness), thoroughness, x);
    }
}

} // verus!
