//! Collapsing blocks that repeat back to back.
//!
//! A window of elements that is followed at once by an equal window is
//! marked for removal; the second of the two stays. One sweep looks at
//! every window size that the throttle lets through and gathers what they
//! mark. Then the marked elements are left out, and the next sweep starts
//! over, from the smallest window size, on what remains. A sequence in
//! which a sweep marks nothing is the result.
//!
//! All window sizes of a sweep look at the same sequence. So a window
//! that one size compares may hold elements that another size has marked;
//! the marks are gathered all the same, and only the next sweep sees what
//! their removal has brought together.

use crate::element::clone_keeps_value;
use crate::element::comparable;
use crate::scan::mask_set;
use crate::scan::removal_mask;
use crate::throttle::size_is_scanned;
use vstd::prelude::*;

verus! {

/// The window of `size` elements at `i` is followed at once by an equal one.
pub open spec fn repeats_at<A>(s: Seq<A>, i: int, size: int) -> bool {
    &&& 0 <= i
    &&& 0 < size
    &&& i + 2 * size <= s.len()
    &&& s.subrange(i, i + size) == s.subrange(i + size, i + 2 * size)
}

/// Index `k` lies in a window of `size` elements that repeats.
pub open spec fn marked_at_size<A>(s: Seq<A>, size: int, k: int) -> bool {
    exists|i: int| i <= k < i + size && #[trigger] repeats_at(s, i, size)
}

/// A sweep over `s` marks index `k` for removal.
pub open spec fn marked<A>(s: Seq<A>, thoroughness: int, k: int) -> bool {
    exists|size: int|
        size_is_scanned(s.len() as int, size, thoroughness) && #[trigger] marked_at_size(
            s,
            size,
            k,
        )
}

/// The indices that a sweep over `s` marks for removal.
pub open spec fn removal_set<A>(s: Seq<A>, thoroughness: int) -> Set<int> {
    Set::new(|k: int| marked(s, thoroughness, k))
}

/// A sweep over `s` marks nothing.
pub open spec fn is_fixpoint<A>(s: Seq<A>, thoroughness: int) -> bool {
    forall|k: int| !marked(s, thoroughness, k)
}

/// `s` without the elements at the indices in `removed`, the others in
/// their order.
pub open spec fn without<A>(s: Seq<A>, removed: Set<int>) -> Seq<A>
    decreases s.len(),
{
    if s.len() == 0 {
        s
    } else if removed.contains(s.len() - 1) {
        without(s.drop_last(), removed)
    } else {
        without(s.drop_last(), removed).push(s.last())
    }
}

/// What one sweep makes of `s`.
pub open spec fn sweep_spec<A>(s: Seq<A>, thoroughness: int) -> Seq<A> {
    without(s, removal_set(s, thoroughness))
}

/// `s` with its repeated blocks collapsed: sweep after sweep, until one
/// marks nothing.
pub open spec fn dedup_spec<A>(s: Seq<A>, thoroughness: int) -> Seq<A>
    decreases s.len(),
    via dedup_spec_decreases::<A>
{
    if is_fixpoint(s, thoroughness) {
        s
    } else {
        dedup_spec(sweep_spec(s, thoroughness), thoroughness)
    }
}

#[via_fn]
proof fn dedup_spec_decreases<A>(s: Seq<A>, thoroughness: int) {
    if !is_fixpoint(s, thoroughness) {
        lemma_sweep_shrinks(s, thoroughness);
    }
}

/// Only indices of `s` are ever marked.
pub proof fn lemma_marked_in_range<A>(s: Seq<A>, thoroughness: int, k: int)
    requires
        marked(s, thoroughness, k),
    ensures
        0 <= k < s.len(),
{
}

/// Leaving elements out makes a sequence no longer, and shorter when one
/// of its indices is among those left out.
pub proof fn lemma_without_len<A>(s: Seq<A>, removed: Set<int>)
    ensures
        without(s, removed).len() <= s.len(),
        (exists|k: int| 0 <= k < s.len() && removed.contains(k)) ==> without(s, removed).len()
            < s.len(),
    decreases s.len(),
{
    if s.len() > 0 {
        lemma_without_len(s.drop_last(), removed);
    }
}

/// A sweep that marks something leaves a shorter sequence.
pub proof fn lemma_sweep_shrinks<A>(s: Seq<A>, thoroughness: int)
    requires
        !is_fixpoint(s, thoroughness),
    ensures
        sweep_spec(s, thoroughness).len() < s.len(),
{
    let k = choose|k: int| marked(s, thoroughness, k);
    lemma_marked_in_range(s, thoroughness, k);
    assert(removal_set(s, thoroughness).contains(k));
    lemma_without_len(s, removal_set(s, thoroughness));
}

/// Whether `mask` marks anything.
pub fn any_marked(mask: &Vec<bool>) -> (any: bool)
    ensures
        any == exists|k: int| mask_set(mask@).contains(k),
{
    let mut k: usize = 0;
    while k < mask.len()
        invariant
            k <= mask.len(),
            forall|x: int| 0 <= x < k ==> !mask[x],
        decreases mask.len() - k,
    {
        if mask[k] {
            assert(mask_set(mask@).contains(k as int));
            return true;
        }
        k += 1;
    }
    false
}

/// Builds the sequence that omits every marked element of `arr` and keeps
/// the others in their order. An element that `mask` does not reach is
/// kept.
pub fn retain_unmarked<T: Clone + DeepView>(arr: &[T], mask: &Vec<bool>) -> (kept: Vec<T>)
    requires
        clone_keeps_value::<T>(),
    ensures
        kept.deep_view() == without(arr.deep_view(), mask_set(mask@)),
{
    let ghost s = arr.deep_view();
    let mut kept: Vec<T> = Vec::new();
    let mut i: usize = 0;
    while i < arr.len()
        invariant
            s == arr.deep_view(),
            clone_keeps_value::<T>(),
            i <= arr.len(),
            kept.deep_view() == without(s.take(i as int), mask_set(mask@)),
        decreases arr.len() - i,
    {
        assert(s.take(i + 1).drop_last() =~= s.take(i as int));
        if !(i < mask.len() && mask[i]) {
            kept.push(arr[i].clone());
        }
        i += 1;
    }
    assert(s.take(arr.len() as int) =~= s);
    kept
}

/// One sweep: `arr` without what the sweep marks.
pub fn sweep<T: PartialEq + Clone + DeepView + Sync>(arr: &[T], thoroughness: usize) -> (swept: Vec<
    T,
>)
    requires
        comparable::<T>(),
        thoroughness >= 1,
    ensures
        swept.deep_view() == sweep_spec(arr.deep_view(), thoroughness as int),
{
    let mask = removal_mask(arr, thoroughness);
    retain_unmarked(arr, &mask)
}

/// Collapses the repeated blocks of `arr`: sweeps until a sweep marks
/// nothing, and returns what is left. The elements of the result are
/// clones of those of `arr`.
pub fn deduplicate_patterns<T: PartialEq + Clone + DeepView + Send + Sync>(
    arr: &Vec<T>,
    thoroughness: usize,
) -> (deduplicated: Vec<T>)
    requires
        comparable::<T>(),
        thoroughness >= 1,
    ensures
        deduplicated.deep_view() == dedup_spec(arr.deep_view(), thoroughness as int),
        is_fixpoint(deduplicated.deep_view(), thoroughness as int),
        deduplicated.len() <= arr.len(),
{
    let mut current: Vec<T> = arr.clone();
    loop
        invariant
            comparable::<T>(),
            thoroughness >= 1,
            current.len() <= arr.len(),
            dedup_spec(current.deep_view(), thoroughness as int) == dedup_spec(
                arr.deep_view(),
                thoroughness as int,
            ),
        decreases current.len(),
    {
        let mask = removal_mask(current.as_slice(), thoroughness);
        if !any_marked(&mask) {
            assert forall|k: int| !marked(current.deep_view(), thoroughness as int, k) by {
                assert(!mask_set(mask@).contains(k));
            }
            return current;
        }
        proof {
            lemma_sweep_shrinks(current.deep_view(), thoroughness as int);
        }
        current = retain_unmarked(current.as_slice(), &mask);
    }
}

} // verus!
