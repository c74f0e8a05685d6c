//! One sweep's search for repeating windows.
//!
//! For a window size, every starting offset below the size is a task of
//! its own: it walks the windows that begin at the offset, at the offset
//! plus the size, and so on, and lists what it finds. The tasks run in
//! parallel and share nothing; their lists are entered into the removal
//! mask when all of them are done.

use crate::dedup::marked;
use crate::dedup::marked_at_size;
use crate::dedup::removal_set;
use crate::dedup::repeats_at;
use crate::element::eq_decides_value;
use crate::parallel::map_indices;
use crate::throttle::scans_size;
use crate::throttle::size_is_scanned;
use vstd::arithmetic::div_mod::lemma_mod_add_multiples_vanish;
use vstd::arithmetic::div_mod::lemma_mod_equivalence;
use vstd::arithmetic::div_mod::lemma_mod_pos_bound;
use vstd::arithmetic::div_mod::lemma_small_mod;
use vstd::prelude::*;

verus! {

/// `k` is among the numbers in `list`.
pub open spec fn listed(list: Seq<usize>, k: int) -> bool {
    exists|x: int| 0 <= x < list.len() && #[trigger] list[x] == k
}

/// The numbers in `list` grow from each to the next.
pub open spec fn ascending(list: Seq<usize>) -> bool {
    forall|x: int, y: int| 0 <= x < y < list.len() ==> list[x] < list[y]
}

/// The indices at which `mask` holds `true`.
pub open spec fn mask_set(mask: Seq<bool>) -> Set<int> {
    Set::new(|k: int| 0 <= k < mask.len() && mask[k])
}

/// Index `k` lies in a repeating window of `size` elements whose start is
/// `start` plus a multiple of `size`.
pub open spec fn marked_from_offset<A>(s: Seq<A>, size: int, start: int, k: int) -> bool {
    exists|i: int| i % size == start && i <= k < i + size && #[trigger] repeats_at(s, i, size)
}

/// As `marked_from_offset`, of the windows that start before `end`.
spec fn marked_from_offset_before<A>(s: Seq<A>, size: int, start: int, end: int, k: int) -> bool {
    exists|i: int|
        i % size == start && i < end && i <= k < i + size && #[trigger] repeats_at(s, i, size)
}

/// Index `k` is marked by a window of `size` elements whose starting
/// offset is below `offsets`.
spec fn marked_from_offsets_below<A>(s: Seq<A>, size: int, offsets: int, k: int) -> bool {
    exists|start: int| 0 <= start < offsets && #[trigger] marked_from_offset(s, size, start, k)
}

/// Index `k` is marked by a scanned window size below `sizes`.
spec fn marked_by_sizes_below<A>(s: Seq<A>, thoroughness: int, sizes: int, k: int) -> bool {
    exists|size: int|
        size < sizes && size_is_scanned(s.len() as int, size, thoroughness)
            && #[trigger] marked_at_size(s, size, k)
}

/// What is listed once one more number is added.
proof fn lemma_listed_push(list: Seq<usize>, added: usize)
    ensures
        forall|k: int| listed(list.push(added), k) <==> listed(list, k) || k == added,
{
    let longer = list.push(added);
    assert(longer[list.len() as int] == added);
    assert forall|k: int| listed(longer, k) <==> listed(list, k) || k == added by {
        if listed(list, k) {
            let at = choose|at: int| 0 <= at < list.len() && list[at] == k;
            assert(longer[at] == k);
        }
    }
}

/// Between `i` and `i + size` only `i` itself starts at the offset of `i`,
/// and `i + size` starts there again.
proof fn lemma_next_window(i: int, size: int, w: int)
    requires
        0 <= i,
        0 < size,
        i <= w < i + size,
        w % size == i % size,
    ensures
        w == i,
        (i + size) % size == i % size,
{
    lemma_mod_add_multiples_vanish(i, size);
    lemma_mod_equivalence(w, i, size);
    lemma_small_mod((w - i) as nat, size as nat);
}

/// The starting offsets below `size` reach every window of `size`
/// elements.
proof fn lemma_offsets_cover<A>(s: Seq<A>, size: int, k: int)
    ensures
        marked_from_offsets_below(s, size, size, k) <==> marked_at_size(s, size, k),
{
    if marked_at_size(s, size, k) {
        let i = choose|i: int| i <= k < i + size && #[trigger] repeats_at(s, i, size);
        lemma_mod_pos_bound(i, size);
        assert(marked_from_offset(s, size, i % size, k));
    }
}

/// Whether the window of `size` elements at `i` is followed at once by an
/// equal one.
pub fn block_repeats<T: PartialEq + DeepView>(arr: &[T], i: usize, size: usize) -> (repeats: bool)
    requires
        eq_decides_value::<T>(),
    ensures
        repeats == repeats_at(arr.deep_view(), i as int, size as int),
{
    let n: usize = arr.len();
    if size == 0 || i > n || size > n - i || size > n - i - size {
        return false;
    }
    let j: usize = i + size;
    let ghost first = arr.deep_view().subrange(i as int, i + size);
    let ghost second = arr.deep_view().subrange(j as int, j + size);
    let mut d: usize = 0;
    while d < size
        invariant
            eq_decides_value::<T>(),
            j == i + size,
            j + size <= arr.len(),
            d <= size,
            first == arr.deep_view().subrange(i as int, i + size),
            second == arr.deep_view().subrange(j as int, j + size),
            forall|e: int| 0 <= e < d ==> first[e] == second[e],
        decreases size - d,
    {
        if !(arr[i + d] == arr[j + d]) {
            assert(first[d as int] != second[d as int]);
            return false;
        }
        d += 1;
    }
    assert(first =~= second);
    true
}

/// The removal list of one starting offset: walks the windows of `size`
/// elements at `start`, `start + size`, `start + 2 * size`, and so on, and
/// lists every index of each window that repeats. An offset that is not
/// below `size` has no windows.
pub fn offset_marks<T: PartialEq + DeepView>(arr: &[T], size: usize, start: usize) -> (found: Vec<
    usize,
>)
    requires
        eq_decides_value::<T>(),
    ensures
        forall|k: int|
            listed(found@, k) <==> marked_from_offset(
                arr.deep_view(),
                size as int,
                start as int,
                k,
            ),
        ascending(found@),
{
    let n: usize = arr.len();
    let ghost s = arr.deep_view();
    let mut found: Vec<usize> = Vec::new();
    if start >= size {
        proof {
            assert forall|k: int| !marked_from_offset(s, size as int, start as int, k) by {
                if marked_from_offset(s, size as int, start as int, k) {
                    let w = choose|w: int|
                        w % (size as int) == start && w <= k < w + size && #[trigger] repeats_at(
                            s,
                            w,
                            size as int,
                        );
                    lemma_mod_pos_bound(w, size as int);
                }
            }
        }
        return found;
    }
    let mut i: usize = start;
    proof {
        lemma_small_mod(start as nat, size as nat);
        assert forall|k: int|
            !marked_from_offset_before(s, size as int, start as int, start as int, k) by {
            if marked_from_offset_before(s, size as int, start as int, start as int, k) {
                let w = choose|w: int|
                    w % (size as int) == start && w < start && w <= k < w + size
                        && #[trigger] repeats_at(s, w, size as int);
                lemma_small_mod(w as nat, size as nat);
            }
        }
    }
    while i <= n && size <= n - i
        invariant
            s == arr.deep_view(),
            eq_decides_value::<T>(),
            n == arr.len(),
            start < size,
            (i as int) % (size as int) == start,
            forall|k: int|
                listed(found@, k) <==> marked_from_offset_before(
                    s,
                    size as int,
                    start as int,
                    i as int,
                    k,
                ),
            ascending(found@),
            forall|x: int| 0 <= x < found.len() ==> found[x] < i,
        decreases n - i,
    {
        let ghost before = found@;
        let repeats = block_repeats(arr, i, size);
        if repeats {
            let mut k: usize = i;
            while k < i + size
                invariant
                    i + size <= n,
                    i <= k <= i + size,
                    forall|x: int| listed(found@, x) <==> listed(before, x) || i <= x < k,
                    ascending(found@),
                    forall|x: int| 0 <= x < found.len() ==> found[x] < k,
                decreases i + size - k,
            {
                proof {
                    lemma_listed_push(found@, k);
                }
                found.push(k);
                k += 1;
            }
        }
        proof {
            assert forall|x: int|
                listed(found@, x) <==> marked_from_offset_before(
                    s,
                    size as int,
                    start as int,
                    i + size,
                    x,
                ) by {
                if marked_from_offset_before(s, size as int, start as int, i + size, x) {
                    let w = choose|w: int|
                        w % (size as int) == start && w < i + size && w <= x < w + size
                            && #[trigger] repeats_at(s, w, size as int);
                    if w >= i {
                        lemma_next_window(i as int, size as int, w);
                    }
                }
                if listed(before, x) {
                    let w = choose|w: int|
                        w % (size as int) == start && w < i && w <= x < w + size
                            && #[trigger] repeats_at(s, w, size as int);
                    assert(w < i + size);
                }
            }
            lemma_next_window(i as int, size as int, i as int);
        }
        i += size;
    }
    found
}

/// Enters a removal list into `mask`: what is listed is marked, and what
/// was marked stays so.
pub fn enter_marks(list: &Vec<usize>, mask: &mut Vec<bool>)
    requires
        forall|k: int| listed(list@, k) ==> k < old(mask).len(),
    ensures
        final(mask).len() == old(mask).len(),
        forall|k: int|
            0 <= k < old(mask).len() ==> #[trigger] final(mask)[k] == (old(mask)[k] || listed(
                list@,
                k,
            )),
{
    let mut b: usize = 0;
    while b < list.len()
        invariant
            b <= list.len(),
            mask.len() == old(mask).len(),
            forall|k: int| listed(list@, k) ==> k < mask.len(),
            forall|k: int|
                0 <= k < mask.len() ==> mask[k] == (old(mask)[k] || listed(
                    list@.take(b as int),
                    k,
                )),
        decreases list.len() - b,
    {
        let k: usize = list[b];
        proof {
            assert(listed(list@, k as int));
            lemma_listed_push(list@.take(b as int), k);
            assert(list@.take(b + 1) =~= list@.take(b as int).push(k));
        }
        mask.set(k, true);
        b += 1;
    }
    assert(list@.take(b as int) =~= list@);
}

/// Adds to `mask` the marks of one window size. The starting offsets are
/// scanned in parallel, each into a removal list of its own, and the lists
/// are then entered into `mask` one after the other.
pub fn mark_size<T: PartialEq + DeepView + Sync>(arr: &[T], size: usize, mask: &mut Vec<bool>)
    requires
        eq_decides_value::<T>(),
        old(mask).len() == arr.len(),
    ensures
        final(mask).len() == arr.len(),
        forall|k: int|
            0 <= k < arr.len() ==> #[trigger] final(mask)[k] == (old(mask)[k] || marked_at_size(
                arr.deep_view(),
                size as int,
                k,
            )),
{
    let ghost s = arr.deep_view();
    let scan = |start: usize| -> (found: Vec<usize>)
        ensures
            forall|k: int|
                listed(found@, k) <==> marked_from_offset(
                    arr.deep_view(),
                    size as int,
                    start as int,
                    k,
                ),
        { offset_marks(arr, size, start) };
    let lists: Vec<Vec<usize>> = map_indices(size, scan);
    let mut a: usize = 0;
    while a < size
        invariant
            s == arr.deep_view(),
            a <= size,
            lists.len() == size,
            mask.len() == arr.len(),
            old(mask).len() == arr.len(),
            forall|start: int, k: int|
                0 <= start < size ==> (listed(lists[start]@, k) <==> #[trigger] marked_from_offset(
                    s,
                    size as int,
                    start,
                    k,
                )),
            forall|k: int|
                0 <= k < arr.len() ==> mask[k] == (old(mask)[k] || marked_from_offsets_below(
                    s,
                    size as int,
                    a as int,
                    k,
                )),
        decreases size - a,
    {
        assert forall|k: int| listed(lists[a as int]@, k) implies k < mask.len() by {
            assert(marked_from_offset(s, size as int, a as int, k));
        }
        let list = &lists[a];
        enter_marks(list, mask);
        proof {
            assert forall|k: int| 0 <= k < arr.len() implies mask[k] == (old(mask)[k]
                || marked_from_offsets_below(s, size as int, a + 1, k)) by {
                assert(listed(list@, k) <==> marked_from_offset(
                    s,
                    size as int,
                    a as int,
                    k,
                ));
            }
        }
        a += 1;
    }
    proof {
        assert forall|k: int| 0 <= k < arr.len() implies mask[k] == (old(mask)[k]
            || marked_at_size(s, size as int, k)) by {
            lemma_offsets_cover(s, size as int, k);
        }
    }
}

/// One sweep's removal set, as a mask over the indices of `arr`: every
/// window size that the throttle lets through is scanned, and all that
/// they mark is gathered.
pub fn removal_mask<T: PartialEq + DeepView + Sync>(arr: &[T], thoroughness: usize) -> (mask: Vec<
    bool,
>)
    requires
        eq_decides_value::<T>(),
        thoroughness >= 1,
    ensures
        mask.len() == arr.len(),
        forall|k: int|
            0 <= k < arr.len() ==> #[trigger] mask[k] == marked(
                arr.deep_view(),
                thoroughness as int,
                k,
            ),
        mask_set(mask@) == removal_set(arr.deep_view(), thoroughness as int),
{
    let ghost s = arr.deep_view();
    let n: usize = arr.len();
    let half: usize = n / 2;
    let mut mask: Vec<bool> = Vec::new();
    while mask.len() < n
        invariant
            mask.len() <= n,
            forall|k: int| 0 <= k < mask.len() ==> !mask[k],
        decreases n - mask.len(),
    {
        mask.push(false);
    }
    let mut size: usize = 1;
    while size <= half
        invariant
            s == arr.deep_view(),
            eq_decides_value::<T>(),
            thoroughness >= 1,
            n == arr.len(),
            half == n / 2,
            1 <= size <= half + 1,
            mask.len() == n,
            forall|k: int|
                0 <= k < n ==> mask[k] == marked_by_sizes_below(
                    s,
                    thoroughness as int,
                    size as int,
                    k,
                ),
        decreases half + 1 - size,
    {
        let scanned = scans_size(n, size, thoroughness);
        if scanned {
            mark_size(arr, size, &mut mask);
        }
        size += 1;
    }
    mask
}

} // verus!
