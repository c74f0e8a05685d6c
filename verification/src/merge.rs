//! Splicing two sequences around their longest common run.

use crate::element::comparable;
use crate::element::eq_decides_value;
use crate::element::lemma_values_of_subrange;
use vstd::prelude::*;

verus! {

/// A run of equal elements found in two sequences: it starts at `long_start`
/// in the longer one, at `short_start` in the shorter one, and is `len`
/// elements long.
#[derive(Clone, Copy, Debug, PartialEq, Eq, Structural)]
pub struct CommonRun {
    pub long_start: usize,
    pub short_start: usize,
    pub len: usize,
}

/// How far `long` from `i` and `short` from `j` agree, element by element.
pub open spec fn run_len<A>(long: Seq<A>, short: Seq<A>, i: int, j: int) -> nat
    decreases long.len() - i,
{
    if 0 <= i < long.len() && 0 <= j < short.len() && long[i] == short[j] {
        1 + run_len(long, short, i + 1, j + 1)
    } else {
        0
    }
}

/// `(p, q)` is met before `(i, j)` when the starts in `long` are walked
/// outermost and those in `short` innermost.
pub open spec fn starts_before(p: int, q: int, i: int, j: int) -> bool {
    p < i || (p == i && q < j)
}

/// The run of length `len` at `(i, j)` is the longest common run of `long`
/// and `short`, and among the runs of that length it is the one whose start
/// is met first. Without any common element the run is empty and sits at
/// `(0, 0)`.
pub open spec fn is_first_longest<A>(long: Seq<A>, short: Seq<A>, i: int, j: int, len: int) -> bool {
    &&& len == run_len(long, short, i, j)
    &&& if len == 0 {
        i == 0 && j == 0
    } else {
        0 <= i < long.len() && 0 <= j < short.len()
    }
    &&& forall|p: int, q: int|
        0 <= p < long.len() && 0 <= q < short.len() ==> #[trigger] run_len(long, short, p, q)
            <= len
    &&& forall|p: int, q: int|
        0 <= p < long.len() && 0 <= q < short.len() && starts_before(p, q, i, j)
            ==> #[trigger] run_len(long, short, p, q) < len
}

/// The first longest common run of `long` and `short`, as
/// `(start in long, start in short, length)`.
pub open spec fn best_run<A>(long: Seq<A>, short: Seq<A>) -> (int, int, int) {
    choose|i: int, j: int, len: int| is_first_longest(long, short, i, j, len)
}

/// A run never leaves either sequence.
pub proof fn lemma_run_len_bounded<A>(long: Seq<A>, short: Seq<A>, i: int, j: int)
    requires
        0 <= i <= long.len(),
        0 <= j <= short.len(),
    ensures
        i + run_len(long, short, i, j) <= long.len(),
        j + run_len(long, short, i, j) <= short.len(),
    decreases long.len() - i,
{
    if i < long.len() && j < short.len() && long[i] == short[j] {
        lemma_run_len_bounded(long, short, i + 1, j + 1);
    }
}

/// Two sequences have one first longest common run only: of two runs of
/// different lengths the shorter is not the longest, and of two of one
/// length the later is not the first.
pub proof fn lemma_first_longest_unique<A>(
    long: Seq<A>,
    short: Seq<A>,
    i1: int,
    j1: int,
    len1: int,
    i2: int,
    j2: int,
    len2: int,
)
    requires
        is_first_longest(long, short, i1, j1, len1),
        is_first_longest(long, short, i2, j2, len2),
    ensures
        i1 == i2,
        j1 == j2,
        len1 == len2,
{
}

/// What has been proved of one run is true of `best_run`.
pub proof fn lemma_best_run_is<A>(long: Seq<A>, short: Seq<A>, i: int, j: int, len: int)
    requires
        is_first_longest(long, short, i, j, len),
    ensures
        best_run(long, short) == (i, j, len),
{
    let (bi, bj, blen) = best_run(long, short);
    lemma_first_longest_unique(long, short, i, j, len, bi, bj, blen);
}

/// The first longest run among the starts that are met before `(i, j)`.
proof fn lemma_first_longest_before<A>(long: Seq<A>, short: Seq<A>, i: int, j: int) -> (best: (
    int,
    int,
    int,
))
    requires
        0 <= i <= long.len(),
        0 <= j <= short.len(),
        i < long.len() || j == 0,
    ensures
        best.2 == 0 ==> best.0 == 0 && best.1 == 0,
        best.2 > 0 ==> 0 <= best.0 < long.len() && 0 <= best.1 < short.len() && best.2 == run_len(
            long,
            short,
            best.0,
            best.1,
        ),
        best.2 >= 0,
        forall|p: int, q: int|
            0 <= p < long.len() && 0 <= q < short.len() && starts_before(p, q, i, j)
                ==> #[trigger] run_len(long, short, p, q) <= best.2,
        forall|p: int, q: int|
            0 <= p < long.len() && 0 <= q < short.len() && starts_before(p, q, best.0, best.1)
                ==> #[trigger] run_len(long, short, p, q) < best.2,
    decreases i, j,
{
    if j > 0 {
        let held = lemma_first_longest_before(long, short, i, j - 1);
        let len = run_len(long, short, i, j - 1) as int;
        if len > held.2 {
            (i, j - 1, len)
        } else {
            held
        }
    } else if i > 0 {
        lemma_first_longest_before(long, short, i - 1, short.len() as int)
    } else {
        (0, 0, 0)
    }
}

/// Any two sequences have a first longest common run.
pub proof fn lemma_first_longest_exists<A>(long: Seq<A>, short: Seq<A>)
    ensures
        ({
            let (i, j, len) = best_run(long, short);
            &&& is_first_longest(long, short, i, j, len)
            &&& 0 <= i
            &&& 0 <= j
            &&& 0 <= len
            &&& i + len <= long.len()
            &&& j + len <= short.len()
        }),
{
    let held = lemma_first_longest_before(long, short, long.len() as int, 0);
    lemma_best_run_is(long, short, held.0, held.1, held.2);
    lemma_run_len_bounded(long, short, held.0, held.1);
}

/// The splice of `a` and `b`.
///
/// The longer of the two is `long`, the other `short`; of two sequences of
/// one length the second is `short`. Without a common element the result is
/// `short` followed by `long`. Otherwise both are cut around their first
/// longest common run: the parts before it are spliced, then comes the run,
/// once, then the splice of the parts after it.
pub open spec fn merge_spec<A>(a: Seq<A>, b: Seq<A>) -> Seq<A>
    decreases a.len() + b.len(),
    via merge_spec_decreases::<A>
{
    let (long, short) = if a.len() >= b.len() {
        (a, b)
    } else {
        (b, a)
    };
    let (i, j, len) = best_run(long, short);
    if len > 0 {
        merge_spec(long.subrange(0, i), short.subrange(0, j)) + long.subrange(i, i + len)
            + merge_spec(
            long.subrange(i + len, long.len() as int),
            short.subrange(j + len, short.len() as int),
        )
    } else {
        short + long
    }
}

#[via_fn]
proof fn merge_spec_decreases<A>(a: Seq<A>, b: Seq<A>) {
    let (long, short) = if a.len() >= b.len() {
        (a, b)
    } else {
        (b, a)
    };
    lemma_first_longest_exists(long, short);
}

/// Searches `long` and `short` for their longest common run.
///
/// Every start in `long` is tried in turn, and for each of them every start
/// in `short`. A later run replaces the one held only when it is strictly
/// longer, so of several longest runs the one met first is returned: the
/// earliest start in `long`, and for that start the earliest in `short`.
pub fn longest_common_run<T: PartialEq + DeepView>(long: &[T], short: &[T]) -> (best: CommonRun)
    requires
        eq_decides_value::<T>(),
    ensures
        is_first_longest(
            long.deep_view(),
            short.deep_view(),
            best.long_start as int,
            best.short_start as int,
            best.len as int,
        ),
        best_run(long.deep_view(), short.deep_view()) == (
            best.long_start as int,
            best.short_start as int,
            best.len as int,
        ),
{
    let ghost ls = long.deep_view();
    let ghost ss = short.deep_view();
    let mut best = CommonRun { long_start: 0, short_start: 0, len: 0 };
    let mut i: usize = 0;
    while i < long.len()
        invariant
            ls == long.deep_view(),
            ss == short.deep_view(),
            eq_decides_value::<T>(),
            i <= long.len(),
            best.len == 0 ==> best.long_start == 0 && best.short_start == 0,
            best.len > 0 ==> best.long_start < long.len() && best.short_start < short.len()
                && best.len == run_len(ls, ss, best.long_start as int, best.short_start as int),
            forall|p: int, q: int|
                0 <= p < i && 0 <= q < short.len() ==> #[trigger] run_len(ls, ss, p, q) <= best.len,
            forall|p: int, q: int|
                0 <= p < long.len() && 0 <= q < short.len() && starts_before(
                    p,
                    q,
                    best.long_start as int,
                    best.short_start as int,
                ) ==> #[trigger] run_len(ls, ss, p, q) < best.len,
        decreases long.len() - i,
    {
        let mut j: usize = 0;
        while j < short.len()
            invariant
                ls == long.deep_view(),
                ss == short.deep_view(),
                eq_decides_value::<T>(),
                i < long.len(),
                j <= short.len(),
                best.len == 0 ==> best.long_start == 0 && best.short_start == 0,
                best.len > 0 ==> best.long_start < long.len() && best.short_start < short.len()
                    && best.len == run_len(ls, ss, best.long_start as int, best.short_start as int),
                forall|p: int, q: int|
                    0 <= p < long.len() && 0 <= q < short.len() && starts_before(
                        p,
                        q,
                        i as int,
                        j as int,
                    ) ==> #[trigger] run_len(ls, ss, p, q) <= best.len,
                forall|p: int, q: int|
                    0 <= p < long.len() && 0 <= q < short.len() && starts_before(
                        p,
                        q,
                        best.long_start as int,
                        best.short_start as int,
                    ) ==> #[trigger] run_len(ls, ss, p, q) < best.len,
            decreases short.len() - j,
        {
            let mut len: usize = 0;
            while len < long.len() - i && len < short.len() - j && long[i + len] == short[j + len]
                invariant
                    ls == long.deep_view(),
                    ss == short.deep_view(),
                    eq_decides_value::<T>(),
                    i < long.len(),
                    j < short.len(),
                    len <= long.len() - i,
                    len <= short.len() - j,
                    run_len(ls, ss, i as int, j as int) == len + run_len(
                        ls,
                        ss,
                        i + len,
                        j + len,
                    ),
                decreases long.len() - i - len,
            {
                len += 1;
            }
            if len > best.len {
                best = CommonRun { long_start: i, short_start: j, len };
            }
            j += 1;
        }
        i += 1;
    }
    proof {
        lemma_best_run_is(ls, ss, best.long_start as int, best.short_start as int, best.len as int);
    }
    best
}

/// Two stretches, one of each sequence, in which the search found no
/// common element: `short` went into the splice first, `long` after it.
#[derive(Clone, Debug, PartialEq, Eq)]
pub struct Unmatched<T> {
    pub short: Vec<T>,
    pub long: Vec<T>,
}

impl<T: DeepView> DeepView for Unmatched<T> {
    type V = (Seq<T::V>, Seq<T::V>);

    open spec fn deep_view(&self) -> (Seq<T::V>, Seq<T::V>) {
        (self.short.deep_view(), self.long.deep_view())
    }
}

/// The stretches that the splice of `a` and `b` could not match, as pairs
/// `(short, long)` in the order in which the splice comes to them. A pair
/// of two empty stretches is not among them.
pub open spec fn unmatched_spec<A>(a: Seq<A>, b: Seq<A>) -> Seq<(Seq<A>, Seq<A>)>
    decreases a.len() + b.len(),
    via unmatched_spec_decreases::<A>
{
    let (long, short) = if a.len() >= b.len() {
        (a, b)
    } else {
        (b, a)
    };
    let (i, j, len) = best_run(long, short);
    if len > 0 {
        unmatched_spec(long.subrange(0, i), short.subrange(0, j)) + unmatched_spec(
            long.subrange(i + len, long.len() as int),
            short.subrange(j + len, short.len() as int),
        )
    } else if long.len() > 0 {
        seq![(short, long)]
    } else {
        Seq::empty()
    }
}

#[via_fn]
proof fn unmatched_spec_decreases<A>(a: Seq<A>, b: Seq<A>) {
    let (long, short) = if a.len() >= b.len() {
        (a, b)
    } else {
        (b, a)
    };
    lemma_first_longest_exists(long, short);
}

/// The splice itself. With `record` set, every pair of stretches that
/// could not be matched is added to `trace`; without it `trace` is left
/// alone.
fn splice<T: PartialEq + Clone + DeepView>(
    arr1: &[T],
    arr2: &[T],
    record: bool,
    trace: &mut Vec<Unmatched<T>>,
) -> (combined: Vec<T>)
    requires
        comparable::<T>(),
    ensures
        combined.deep_view() == merge_spec(arr1.deep_view(), arr2.deep_view()),
        arr1.len() <= combined.len(),
        arr2.len() <= combined.len(),
        combined.len() <= arr1.len() + arr2.len(),
        record ==> final(trace).deep_view() == old(trace).deep_view() + unmatched_spec(
            arr1.deep_view(),
            arr2.deep_view(),
        ),
        !record ==> final(trace)@ == old(trace)@,
    decreases arr1.len() + arr2.len(),
{
    let (long, short) = if arr1.len() >= arr2.len() {
        (arr1, arr2)
    } else {
        (arr2, arr1)
    };
    let best = longest_common_run(long, short);
    let mut combined: Vec<T> = Vec::new();
    if best.len > 0 {
        proof {
            lemma_run_len_bounded(
                long.deep_view(),
                short.deep_view(),
                best.long_start as int,
                best.short_start as int,
            );
        }
        let long_end: usize = best.long_start + best.len;
        let short_end: usize = best.short_start + best.len;
        let long_before = &long[0..best.long_start];
        let short_before = &short[0..best.short_start];
        let common = &long[best.long_start..long_end];
        let long_after = &long[long_end..long.len()];
        let short_after = &short[short_end..short.len()];
        proof {
            lemma_values_of_subrange(long, long_before, 0, best.long_start as int);
            lemma_values_of_subrange(short, short_before, 0, best.short_start as int);
            lemma_values_of_subrange(long, common, best.long_start as int, long_end as int);
            lemma_values_of_subrange(long, long_after, long_end as int, long.len() as int);
            lemma_values_of_subrange(short, short_after, short_end as int, short.len() as int);
        }
        let mut head = splice(long_before, short_before, record, trace);
        let mut tail = splice(long_after, short_after, record, trace);
        combined.append(&mut head);
        combined.extend_from_slice(common);
        combined.append(&mut tail);
    } else {
        combined.extend_from_slice(short);
        combined.extend_from_slice(long);
        if record && long.len() > 0 {
            let mut short_copy: Vec<T> = Vec::new();
            short_copy.extend_from_slice(short);
            let mut long_copy: Vec<T> = Vec::new();
            long_copy.extend_from_slice(long);
            assert(short_copy.deep_view() =~= short.deep_view());
            assert(long_copy.deep_view() =~= long.deep_view());
            trace.push(Unmatched { short: short_copy, long: long_copy });
        }
    }
    combined
}

/// Splices two sequences around their longest common run.
///
/// The elements of the result are clones of those of `arr1` and `arr2`.
pub fn zip_merge<T: PartialEq + Clone + DeepView>(arr1: &[T], arr2: &[T]) -> (combined: Vec<T>)
    requires
        comparable::<T>(),
    ensures
        combined.deep_view() == merge_spec(arr1.deep_view(), arr2.deep_view()),
        arr1.len() <= combined.len(),
        arr2.len() <= combined.len(),
        combined.len() <= arr1.len() + arr2.len(),
{
    let mut trace: Vec<Unmatched<T>> = Vec::new();
    splice(arr1, arr2, false, &mut trace)
}

/// Splices two sequences as `zip_merge` does, and reports beside the
/// splice every pair of stretches between which it found nothing in
/// common.
pub fn zip_merge_traced<T: PartialEq + Clone + DeepView>(arr1: &[T], arr2: &[T]) -> (result: (
    Vec<T>,
    Vec<Unmatched<T>>,
))
    requires
        comparable::<T>(),
    ensures
        result.0.deep_view() == merge_spec(arr1.deep_view(), arr2.deep_view()),
        result.1.deep_view() == unmatched_spec(arr1.deep_view(), arr2.deep_view()),
{
    let mut trace: Vec<Unmatched<T>> = Vec::new();
    let combined = splice(arr1, arr2, true, &mut trace);
    (combined, trace)
}

} // verus!
