//! What holds of every splice.

use crate::merge::best_run;
use crate::merge::is_first_longest;
use crate::merge::lemma_best_run_is;
use crate::merge::lemma_first_longest_exists;
use crate::merge::lemma_run_len_bounded;
use crate::merge::merge_spec;
use crate::merge::run_len;
use crate::merge::unmatched_spec;
use crate::order::is_subsequence;
use crate::order::lemma_empty_is_subsequence;
use crate::order::lemma_subsequence_concat;
use crate::order::lemma_subsequence_contains;
use crate::order::lemma_subsequence_of_self;
use vstd::prelude::*;
use vstd::seq_lib::lemma_multiset_commutative;

verus! {

/// Against an empty sequence nothing can be matched.
pub proof fn lemma_no_run_in_empty<A>(long: Seq<A>)
    ensures
        best_run(long, Seq::<A>::empty()) == (0int, 0int, 0int),
{
    lemma_best_run_is(long, Seq::<A>::empty(), 0, 0, 0);
}

/// Splicing with an empty sequence changes nothing: two empty sequences
/// give the empty sequence, and a sequence spliced with the empty one, on
/// either side, is that sequence.
pub proof fn lemma_merge_with_empty<A>(a: Seq<A>)
    ensures
        merge_spec(Seq::<A>::empty(), Seq::<A>::empty()) == Seq::<A>::empty(),
        merge_spec(a, Seq::<A>::empty()) == a,
        merge_spec(Seq::<A>::empty(), a) == a,
{
    lemma_no_run_in_empty(a);
    lemma_no_run_in_empty(Seq::<A>::empty());
}

/// A sequence agrees with itself from any place to its end.
proof fn lemma_run_len_of_self<A>(a: Seq<A>, i: int)
    requires
        0 <= i <= a.len(),
    ensures
        run_len(a, a, i, i) == a.len() - i,
    decreases a.len() - i,
{
    if i < a.len() {
        lemma_run_len_of_self(a, i + 1);
    }
}

/// A sequence spliced with itself is that sequence: the whole of it is the
/// common run, and it is kept once.
pub proof fn lemma_merge_self<A>(a: Seq<A>)
    ensures
        merge_spec(a, a) == a,
{
    let none = Seq::<A>::empty();
    let n = a.len() as int;
    lemma_merge_with_empty(none);
    if n == 0 {
        assert(a =~= none);
    } else {
        lemma_run_len_of_self(a, 0);
        assert forall|p: int, q: int| 0 <= p < n && 0 <= q < n implies #[trigger] run_len(
            a,
            a,
            p,
            q,
        ) <= n by {
            lemma_run_len_bounded(a, a, p, q);
        }
        lemma_best_run_is(a, a, 0, 0, n);
        assert(a.subrange(0, 0) =~= none);
        assert(a.subrange(n, n) =~= none);
    }
}

/// A splice is at least as long as the longer of its two sequences and at
/// most as long as both together.
pub proof fn lemma_merge_len_bounds<A>(a: Seq<A>, b: Seq<A>)
    ensures
        a.len() <= merge_spec(a, b).len(),
        b.len() <= merge_spec(a, b).len(),
        merge_spec(a, b).len() <= a.len() + b.len(),
    decreases a.len() + b.len(),
{
    let (long, short) = if a.len() >= b.len() {
        (a, b)
    } else {
        (b, a)
    };
    lemma_first_longest_exists(long, short);
    let (i, j, len) = best_run(long, short);
    if len > 0 {
        lemma_merge_len_bounds(long.subrange(0, i), short.subrange(0, j));
        lemma_merge_len_bounds(
            long.subrange(i + len, long.len() as int),
            short.subrange(j + len, short.len() as int),
        );
    }
}

/// Inside a common run the two sequences agree.
proof fn lemma_run_elements<A>(long: Seq<A>, short: Seq<A>, i: int, j: int, d: int)
    requires
        0 <= d < run_len(long, short, i, j),
    ensures
        0 <= i + d < long.len(),
        0 <= j + d < short.len(),
        long[i + d] == short[j + d],
    decreases d,
{
    if d > 0 {
        lemma_run_elements(long, short, i + 1, j + 1, d - 1);
    }
}

/// A common run reads the same in both sequences.
pub proof fn lemma_run_is_common<A>(long: Seq<A>, short: Seq<A>, i: int, j: int)
    requires
        0 <= i <= long.len(),
        0 <= j <= short.len(),
    ensures
        long.subrange(i, i + run_len(long, short, i, j)) == short.subrange(
            j,
            j + run_len(long, short, i, j),
        ),
{
    let len = run_len(long, short, i, j) as int;
    lemma_run_len_bounded(long, short, i, j);
    let in_long = long.subrange(i, i + len);
    let in_short = short.subrange(j, j + len);
    assert forall|d: int| 0 <= d < len implies #[trigger] in_long[d] == in_short[d] by {
        lemma_run_elements(long, short, i, j, d);
    }
}

/// A splice keeps both of its sequences whole and in order: each of them
/// is what is left of the splice when the elements of the other, but for
/// the common runs, are taken out.
pub proof fn lemma_merge_keeps_both<A>(a: Seq<A>, b: Seq<A>)
    ensures
        is_subsequence(a, merge_spec(a, b)),
        is_subsequence(b, merge_spec(a, b)),
    decreases a.len() + b.len(),
{
    let (long, short) = if a.len() >= b.len() {
        (a, b)
    } else {
        (b, a)
    };
    let none = Seq::<A>::empty();
    lemma_first_longest_exists(long, short);
    let (i, j, len) = best_run(long, short);
    if len > 0 {
        let long_before = long.subrange(0, i);
        let short_before = short.subrange(0, j);
        let common = long.subrange(i, i + len);
        let long_after = long.subrange(i + len, long.len() as int);
        let short_after = short.subrange(j + len, short.len() as int);
        let head = merge_spec(long_before, short_before);
        let tail = merge_spec(long_after, short_after);
        lemma_run_is_common(long, short, i, j);
        lemma_merge_keeps_both(long_before, short_before);
        lemma_merge_keeps_both(long_after, short_after);
        lemma_subsequence_of_self(common);
        lemma_subsequence_concat(long_before, head, common, common);
        lemma_subsequence_concat(long_before + common, head + common, long_after, tail);
        lemma_subsequence_concat(short_before, head, common, common);
        lemma_subsequence_concat(short_before + common, head + common, short_after, tail);
        assert(long_before + common + long_after =~= long);
        assert(short_before + common + short_after =~= short);
    } else {
        lemma_subsequence_of_self(long);
        lemma_subsequence_of_self(short);
        lemma_empty_is_subsequence(long);
        lemma_empty_is_subsequence(short);
        lemma_subsequence_concat(short, short, none, long);
        lemma_subsequence_concat(none, short, long, long);
    }
}

/// A splice holds the elements of its two sequences and no others.
pub proof fn lemma_merge_contains<A>(a: Seq<A>, b: Seq<A>, x: A)
    ensures
        merge_spec(a, b).contains(x) <==> a.contains(x) || b.contains(x),
    decreases a.len() + b.len(),
{
    lemma_merge_keeps_both(a, b);
    if a.contains(x) {
        lemma_subsequence_contains(a, merge_spec(a, b), x);
    }
    if b.contains(x) {
        lemma_subsequence_contains(b, merge_spec(a, b), x);
    }
    if merge_spec(a, b).contains(x) {
        let (long, short) = if a.len() >= b.len() {
            (a, b)
        } else {
            (b, a)
        };
        lemma_first_longest_exists(long, short);
        let (i, j, len) = best_run(long, short);
        if len > 0 {
            lemma_merge_contains(long.subrange(0, i), short.subrange(0, j), x);
            lemma_merge_contains(
                long.subrange(i + len, long.len() as int),
                short.subrange(j + len, short.len() as int),
                x,
            );
        }
    }
}

/// The common runs that the splice of `a` and `b` keeps once, one after
/// the other.
pub open spec fn collapsed_runs<A>(a: Seq<A>, b: Seq<A>) -> Seq<A>
    decreases a.len() + b.len(),
    via collapsed_runs_decreases::<A>
{
    let (long, short) = if a.len() >= b.len() {
        (a, b)
    } else {
        (b, a)
    };
    let (i, j, len) = best_run(long, short);
    if len > 0 {
        collapsed_runs(long.subrange(0, i), short.subrange(0, j)) + long.subrange(i, i + len)
            + collapsed_runs(
            long.subrange(i + len, long.len() as int),
            short.subrange(j + len, short.len() as int),
        )
    } else {
        Seq::empty()
    }
}

#[via_fn]
proof fn collapsed_runs_decreases<A>(a: Seq<A>, b: Seq<A>) {
    let (long, short) = if a.len() >= b.len() {
        (a, b)
    } else {
        (b, a)
    };
    lemma_first_longest_exists(long, short);
}

/// Element for element, a splice is its two sequences together less one
/// copy of each common run: nothing is made up, and nothing but the second
/// copy of a common run is dropped.
pub proof fn lemma_merge_multiset<A>(a: Seq<A>, b: Seq<A>)
    ensures
        merge_spec(a, b).to_multiset().add(collapsed_runs(a, b).to_multiset())
            == a.to_multiset().add(b.to_multiset()),
        merge_spec(a, b).len() + collapsed_runs(a, b).len() == a.len() + b.len(),
    decreases a.len() + b.len(),
{
    broadcast use vstd::multiset::group_multiset_axioms;

    let (long, short) = if a.len() >= b.len() {
        (a, b)
    } else {
        (b, a)
    };
    lemma_first_longest_exists(long, short);
    let (i, j, len) = best_run(long, short);
    if len > 0 {
        let long_before = long.subrange(0, i);
        let short_before = short.subrange(0, j);
        let common = long.subrange(i, i + len);
        let long_after = long.subrange(i + len, long.len() as int);
        let short_after = short.subrange(j + len, short.len() as int);
        let head = merge_spec(long_before, short_before);
        let tail = merge_spec(long_after, short_after);
        let head_runs = collapsed_runs(long_before, short_before);
        let tail_runs = collapsed_runs(long_after, short_after);
        lemma_run_is_common(long, short, i, j);
        lemma_merge_multiset(long_before, short_before);
        lemma_merge_multiset(long_after, short_after);
        assert(long_before + common + long_after =~= long);
        assert(short_before + common + short_after =~= short);
        lemma_multiset_commutative(long_before, common);
        lemma_multiset_commutative(long_before + common, long_after);
        lemma_multiset_commutative(short_before, common);
        lemma_multiset_commutative(short_before + common, short_after);
        lemma_multiset_commutative(head, common);
        lemma_multiset_commutative(head + common, tail);
        lemma_multiset_commutative(head_runs, common);
        lemma_multiset_commutative(head_runs + common, tail_runs);
        let both = long.to_multiset().add(short.to_multiset());
        let kept = merge_spec(a, b).to_multiset().add(collapsed_runs(a, b).to_multiset());
        assert forall|v: A| kept.count(v) == both.count(v) by {
            let in_heads = head.to_multiset().add(head_runs.to_multiset());
            let in_tails = tail.to_multiset().add(tail_runs.to_multiset());
            assert(in_heads.count(v) == long_before.to_multiset().count(v)
                + short_before.to_multiset().count(v));
            assert(in_tails.count(v) == long_after.to_multiset().count(v)
                + short_after.to_multiset().count(v));
        }
    } else {
        let none = Seq::<A>::empty();
        lemma_multiset_commutative(short, long);
        lemma_multiset_commutative(short + long, none);
    }
}

/// The stretches reported as unmatched have no element in common, and
/// `long` is not empty and no shorter than `short`.
pub proof fn lemma_unmatched_share_nothing<A>(a: Seq<A>, b: Seq<A>, k: int)
    requires
        0 <= k < unmatched_spec(a, b).len(),
    ensures
        ({
            let (short, long) = unmatched_spec(a, b)[k];
            &&& 0 < long.len()
            &&& short.len() <= long.len()
            &&& forall|p: int, q: int|
                0 <= p < long.len() && 0 <= q < short.len() ==> long[p] != short[q]
        }),
    decreases a.len() + b.len(),
{
    let (long, short) = if a.len() >= b.len() {
        (a, b)
    } else {
        (b, a)
    };
    lemma_first_longest_exists(long, short);
    let (i, j, len) = best_run(long, short);
    if len > 0 {
        let long_before = long.subrange(0, i);
        let short_before = short.subrange(0, j);
        let long_after = long.subrange(i + len, long.len() as int);
        let short_after = short.subrange(j + len, short.len() as int);
        let head = unmatched_spec(long_before, short_before);
        if k < head.len() {
            lemma_unmatched_share_nothing(long_before, short_before, k);
        } else {
            lemma_unmatched_share_nothing(long_after, short_after, k - head.len());
        }
    } else {
        assert forall|p: int, q: int| 0 <= p < long.len() && 0 <= q < short.len() implies long[p]
            != short[q] by {
            assert(run_len(long, short, p, q) <= 0);
        }
    }
}

} // verus!
