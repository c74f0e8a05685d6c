//! Sequences found inside other sequences, order kept.

use vstd::prelude::*;

verus! {

/// `at` gives each element of `sub` a place in `sup` that holds an equal
/// element, later elements at later places.
pub open spec fn places<A>(sub: Seq<A>, sup: Seq<A>, at: Seq<int>) -> bool {
    &&& at.len() == sub.len()
    &&& forall|i: int|
        0 <= i < at.len() ==> 0 <= #[trigger] at[i] < sup.len() && sup[at[i]] == sub[i]
    &&& forall|i: int, j: int| 0 <= i < j < at.len() ==> #[trigger] at[i] < #[trigger] at[j]
}

/// `sub` is what is left of `sup` when some of its elements are taken
/// out: the elements of `sub` occur in `sup`, in the same order.
pub open spec fn is_subsequence<A>(sub: Seq<A>, sup: Seq<A>) -> bool {
    exists|at: Seq<int>| places(sub, sup, at)
}

/// Every sequence is a subsequence of itself.
pub proof fn lemma_subsequence_of_self<A>(s: Seq<A>)
    ensures
        is_subsequence(s, s),
{
    let at = Seq::new(s.len(), |i: int| i);
    assert(places(s, s, at));
}

/// The empty sequence is a subsequence of every sequence.
pub proof fn lemma_empty_is_subsequence<A>(sup: Seq<A>)
    ensures
        is_subsequence(Seq::<A>::empty(), sup),
{
    assert(places(Seq::<A>::empty(), sup, Seq::<int>::empty()));
}

/// Subsequences side by side: if `a` lies in `c` and `b` in `d`, then `a`
/// followed by `b` lies in `c` followed by `d`.
pub proof fn lemma_subsequence_concat<A>(a: Seq<A>, c: Seq<A>, b: Seq<A>, d: Seq<A>)
    requires
        is_subsequence(a, c),
        is_subsequence(b, d),
    ensures
        is_subsequence(a + b, c + d),
{
    let first = choose|at: Seq<int>| places(a, c, at);
    let second = choose|at: Seq<int>| places(b, d, at);
    let shift = c.len() as int;
    let at = Seq::new(
        a.len() + b.len(),
        |i: int|
            if i < a.len() {
                first[i]
            } else {
                second[i - a.len()] + shift
            },
    );
    assert(places(a + b, c + d, at));
}

/// A subsequence of a subsequence is a subsequence.
pub proof fn lemma_subsequence_transitive<A>(a: Seq<A>, b: Seq<A>, c: Seq<A>)
    requires
        is_subsequence(a, b),
        is_subsequence(b, c),
    ensures
        is_subsequence(a, c),
{
    let first = choose|at: Seq<int>| places(a, b, at);
    let second = choose|at: Seq<int>| places(b, c, at);
    let at = Seq::new(a.len(), |i: int| second[first[i]]);
    assert(places(a, c, at));
}

/// What occurs in a subsequence occurs in the sequence.
pub proof fn lemma_subsequence_contains<A>(sub: Seq<A>, sup: Seq<A>, x: A)
    requires
        is_subsequence(sub, sup),
        sub.contains(x),
    ensures
        sup.contains(x),
{
    let at = choose|at: Seq<int>| places(sub, sup, at);
    let i = choose|i: int| 0 <= i < sub.len() && sub[i] == x;
    assert(sup[at[i]] == x);
}

} // verus!
