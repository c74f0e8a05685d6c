//! What the algorithms ask of an element type.
//!
//! Elements are compared with `==` and copied with `clone`. The contracts of
//! this crate speak of the *value* of an element, which is its deep view, so
//! both operations have to agree with that value.

use vstd::prelude::*;

verus! {

/// `==` on `T` answers `true` exactly when both sides have the same value.
pub open spec fn eq_decides_value<T: PartialEq + DeepView>() -> bool {
    forall|x: T, y: T, r: bool| #[trigger]
        call_ensures(T::eq, (&x, &y), r) ==> r == (x.deep_view() == y.deep_view())
}

/// `clone` on `T` gives an element of the same value.
pub open spec fn clone_keeps_value<T: Clone + DeepView>() -> bool {
    forall|x: T, y: T| #[trigger]
        call_ensures(T::clone, (&x,), y) ==> x.deep_view() == y.deep_view()
}

/// `T` can be compared and copied by value.
pub open spec fn comparable<T: PartialEq + Clone + DeepView>() -> bool {
    eq_decides_value::<T>() && clone_keeps_value::<T>()
}

/// The values of a part of a slice are that part of the slice's values.
pub proof fn lemma_values_of_subrange<T: DeepView>(whole: &[T], part: &[T], from: int, to: int)
    requires
        0 <= from <= to <= whole@.len(),
        part@ == whole@.subrange(from, to),
    ensures
        part.deep_view() == whole.deep_view().subrange(from, to),
{
}

} // verus!
