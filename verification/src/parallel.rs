//! Work handed to rayon's thread pool.

use rayon::iter::IntoParallelIterator;
use rayon::iter::ParallelIterator;
use vstd::prelude::*;

verus! {

/// Runs `task` once for each index below `count`, on rayon's thread pool,
/// and returns the results in the order of the indices.
///
/// The body is rayon's parallel iterator over the range `0..count`
/// (`IntoParallelIterator::into_par_iter`), mapped through `task`
/// (`ParallelIterator::map`) and gathered into a vector
/// (`ParallelIterator::collect`). Nothing of this is verified. Taken on
/// trust: the vector has one entry for each index of the range, and the
/// entry at `i` is what a call `task(i)` returned. In which order and on
/// which threads the calls run is left open; `task` must be callable on
/// every index below `count`.
#[verifier::external_body]
pub(crate) fn map_indices<R, F>(count: usize, task: F) -> (results: Vec<R>) where
    R: Send,
    F: Fn(usize) -> R + Sync + Send,

    requires
        forall|i: usize| i < count ==> call_requires(task, (i,)),
    ensures
        results@.len() == count,
        forall|i: int|
            0 <= i < count ==> call_ensures(task, (i as usize,), #[trigger] results@[i]),
{
    (0..count).into_par_iter().map(task).collect()
}

} // verus!
