//! The whole merge: both inputs deduplicated, spliced, and the splice
//! deduplicated once more.

use crate::dedup::deduplicate_patterns;
use crate::dedup::dedup_spec;
use crate::dedup::is_fixpoint;
use crate::dedup_laws::lemma_dedup_contains;
use crate::dedup_laws::lemma_dedup_is_fixpoint;
use crate::dedup_laws::lemma_dedup_len;
use crate::element::comparable;
use crate::merge::merge_spec;
use crate::merge::unmatched_spec;
use crate::merge::zip_merge_traced;
use crate::merge::Unmatched;
use crate::merge_laws::lemma_merge_contains;
use crate::merge_laws::lemma_merge_len_bounds;
use crate::merge_laws::lemma_merge_self;
use vstd::prelude::*;

verus! {

/// The throttle that the inputs are deduplicated with unless another is
/// asked for.
pub const DEFAULT_THOROUGHNESS: usize = 20;

/// The throttle of the last pass, over the splice: no window size is
/// skipped.
pub const FINAL_THOROUGHNESS: usize = 1;

/// Why a merge was not run.
#[derive(Clone, Copy, Debug, PartialEq, Eq, Structural)]
pub enum ConfigError {
    /// The throttle was 0: window sizes are sampled at multiples of it.
    ZeroThoroughness,
}

/// The sizes that a merge reports.
#[derive(Clone, Copy, Debug, PartialEq, Eq, Structural)]
pub struct Summary {
    /// Length of the first input.
    pub first_len: usize,
    /// Length of the second input.
    pub second_len: usize,
    /// Length of the result.
    pub merged_len: usize,
    /// Length of the longer input: the least that a splice of the two
    /// inputs can come to.
    pub best_case: usize,
    /// Both lengths together: the most that a splice of the two inputs can
    /// come to. The sum of two `usize` may not fit in one.
    pub worst_case: u128,
}

/// A merge, its sizes, and what the splice could not match.
#[derive(Clone, Debug, PartialEq, Eq)]
pub struct Merged<T> {
    /// The result.
    pub lines: Vec<T>,
    /// The sizes to report.
    pub summary: Summary,
    /// The stretches of the deduplicated inputs between which the splice
    /// found nothing in common. They are for the user to look at; the
    /// result holds them all the same.
    pub unmatched: Vec<Unmatched<T>>,
}

/// The sizes to report of inputs of `first_len` and `second_len` elements
/// merged into `merged_len`.
pub open spec fn summary_spec(first_len: int, second_len: int, merged_len: int) -> Summary {
    Summary {
        first_len: first_len as usize,
        second_len: second_len as usize,
        merged_len: merged_len as usize,
        best_case: if first_len >= second_len {
            first_len as usize
        } else {
            second_len as usize
        },
        worst_case: (first_len + second_len) as u128,
    }
}

/// What the pipeline makes of `first` and `second`: each deduplicated
/// under the throttle `thoroughness`, the two results spliced, and the
/// splice deduplicated with no window size skipped.
pub open spec fn pipeline_spec<A>(first: Seq<A>, second: Seq<A>, thoroughness: int) -> Seq<A> {
    dedup_spec(
        merge_spec(dedup_spec(first, thoroughness), dedup_spec(second, thoroughness)),
        FINAL_THOROUGHNESS as int,
    )
}

/// The sizes to report of a merge.
pub fn summarize(first_len: usize, second_len: usize, merged_len: usize) -> (summary: Summary)
    ensures
        summary == summary_spec(first_len as int, second_len as int, merged_len as int),
{
    Summary {
        first_len,
        second_len,
        merged_len,
        best_case: if first_len >= second_len {
            first_len
        } else {
            second_len
        },
        worst_case: first_len as u128 + second_len as u128,
    }
}

/// Merges `first` and `second`.
///
/// Both are deduplicated under `thoroughness`, the results are spliced,
/// and the splice is deduplicated with every window size scanned, which
/// removes what the splicing itself has doubled. A `thoroughness` of 0 is
/// refused before any work is done.
pub fn merge_deduplicated<T: PartialEq + Clone + DeepView + Send + Sync>(
    first: &Vec<T>,
    second: &Vec<T>,
    thoroughness: usize,
) -> (result: Result<Merged<T>, ConfigError>)
    requires
        comparable::<T>(),
    ensures
        thoroughness == 0 <==> result == Err::<Merged<T>, ConfigError>(
            ConfigError::ZeroThoroughness,
        ),
        thoroughness >= 1 <==> result is Ok,
        result matches Ok(merged) ==> {
            &&& merged.lines.deep_view() == pipeline_spec(
                first.deep_view(),
                second.deep_view(),
                thoroughness as int,
            )
            &&& merged.summary == summary_spec(
                first.len() as int,
                second.len() as int,
                merged.lines.len() as int,
            )
            &&& merged.unmatched.deep_view() == unmatched_spec(
                dedup_spec(first.deep_view(), thoroughness as int),
                dedup_spec(second.deep_view(), thoroughness as int),
            )
            &&& merged.lines.len() <= first.len() + second.len()
            &&& is_fixpoint(merged.lines.deep_view(), FINAL_THOROUGHNESS as int)
        },
{
    if thoroughness == 0 {
        return Err(ConfigError::ZeroThoroughness);
    }
    let first_deduplicated = deduplicate_patterns(first, thoroughness);
    let second_deduplicated = deduplicate_patterns(second, thoroughness);
    let (spliced, unmatched) = zip_merge_traced(
        first_deduplicated.as_slice(),
        second_deduplicated.as_slice(),
    );
    let lines = deduplicate_patterns(&spliced, FINAL_THOROUGHNESS);
    proof {
        lemma_pipeline_len(first.deep_view(), second.deep_view(), thoroughness as int);
    }
    let summary = summarize(first.len(), second.len(), lines.len());
    Ok(Merged { lines, summary, unmatched })
}

/// The pipeline's result is no longer than both inputs together, and a
/// sweep with no window size skipped marks nothing in it.
pub proof fn lemma_pipeline_len<A>(first: Seq<A>, second: Seq<A>, thoroughness: int)
    ensures
        pipeline_spec(first, second, thoroughness).len() <= first.len() + second.len(),
        is_fixpoint(pipeline_spec(first, second, thoroughness), FINAL_THOROUGHNESS as int),
{
    let a = dedup_spec(first, thoroughness);
    let b = dedup_spec(second, thoroughness);
    lemma_dedup_len(first, thoroughness);
    lemma_dedup_len(second, thoroughness);
    lemma_merge_len_bounds(a, b);
    lemma_dedup_len(merge_spec(a, b), FINAL_THOROUGHNESS as int);
    lemma_dedup_is_fixpoint(merge_spec(a, b), FINAL_THOROUGHNESS as int);
}

/// A sequence spliced with itself and then deduplicated is that sequence
/// deduplicated: the whole of it overlaps.
pub proof fn lemma_merge_self_deduplicated<A>(a: Seq<A>, thoroughness: int)
    ensures
        dedup_spec(merge_spec(a, a), thoroughness) == dedup_spec(a, thoroughness),
{
    lemma_merge_self(a);
}

/// The pipeline's result holds every distinct element of both inputs, and
/// nothing else.
pub proof fn lemma_pipeline_contains<A>(first: Seq<A>, second: Seq<A>, thoroughness: int, x: A)
    ensures
        pipeline_spec(first, second, thoroughness).contains(x) <==> first.contains(x)
            || second.contains(x),
{
    let a = dedup_spec(first, thoroughness);
    let b = dedup_spec(second, thoroughness);
    lemma_dedup_contains(first, thoroughness, x);
    lemma_dedup_contains(second, thoroughness, x);
    lemma_merge_contains(a, b, x);
    lemma_dedup_contains(merge_spec(a, b), FINAL_THOROUGHNESS as int, x);
}

} // verus!
