//! Merging two sequences of lines around their longest shared runs, and
//! collapsing blocks that repeat back to back.
//!
//! `zip_merge` splices two sequences, `deduplicate_patterns` collapses the
//! repeated blocks of one, and `merge_deduplicated` puts the two together:
//! both inputs deduplicated, spliced, and the splice deduplicated again.

pub mod dedup;
pub mod dedup_laws;
pub mod element;
pub mod lines;
pub mod merge;
pub mod merge_laws;
pub mod order;
mod parallel;
pub mod pipeline;
pub mod scan;
pub mod throttle;

pub use dedup::deduplicate_patterns;
pub use merge::zip_merge;
pub use pipeline::merge_deduplicated;
