//! Which window sizes a sweep scans.
//!
//! Small windows are always scanned. Of the larger ones the throttle lets
//! through a sample only, which makes a sweep cheaper and coarser.

use vstd::prelude::*;

verus! {

/// Window sizes of at most this many percent of half the sequence are
/// always scanned.
pub const ALWAYS_SCANNED_PERCENT: usize = 10;

/// The size of a window in percent of half a sequence of `n` elements,
/// rounded down.
pub open spec fn relative_size(n: int, size: int) -> int {
    size * 100 / (n / 2)
}

/// Whether a sweep over `n` elements scans windows of `size` elements.
///
/// Candidate sizes run from 1 to `n / 2`. Those whose relative size is
/// within `ALWAYS_SCANNED_PERCENT` are all scanned; of the larger ones only
/// those whose relative size is a multiple of `thoroughness`.
pub open spec fn size_is_scanned(n: int, size: int, thoroughness: int) -> bool {
    &&& 1 <= size <= n / 2
    &&& (relative_size(n, size) <= ALWAYS_SCANNED_PERCENT || relative_size(n, size) % thoroughness
        == 0)
}

/// Whether a sweep over `n` elements scans windows of `size` elements.
pub fn scans_size(n: usize, size: usize, thoroughness: usize) -> (scanned: bool)
    requires
        thoroughness >= 1,
    ensures
        scanned == size_is_scanned(n as int, size as int, thoroughness as int),
{
    let half: usize = n / 2;
    if size < 1 || size > half {
        return false;
    }
    let percent: u128 = (size as u128) * 100 / (half as u128);
    percent <= (ALWAYS_SCANNED_PERCENT as u128) || percent % (thoroughness as u128) == 0
}

} // verus!
