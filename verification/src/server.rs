//! Decisions of the accept loop.
//!
//! Accepting runs with exponential backoff on failure; the waiting itself
//! is the runner's business. Starting from one second, each failure doubles
//! the pause, and past 64 seconds the listener gives up.

use vstd::prelude::*;

verus! {

/// After a failed accept with the current backoff (in seconds): pause for
/// that long and continue with the returned backoff, or give up when the
/// backoff has grown past 64 seconds.
pub fn next_backoff(backoff: u64) -> (r: Option<u64>)
    requires
        backoff <= 128,
    ensures
        backoff > 64 ==> r is None,
        backoff <= 64 ==> r == Some((2 * backoff) as u64),
{
    if backoff > 64 {
        None
    } else {
        Some(backoff * 2)
    }
}

} // verus!
