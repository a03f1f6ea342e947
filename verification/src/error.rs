//! What a retry run reports when it gives up.

use vstd::prelude::*;
use crate::duration::Duration;

verus! {

/// The failure of a whole run: the error of the last attempt, and how far the run had come.
#[derive(Debug, PartialEq, Eq)]
pub struct Error<E> {
    /// The error that the last attempt returned.
    pub error: E,
    /// The time spent waiting between attempts, all waits added up.
    pub total_delay: Duration,
    /// The number of attempts made, the last one included.
    pub tries: u64,
}

} // verus!
