//! Counts of what a worker sent and what came back.

use vstd::prelude::*;

verus! {

/// Counts since a worker was made. A count that reaches the end of its range
/// starts over at zero.
#[derive(Clone, Copy, Debug, PartialEq, Eq, Structural)]
pub struct Metrics {
    /// Requests that were sent.
    pub request: u64,
    /// Requests among them that read.
    pub request_get: u64,
    /// Responses that came in.
    pub response: u64,
    /// Responses among them that brought a value.
    pub response_hit: u64,
}

/// The count that follows `n`.
pub open spec fn counted(n: u64) -> u64 {
    if n == u64::MAX {
        0
    } else {
        (n + 1) as u64
    }
}

/// Counts one more.
pub fn count(n: &mut u64)
    ensures
        *final(n) == counted(*old(n)),
{
    *n = n.wrapping_add(1);
}

impl Metrics {
    /// No counts yet.
    pub fn new() -> (r: Metrics)
        ensures
            r == (Metrics { request: 0, request_get: 0, response: 0, response_hit: 0 }),
    {
        Metrics { request: 0, request_get: 0, response: 0, response_hit: 0 }
    }
}

} // verus!
