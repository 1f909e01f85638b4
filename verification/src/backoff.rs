//! Bounded exponential backoff for the polling loops: the wait starts
//! at a base, doubles with every further attempt, and never exceeds a
//! maximum. The shell sleeps for the computed wait between polls; how
//! long to wait is decided here.

use vstd::prelude::*;

verus! {

/// The wait before retry number `attempt` (counting from zero): the
/// base doubled `attempt` times, capped at `max_ms` throughout.
pub open spec fn spec_backoff(attempt: nat, base_ms: u64, max_ms: u64) -> u64
    decreases attempt,
{
    if attempt == 0 {
        if base_ms <= max_ms {
            base_ms
        } else {
            max_ms
        }
    } else {
        let prev = spec_backoff((attempt - 1) as nat, base_ms, max_ms);
        if prev <= max_ms / 2 {
            (prev * 2) as u64
        } else {
            max_ms
        }
    }
}

/// The backoff never exceeds its bound.
pub proof fn lemma_backoff_bounded(attempt: nat, base_ms: u64, max_ms: u64)
    ensures
        spec_backoff(attempt, base_ms, max_ms) <= max_ms,
    decreases attempt,
{
    if attempt > 0 {
        lemma_backoff_bounded((attempt - 1) as nat, base_ms, max_ms);
    }
}

/// How long to wait, in milliseconds, before retry number `attempt` of
/// a polling loop.
pub fn backoff_delay_ms(attempt: u32, base_ms: u64, max_ms: u64) -> (r: u64)
    ensures
        r == spec_backoff(attempt as nat, base_ms, max_ms),
        r <= max_ms,
{
    let mut d: u64 = if base_ms <= max_ms {
        base_ms
    } else {
        max_ms
    };
    let mut i: u32 = 0;
    while i < attempt
        invariant
            0 <= i <= attempt,
            d == spec_backoff(i as nat, base_ms, max_ms),
            d <= max_ms,
        decreases attempt - i,
    {
        d = if d <= max_ms / 2 {
            d * 2
        } else {
            max_ms
        };
        i += 1;
    }
    d
}

} // verus!
