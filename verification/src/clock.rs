//! The monotonic clock the caching collectors consult to decide when a
//! cached sample has gone stale.

use std::time::{Duration, Instant};
use vstd::prelude::*;

verus! {

#[verifier::external_type_specification]
#[verifier::external_body]
pub struct ExInstant(Instant);

/// Calls `Instant::now`. The result depends on when the call happens, so
/// nothing is promised of it.
#[verifier::external_body]
pub(crate) fn instant_now() -> Instant {
    Instant::now()
}

/// Calls `Instant::elapsed`. The result depends on when the call happens,
/// so nothing is promised of it.
#[verifier::external_body]
pub(crate) fn instant_elapsed(t: &Instant) -> Duration {
    t.elapsed()
}

/// Calls `Duration::as_millis`. The whole milliseconds of a duration
/// whose value Verus cannot see; nothing is promised of the result.
#[verifier::external_body]
pub(crate) fn duration_millis(d: &Duration) -> u128 {
    d.as_millis()
}

/// Whether a sample taken `since_ms` milliseconds ago is due for a
/// refresh under a window of `window_ms`; no sample at all always is.
pub open spec fn is_stale(since_ms: Option<u128>, window_ms: u128) -> bool {
    match since_ms {
        Some(ms) => ms >= window_ms,
        None => true,
    }
}

/// Whether a sample taken `since_ms` milliseconds ago (`None`: never
/// taken) is due for a refresh under a window of `window_ms`.
pub fn stale(since_ms: Option<u128>, window_ms: u128) -> (r: bool)
    ensures
        r == is_stale(since_ms, window_ms),
{
    match since_ms {
        Some(ms) => ms >= window_ms,
        None => true,
    }
}

/// The whole milliseconds passed since `t`, as the clock reads them; the
/// reading depends on when the call happens, so nothing is promised of it.
pub(crate) fn millis_since(t: &Instant) -> u128 {
    let d = instant_elapsed(t);
    duration_millis(&d)
}

} // verus!
