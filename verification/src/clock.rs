//! Trusted boundary to std's wall clock. The engine only ever compares
//! elapsed nanoseconds against the configured budget; everything the
//! clock reports is opaque beyond the `nanos_of` model.

use vstd::prelude::*;
use std::time::Duration;
use std::time::Instant;

verus! {

#[verifier::external_type_specification]
#[verifier::external_body]
pub struct ExInstant(Instant);

/// Relies on std's `Instant::now`: an opaque reading of the monotonic
/// clock. Nothing is assumed of the value.
#[verifier::external_body]
pub(crate) fn now_instant() -> Instant {
    Instant::now()
}

/// Relies on std's `Instant::elapsed`: the time that passed since the
/// reading was taken. Nothing is assumed of the value.
#[verifier::external_body]
pub(crate) fn instant_elapsed(start: &Instant) -> Duration {
    start.elapsed()
}

/// The total number of nanoseconds a duration holds: a pure function of
/// the duration alone.
pub uninterp spec fn nanos_of(d: Duration) -> nat;

/// Relies on std's `Duration::as_nanos`: the total number of nanoseconds
/// contained by the duration.
#[verifier::external_body]
pub(crate) fn duration_as_nanos(d: &Duration) -> (r: u128)
    ensures
        r as nat == nanos_of(*d),
{
    d.as_nanos()
}

/// Relies on std's `Duration::new`, whose result holds exactly the given
/// seconds and nanoseconds; it panics only when the nanosecond carry
/// overflows the seconds counter, which nanoseconds below one second
/// avoid.
#[verifier::external_body]
pub(crate) fn duration_new(secs: u64, nanos: u32) -> (r: Duration)
    requires
        nanos < 1_000_000_000,
    ensures
        nanos_of(r) == secs as nat * 1_000_000_000 + nanos as nat,
{
    Duration::new(secs, nanos)
}

} // verus!
