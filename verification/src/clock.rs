//! Readings of the system clock and the machine, and time spans.
use vstd::prelude::*;

verus! {

/// The duration of `secs` whole seconds (`Duration::from_secs`).
pub uninterp spec fn secs_duration(secs: u64) -> std::time::Duration;

/// `Duration::from_secs`: a span of `secs` whole seconds.
#[verifier::external_body]
pub fn duration_from_secs(secs: u64) -> (d: std::time::Duration)
    ensures
        d == secs_duration(secs),
{
    std::time::Duration::from_secs(secs)
}

/// `Duration::as_secs`: the whole seconds of a span.
#[verifier::external_body]
pub fn duration_as_secs(d: &std::time::Duration) -> (s: u64)
    ensures
        forall|x: u64| *d == secs_duration(x) ==> s == x,
{
    d.as_secs()
}

/// Whole seconds since the Unix epoch (`SystemTime::now`); `0` when the
/// clock reads earlier than the epoch. The reading itself is not stated.
#[verifier::external_body]
pub fn unix_secs() -> (r: u64) {
    match std::time::SystemTime::now().duration_since(std::time::UNIX_EPOCH) {
        Ok(d) => d.as_secs(),
        Err(_) => 0,
    }
}

/// Declares `std::time::Instant`, a reading of the monotonic clock.
#[verifier::external_type_specification]
#[verifier::external_body]
pub struct ExInstant(std::time::Instant);

/// `Instant::now`: the monotonic clock's reading. Nothing is stated of it.
#[verifier::external_body]
pub fn instant_now() -> (r: std::time::Instant) {
    std::time::Instant::now()
}

/// `Instant::elapsed`: nanoseconds on the monotonic clock since `origin`,
/// truncated to 64 bits. The reading itself is not stated.
#[verifier::external_body]
pub fn nanos_since(origin: &std::time::Instant) -> (r: u64) {
    origin.elapsed().as_nanos() as u64
}

/// The sub-second nanoseconds of the current time since the Unix epoch
/// (`Duration::subsec_nanos`), `0` when the clock reads earlier than the
/// epoch; always below one billion.
#[verifier::external_body]
pub fn unix_subsec_nanos() -> (r: u32)
    ensures
        r < 1_000_000_000,
{
    match std::time::SystemTime::now().duration_since(std::time::UNIX_EPOCH) {
        Ok(d) => d.subsec_nanos(),
        Err(_) => 0,
    }
}

/// `Duration::clone`: `Duration` is `Copy`, so a clone is the same span.
pub assume_specification[ <std::time::Duration as std::clone::Clone>::clone ](
    d: &std::time::Duration,
) -> (r: std::time::Duration)
    ensures
        r == *d,
;

/// `num_cpus::get`: the number of CPUs this process may use; at least one.
#[verifier::external_body]
pub fn cpu_count() -> (r: usize)
    ensures
        r >= 1,
{
    num_cpus::get()
}

} // verus!
