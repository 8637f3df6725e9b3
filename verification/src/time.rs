use vstd::prelude::*;

verus! {

/// `embassy_time::Instant`, carried through the matrix state as an opaque value.
#[verifier::external_type_specification]
#[verifier::external_body]
pub struct ExInstant(embassy_time::Instant);

/// Calls `embassy_time::Instant::now`, which reads the time driver's clock.
/// The result depends on the clock alone, so nothing is stated of it.
#[verifier::external_body]
pub(crate) fn instant_now() -> (now: embassy_time::Instant) {
    embassy_time::Instant::now()
}

/// Calls `embassy_time::Instant::elapsed` on `start` and converts the
/// duration with `embassy_time::Duration::as_millis` (whole milliseconds,
/// rounded down).  The result depends on the clock, so nothing is stated of
/// it.  `elapsed` would panic only if the clock went backwards past `start`;
/// the instants given here all come from `instant_now`, and the embassy time
/// driver is monotonic.
#[verifier::external_body]
pub(crate) fn elapsed_millis(start: &embassy_time::Instant) -> (ms: u64) {
    start.elapsed().as_millis()
}

} // verus!
