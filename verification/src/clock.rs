//! The machine's clocks. Nothing is stated of what they read.
use vstd::prelude::*;

verus! {

#[verifier::external_type_specification]
#[verifier::external_body]
pub struct ExInstant(std::time::Instant);

/// `Instant::now()`: a reading of the monotone clock.
#[verifier::external_body]
pub fn instant_now() -> std::time::Instant {
    std::time::Instant::now()
}

/// `Instant::elapsed` in nanoseconds (`Duration::as_nanos`, which fits in
/// `u64` for 584 years). Two readings from one start differ by exactly the
/// time between them. The monotone clock never goes back, but a single
/// reading states nothing of its value.
#[verifier::external_body]
pub fn nanos_since(start: &std::time::Instant) -> u64 {
    start.elapsed().as_nanos() as u64
}

/// The current time since the Unix epoch as whole seconds and the
/// microseconds within the second (`Duration::as_secs`,
/// `Duration::subsec_micros`); the documentation of `subsec_micros` gives
/// the bound on the second component.
#[verifier::external_body]
pub fn clock_secs_micros() -> (r: (u64, u32))
    ensures
        r.1 < 1000000,
{
    let d = std::time::SystemTime::now().duration_since(std::time::UNIX_EPOCH).unwrap_or_default();
    (d.as_secs(), d.subsec_micros())
}

} // verus!
