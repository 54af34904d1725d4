//! The monotonic time source.
//!
//! Both collections timestamp their entries with the number of nanoseconds of
//! monotonic time elapsed since an origin instant captured at construction.
//! The readings come from `std::time::Instant`, which Verus knows nothing
//! about, so the instant type and the two calls below are trusted; nothing is
//! promised of a reading's value, and every contract downstream holds for
//! whatever value comes back.

use vstd::prelude::*;

verus! {

#[verifier::external_type_specification]
#[verifier::external_body]
pub struct ExInstant(std::time::Instant);

/// Relies on `std::time::Instant::now`: a reading of the process-wide
/// monotonic clock. The value is opaque; it only serves as the origin that
/// later elapsed-time readings are measured from.
pub assume_specification[ std::time::Instant::now ]() -> (r: std::time::Instant);

/// Relies on `std::time::Instant` being `Copy`: its `Clone` is derived, so a
/// clone is the same instant.
pub assume_specification[ <std::time::Instant as Clone>::clone ](origin: &std::time::Instant) -> (r:
    std::time::Instant)
    ensures
        r == *origin,
;

/// Relies on `std::time::Instant::elapsed` and `Duration::as_nanos`: the
/// nanoseconds of monotonic time since `origin`, saturating at `u64::MAX`.
/// The result depends on the time of the call, so nothing is promised of it.
#[verifier::external_body]
pub(crate) fn elapsed_nanos(origin: &std::time::Instant) -> u64 {
    u64::try_from(origin.elapsed().as_nanos()).unwrap_or(u64::MAX)
}

} // verus!
