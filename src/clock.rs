use vstd::prelude::*;

verus! {

#[verifier::external_type_specification]
#[verifier::external_body]
pub struct ExSystemTime(std::time::SystemTime);

#[verifier::external_type_specification]
#[verifier::external_body]
pub struct ExSystemTimeError(std::time::SystemTimeError);

/// Relies on `SystemTime::now`, which reads the wall clock; nothing is known
/// of the reading.
pub assume_specification[ std::time::SystemTime::now ]() -> std::time::SystemTime;

/// Relies on `SystemTime::duration_since`, which fails where `earlier` lies
/// after `self`; which of the two comes back depends on the readings.
pub assume_specification[ std::time::SystemTime::duration_since ](
    t: &std::time::SystemTime,
    earlier: std::time::SystemTime,
) -> Result<core::time::Duration, std::time::SystemTimeError>;

/// Relies on `Duration::as_secs`, the whole seconds of a span.
pub assume_specification[ core::time::Duration::as_secs ](d: &core::time::Duration) -> u64;

/// Relies on `std::time::UNIX_EPOCH`, the time 1970-01-01 00:00:00 UTC.
#[verifier::external_body]
fn unix_epoch() -> std::time::SystemTime {
    std::time::UNIX_EPOCH
}

/// The wall-clock time in whole seconds since the Unix epoch, or `None`
/// where the clock reads a time before the epoch.
pub fn now() -> (r: Option<u64>) {
    match std::time::SystemTime::now().duration_since(unix_epoch()) {
        Ok(d) => Some(d.as_secs()),
        Err(_) => None,
    }
}

} // verus!
