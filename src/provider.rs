use vstd::prelude::*;

use crate::clock::now;

verus! {

/// Why the uptime could not be determined.
#[derive(Clone, Copy, Debug, PartialEq, Eq, Structural)]
pub enum UptimeError {
    /// The operating system's answer failed or could not be read.
    Unavailable,
}

impl UptimeError {
    /// A one-line description for a diagnostic.
    pub fn message(&self) -> (r: &'static str)
        ensures
            r@ == "could not determine system uptime"@,
    {
        "could not determine system uptime"
    }
}

/// Uptime from a kernel report of the boot time: `status` is what the kernel
/// call returned (`-1` where it failed), `boot_secs` the boot time and
/// `now_secs` the current time, both in seconds since the Unix epoch.
/// It is `now_secs - boot_secs` where the call succeeded, the clock could be
/// read and the boot time lies between the epoch and now.
pub fn uptime_from_boot_time(status: i32, boot_secs: i64, now_secs: Option<u64>) -> (r: Result<
    u64,
    UptimeError,
>)
    ensures
        r is Ok <==> (status != -1 && now_secs is Some && 0 <= boot_secs <= now_secs.unwrap()),
        r is Ok ==> r.unwrap() == now_secs.unwrap() - boot_secs,
        status == -1 ==> r == Err::<u64, UptimeError>(UptimeError::Unavailable),
{
    if status == -1 {
        return Err(UptimeError::Unavailable);
    }
    match now_secs {
        Some(t) => {
            if boot_secs < 0 || boot_secs as u64 > t {
                Err(UptimeError::Unavailable)
            } else {
                Ok(t - boot_secs as u64)
            }
        },
        None => Err(UptimeError::Unavailable),
    }
}

/// Uptime from a kernel report of the boot time, read against the wall
/// clock now. A failed kernel call (`status == -1`) or a boot time before the
/// epoch always gives `Unavailable`; a success is the time elapsed from
/// `boot_secs` to some reading of the clock, so that the two add up to a
/// time that a `u64` holds.
pub fn uptime_since_boot(status: i32, boot_secs: i64) -> (r: Result<u64, UptimeError>)
    ensures
        status == -1 ==> r == Err::<u64, UptimeError>(UptimeError::Unavailable),
        boot_secs < 0 ==> r is Err,
        r is Ok ==> r.unwrap() + boot_secs <= u64::MAX,
{
    let now_secs = now();
    let r = uptime_from_boot_time(status, boot_secs, now_secs);
    if let Ok(v) = r {
        assert(boot_secs <= now_secs.unwrap() && v == now_secs.unwrap() - boot_secs);
    }
    r
}

/// Uptime from a monotonic clock whose epoch is the boot: `query_ok` says
/// whether the clock could be read and `secs` is the seconds part of the
/// reading. It is `secs` where the read succeeded and the reading is not
/// negative.
pub fn uptime_from_monotonic(query_ok: bool, secs: i64) -> (r: Result<u64, UptimeError>)
    ensures
        r is Ok <==> (query_ok && secs >= 0),
        r is Ok ==> r.unwrap() == secs,
        !query_ok ==> r == Err::<u64, UptimeError>(UptimeError::Unavailable),
{
    if query_ok && secs >= 0 {
        Ok(secs as u64)
    } else {
        Err(UptimeError::Unavailable)
    }
}

} // verus!
