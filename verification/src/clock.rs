//! Reading the system clock.
use vstd::prelude::*;

use std::time::Duration;
use std::time::SystemTime;
use std::time::SystemTimeError;

verus! {

#[verifier::external_type_specification]
#[verifier::external_body]
pub struct ExSystemTime(SystemTime);

#[verifier::external_type_specification]
#[verifier::external_body]
pub struct ExSystemTimeError(SystemTimeError);

/// How long after the Unix epoch a time is, or none when it is earlier
/// (`SystemTime::duration_since(UNIX_EPOCH)`). It depends on the time alone.
pub uninterp spec fn epoch_offset(t: SystemTime) -> Option<Duration>;

/// The whole seconds of a duration (`Duration::as_secs`). It depends on the
/// duration alone.
pub uninterp spec fn duration_whole_secs(d: Duration) -> u64;

/// The whole seconds since the epoch of a clock reading, 0 when the reading
/// is earlier than the epoch.
pub open spec fn epoch_secs(t: SystemTime) -> u64 {
    match epoch_offset(t) {
        Some(d) => duration_whole_secs(d),
        None => 0,
    }
}

/// `SystemTime::now`: the current time; nothing is known of the value.
#[verifier::external_body]
fn system_now() -> SystemTime {
    SystemTime::now()
}

/// `SystemTime::duration_since(UNIX_EPOCH)`: the time since the epoch, as
/// [`epoch_offset`] names it; an error when the time is earlier.
#[verifier::external_body]
fn since_epoch(t: &SystemTime) -> (r: Result<Duration, SystemTimeError>)
    ensures
        match r {
            Ok(d) => epoch_offset(*t) == Some(d),
            Err(_) => epoch_offset(*t) is None,
        },
{
    t.duration_since(std::time::UNIX_EPOCH)
}

/// `Duration::as_secs`: whole seconds of a duration, as
/// [`duration_whole_secs`] names them.
#[verifier::external_body]
fn whole_secs(d: &Duration) -> (r: u64)
    ensures
        r == duration_whole_secs(*d),
{
    d.as_secs()
}

/// Seconds since the Unix epoch of the clock's current reading, or 0 when
/// the clock reads earlier. Which reading that is depends on the time.
pub fn unix_now_secs() -> (r: u64)
    ensures
        exists|t: SystemTime| r == epoch_secs(t),
{
    let now = system_now();
    let r = match since_epoch(&now) {
        Ok(d) => whole_secs(&d),
        Err(_) => 0,
    };
    assert(r == epoch_secs(now));
    r
}

} // verus!
