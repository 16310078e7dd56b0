use std::time::{Duration, SystemTime, SystemTimeError, UNIX_EPOCH};
use uuid::Uuid;
use vstd::prelude::*;

verus! {

#[verifier::external_type_specification]
#[verifier::external_body]
pub struct ExSystemTime(SystemTime);

#[verifier::external_type_specification]
#[verifier::external_body]
pub struct ExSystemTimeError(SystemTimeError);

#[verifier::external_type_specification]
#[verifier::external_body]
pub struct ExUuid(Uuid);

/// `SystemTime::now`: the time on the system clock; nothing is known of it.
#[verifier::external_body]
fn clock_now() -> SystemTime {
    SystemTime::now()
}

/// `SystemTime::duration_since(UNIX_EPOCH)`: how long after the Unix epoch a time
/// lies, or an error when it lies before; nothing is promised of either.
#[verifier::external_body]
fn since_epoch(time: &SystemTime) -> Result<Duration, SystemTimeError> {
    time.duration_since(UNIX_EPOCH)
}

/// `Duration::as_secs`: the whole seconds of a duration.
#[verifier::external_body]
fn whole_seconds(duration: &Duration) -> u64 {
    duration.as_secs()
}

/// `Uuid::new_v4`: a random version-4 identifier; nothing is known of it.
#[verifier::external_body]
fn random_uuid() -> Uuid {
    Uuid::new_v4()
}

/// `Uuid`'s `Display` (via `ToString::to_string`): the identifier's text,
/// in the hyphenated form, which is 36 characters long.
#[verifier::external_body]
fn uuid_text(id: &Uuid) -> (r: String)
    ensures
        r@.len() == 36,
{
    id.to_string()
}

/// Seconds since the Unix epoch by the system clock, 0 when the clock reads
/// before the epoch.
pub fn now_secs() -> i64 {
    match since_epoch(&clock_now()) {
        Ok(duration) => {
            let secs = whole_seconds(&duration);
            #[verifier::truncate]
            (secs as i64)
        },
        Err(_) => 0,
    }
}

/// A fresh random identifier in the text form of a UUID.
pub fn new_id() -> (r: String)
    ensures
        r@.len() == 36,
{
    uuid_text(&random_uuid())
}

} // verus!
