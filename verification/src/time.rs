//! The clock.

use crate::types::ExpirationDate;
use std::time::{Duration, SystemTime, UNIX_EPOCH};
use vstd::prelude::*;

verus! {

/// `Duration::as_secs` gives the whole seconds of a duration. Nothing is
/// said of the number it returns.
pub assume_specification[ Duration::as_secs ](duration: &Duration) -> (seconds: u64)
;

/// Calls `SystemTime::now` and measures the time since the Unix epoch, or
/// none where the clock stands before it. Nothing is said of the result:
/// it is different at every call.
#[verifier::external_body]
pub fn now() -> (since_epoch: Duration) {
    SystemTime::now().duration_since(UNIX_EPOCH).unwrap_or_default()
}

/// Whether `expiration_date` lies before `now_secs`.
pub fn expired_at(now_secs: u64, expiration_date: ExpirationDate) -> (expired: bool)
    ensures
        expired == spec_expired_at(now_secs, expiration_date),
{
    now_secs > expiration_date
}

/// Whether `expiration_date` has passed by the second that this machine's clock shows.
pub fn has_expired(expiration_date: &ExpirationDate) -> (expired: bool)
    ensures
        exists|now_secs: u64| expired == #[trigger] spec_expired_at(now_secs, *expiration_date),
{
    let now_secs: u64 = now().as_secs();
    let expired = expired_at(now_secs, *expiration_date);
    assert(expired == spec_expired_at(now_secs, *expiration_date));
    expired
}

/// Whether `expiration_date` lies before `now_secs`. Whatever second the
/// clock shows, a date that no clock can pass has not expired.
pub open spec fn spec_expired_at(now_secs: u64, expiration_date: ExpirationDate) -> bool {
    now_secs > expiration_date
}

} // verus!
