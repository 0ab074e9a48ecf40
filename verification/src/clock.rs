//! The wall clock, in milliseconds since the Unix epoch.
use vstd::prelude::*;
use std::time::UNIX_EPOCH;

verus! {

/// Calls `SystemTime::elapsed` on `UNIX_EPOCH` (the time from the epoch to
/// now) and reads the duration in milliseconds. Nothing is claimed of the
/// result: it is the time of day. A clock set before the epoch reads as 0.
#[verifier::external_body]
fn millis_since_epoch() -> u128 {
    match UNIX_EPOCH.elapsed() {
        Ok(d) => d.as_millis(),
        Err(_) => 0,
    }
}

/// The current time in milliseconds since the Unix epoch, saturated to the
/// range of `i64`.
pub fn now_ms() -> (t: i64)
    ensures
        t >= 0,
{
    let ms = millis_since_epoch();
    if ms > 0x7fff_ffff_ffff_ffffu128 {
        0x7fff_ffff_ffff_ffffi64
    } else {
        ms as i64
    }
}

} // verus!
