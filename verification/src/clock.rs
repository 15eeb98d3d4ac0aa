//! The wall clock: the time of day in milliseconds since the Unix epoch.
//!
//! The clock is read by three small calls into the standard library; what
//! is made of them is verified. Nothing is known of the time itself.

use vstd::prelude::*;

verus! {

/// A point in time as the system clock gives it.
#[verifier::external_type_specification]
#[verifier::external_body]
pub struct ExSystemTime(std::time::SystemTime);

/// Calls `SystemTime::now`. Nothing is promised of the value.
#[verifier::external_body]
fn system_now() -> (t: std::time::SystemTime) {
    std::time::SystemTime::now()
}

/// Calls `SystemTime::duration_since` with the Unix epoch: the time that
/// has passed since then, or `None` where `t` lies before it. Nothing is
/// promised of the value.
#[verifier::external_body]
fn since_epoch(t: &std::time::SystemTime) -> (d: Option<core::time::Duration>) {
    match t.duration_since(std::time::UNIX_EPOCH) {
        Ok(d) => Some(d),
        Err(_) => None,
    }
}

/// Calls `Duration::as_millis`. Nothing is promised of the value.
#[verifier::external_body]
fn millis_of(d: &core::time::Duration) -> (ms: u128) {
    d.as_millis()
}

/// The time in milliseconds since the Unix epoch: 0 for a clock set before
/// it, and the largest value where the milliseconds do not fit.
pub(crate) fn now_ms() -> (t: u64) {
    let now = system_now();
    match since_epoch(&now) {
        Some(since) => {
            let ms = millis_of(&since);
            if ms > 0xffff_ffff_ffff_ffffu128 {
                u64::MAX
            } else {
                ms as u64
            }
        },
        None => 0,
    }
}

} // verus!
