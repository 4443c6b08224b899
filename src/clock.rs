//! The cluster clock.
use vstd::prelude::*;
use anchor_lang::prelude::{Clock, SolanaSysvar};
use crate::error::ErrorCode;

verus! {

/// Relies on `Clock::get` (the `Sysvar` trait of the Solana runtime): the
/// current Unix time in seconds when the runtime provides the clock, and
/// an error when it does not, as off-chain. Nothing is known of the value.
#[verifier::external_body]
fn read_unix_timestamp() -> (r: Option<i64>) {
    match <Clock as SolanaSysvar>::get() {
        Ok(clock) => Some(clock.unix_timestamp),
        Err(_) => None,
    }
}

/// The current Unix time in seconds. Fails with `InvalidTimestamp` when the
/// clock cannot be read.
pub fn get_current_timestamp() -> (r: Result<i64, ErrorCode>)
    ensures
        r matches Err(e) ==> e == ErrorCode::InvalidTimestamp,
{
    match read_unix_timestamp() {
        Some(now) => Ok(now),
        None => Err(ErrorCode::InvalidTimestamp),
    }
}

/// Seconds from `start` to `end`, or 0 when `end` comes first.
pub fn calculate_time_diff(start: i64, end: i64) -> (r: u64)
    requires
        i64::MIN <= end - start <= i64::MAX,
    ensures
        r == if end >= start {
            end - start
        } else {
            0
        },
{
    let d = end - start;
    if d > 0 {
        d as u64
    } else {
        0
    }
}

} // verus!
