//! The wall clock.
use vstd::prelude::*;

verus! {

/// `std::time::SystemTime::now`, as milliseconds since the Unix epoch; none
/// where the clock stands before it. Nothing is known of the value.
#[verifier::external_body]
fn since_epoch() -> Option<u128> {
    std::time::SystemTime::now().duration_since(std::time::UNIX_EPOCH).ok().map(|d| d.as_millis())
}

/// A reading of the clock as a timestamp; before the epoch it is zero.
pub open spec fn stamp(at: Option<u128>) -> i64 {
    match at {
        Some(ms) => ms as i64,
        None => 0,
    }
}

pub fn stamp_of(at: Option<u128>) -> (r: i64)
    ensures
        r == stamp(at),
{
    match at {
        Some(ms) => #[verifier::truncate] (ms as i64),
        None => 0,
    }
}

/// A reading of the clock as unsigned milliseconds.
pub open spec fn ticks(at: Option<u128>) -> u64 {
    match at {
        Some(ms) => ms as u64,
        None => 0,
    }
}

pub fn ticks_of(at: Option<u128>) -> (r: u64)
    ensures
        r == ticks(at),
{
    match at {
        Some(ms) => #[verifier::truncate] (ms as u64),
        None => 0,
    }
}

/// Host wall-clock time in milliseconds since the epoch.
pub fn ms_since_epoch() -> (r: i64)
    ensures
        exists|at: Option<u128>| r == #[trigger] stamp(at),
{
    stamp_of(since_epoch())
}

/// Host wall-clock time in unsigned milliseconds since the epoch.
pub fn now_ms() -> (r: u64)
    ensures
        exists|at: Option<u128>| r == #[trigger] ticks(at),
{
    ticks_of(since_epoch())
}

} // verus!
