//! The time of an operation.

use vstd::prelude::*;

use crate::error::AliazError;
use crate::error::Failure;

verus! {

/// A reading of the system clock: the seconds since the beginning of 1970, or nothing where the
/// clock gives an earlier time.
#[derive(Debug)]
pub struct Clock {
    pub seconds: Option<u64>,
}

/// The time as it is stored. It wraps around where it does not fit.
pub open spec fn time_of(clock: Clock) -> Option<i64> {
    match clock.seconds {
        Some(seconds) => Some(#[verifier::truncate] (seconds as i64)),
        None => None,
    }
}

/// The time as it is stored.
pub fn now_unix(clock: &Clock) -> (r: Result<i64, AliazError>)
    ensures
        match time_of(*clock) {
            Some(t) => r == Ok::<i64, AliazError>(t),
            None => r matches Err(e) && e@ == Failure::ClockBeforeEpoch,
        },
{
    match clock.seconds {
        Some(seconds) => Ok(#[verifier::truncate] (seconds as i64)),
        None => Err(AliazError::ClockBeforeEpoch),
    }
}

/// A time after the beginning of 1970 is stored as it is, as long as it fits.
pub proof fn law_time(clock: Clock)
    ensures
        time_of(clock) is Some <==> clock.seconds is Some,
        clock.seconds matches Some(seconds) ==> (seconds <= i64::MAX ==> time_of(clock) == Some(
            seconds as i64,
        )),
{
}

} // verus!
