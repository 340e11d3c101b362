//! Access to the wall clock.
//!
//! Every time-dependent operation of the engine has a fully specified twin
//! that takes the current time as an argument; the functions here only feed
//! those twins. Nothing is assumed about the value the clock returns: it may
//! jump backwards, and the contracts of the callers say what holds of every
//! outcome.

use vstd::prelude::*;
use crate::Millis;

verus! {

/// Relies on `std::time::SystemTime::now` and
/// `SystemTime::duration_since`: the current wall-clock time as a count of
/// milliseconds since the Unix epoch, negative for a clock set before it
/// and clamped to the machine range. `duration_since` returns its `Err`
/// carrier — never panicking — when the epoch lies in the future, so this
/// call is total whatever the machine's clock says; the value itself
/// depends on that clock, so nothing is promised of it.
#[verifier::external_body]
pub(crate) fn now_millis() -> Millis {
    match std::time::SystemTime::now().duration_since(std::time::UNIX_EPOCH) {
        Ok(since) => since.as_millis().min(i64::MAX as u128) as i64,
        Err(e) => -(e.duration().as_millis().min(i64::MAX as u128) as i64),
    }
}

} // verus!
