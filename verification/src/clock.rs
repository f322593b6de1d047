//! The wall clock.

use vstd::prelude::*;
use std::time::{SystemTime, UNIX_EPOCH};

verus! {

/// `SystemTime::now` and `SystemTime::duration_since` of the standard
/// library: the milliseconds since the Unix epoch, or nothing where the
/// clock stands before the epoch. Nothing is claimed of the number: two
/// readings may be any two values.
#[verifier::external_body]
pub(crate) fn current_unix_ms() -> Option<u64> {
    match SystemTime::now().duration_since(UNIX_EPOCH) {
        Ok(elapsed) => Some(elapsed.as_millis() as u64),
        Err(_) => None,
    }
}

/// The message for a clock that stands before the Unix epoch.
pub open spec fn clock_error() -> Seq<char> {
    "system clock before UNIX_EPOCH"@
}

} // verus!
