//! The wall clock, read in milliseconds.

use vstd::prelude::*;

verus! {

/// Relies on std's `SystemTime::now` and `SystemTime::duration_since`: the
/// milliseconds elapsed since the Unix epoch, or 0 for a clock set before it.
/// Nothing is assumed of the value: the clock may jump either way.
#[verifier::external_body]
pub(crate) fn now_millis() -> (r: u64) {
    match std::time::SystemTime::now().duration_since(std::time::UNIX_EPOCH) {
        Ok(d) => d.as_millis() as u64,
        Err(_) => 0,
    }
}

} // verus!
