//! Reading of the system clock.

use vstd::prelude::*;

verus! {

/// Relies on std::time::SystemTime::now, read as whole milliseconds since
/// std::time::UNIX_EPOCH. A clock reading depends on the machine and the
/// moment, so nothing is assumed of its value; a reading before the epoch
/// yields 0.
#[verifier::external_body]
pub(crate) fn clock_now_ms() -> u64 {
    match std::time::SystemTime::now().duration_since(std::time::UNIX_EPOCH) {
        Ok(d) => d.as_millis() as u64,
        Err(_) => 0,
    }
}

} // verus!
