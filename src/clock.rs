use vstd::prelude::*;

verus! {

/// Relies on std::time::SystemTime::now: whole seconds since the Unix epoch,
/// read from the system clock (zero when the clock is set before the epoch).
/// Nothing is promised of the value.
#[verifier::external_body]
pub(crate) fn unix_now() -> (r: u64) {
    match std::time::SystemTime::now().duration_since(std::time::UNIX_EPOCH) {
        Ok(elapsed) => elapsed.as_secs(),
        Err(_) => 0,
    }
}

} // verus!
