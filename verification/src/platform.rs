use vstd::prelude::*;

verus! {

/// Reads the wall clock through `std::time::SystemTime::now`, as nanoseconds since the Unix
/// epoch (0 when the clock stands before the epoch). Nothing is promised of the value: it
/// depends on the time, and the wall clock may even step backwards.
#[verifier::external_body]
pub(crate) fn clock_now() -> u64 {
    match std::time::SystemTime::now().duration_since(std::time::UNIX_EPOCH) {
        Ok(elapsed) => elapsed.as_nanos() as u64,
        Err(_) => 0,
    }
}

} // verus!
