use vstd::prelude::*;

verus! {

/// Relies on std::time::SystemTime::now and duration_since: the nanoseconds
/// elapsed since the Unix epoch. The value depends on the moment of the call,
/// so nothing is stated of it.
#[verifier::external_body]
pub(crate) fn now_nanos() -> (r: u64) {
    match std::time::SystemTime::now().duration_since(std::time::UNIX_EPOCH) {
        Ok(d) => d.as_nanos() as u64,
        Err(_) => 0,
    }
}

} // verus!
