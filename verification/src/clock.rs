//! The wall clock, taken on trust.

use vstd::prelude::*;

verus! {

/// Relies on `std::time::SystemTime::now` for the seconds since the Unix
/// epoch; nothing is assumed of the value. A clock before the epoch reads
/// as zero.
#[verifier::external_body]
pub fn now_unix_secs() -> (r: u64) {
    std::time::SystemTime::now().duration_since(std::time::UNIX_EPOCH).map(
        |d| d.as_secs(),
    ).unwrap_or(0)
}

} // verus!
