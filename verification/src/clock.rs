//! Wall-clock time for the in-memory stores that age their entries.

use vstd::prelude::*;

verus! {

/// `SystemTime::now()` as milliseconds since the Unix epoch (0 when the
/// clock reads before the epoch). Nothing is promised of the value: it is
/// whatever the system clock reads.
#[verifier::external_body]
pub(crate) fn now_ms() -> u64 {
    std::time::SystemTime::now().duration_since(std::time::UNIX_EPOCH).map(
        |d| u64::try_from(d.as_millis()).unwrap_or(u64::MAX),
    ).unwrap_or(0)
}

} // verus!
