//! The machine's clock.
use vstd::prelude::*;

verus! {

/// Current time in milliseconds since the Unix epoch
/// (`SystemTime::now().duration_since(UNIX_EPOCH)`, zero for a clock set
/// before the epoch). Nothing is stated of the value: it is the machine's
/// clock.
#[verifier::external_body]
pub(crate) fn epoch_millis() -> u64 {
    std::time::SystemTime::now().duration_since(std::time::UNIX_EPOCH).unwrap_or_default().as_millis() as u64
}

} // verus!
