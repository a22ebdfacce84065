//! The time of a write, as text.

use vstd::prelude::*;

verus! {

/// Calls `chrono::Local::now` and formats the moment as local date and time
/// with microseconds. Trusted, and nothing is claimed of the text: it
/// depends on the clock and on the machine's time zone.
#[verifier::external_body]
pub(crate) fn local_timestamp() -> String {
    chrono::Local::now().format("%Y-%m-%dT%H:%M:%S%.6f").to_string()
}

} // verus!
