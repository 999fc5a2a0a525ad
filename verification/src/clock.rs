//! The time of day, as the stores write it into their documents.

use vstd::prelude::*;

verus! {

/// The present moment in UTC as an RFC 3339 text, from
/// `chrono::Utc::now` and `chrono::DateTime::to_rfc3339`.
///
/// Trusted, and nothing is claimed of the text: it depends on the system
/// clock. `chrono` gives up where that clock reads a moment before 1970.
#[verifier::external_body]
pub(crate) fn now_rfc3339() -> (stamp: String) {
    chrono::Utc::now().to_rfc3339()
}

} // verus!
