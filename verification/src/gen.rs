//! Generated record fields: fresh identifiers and creation timestamps.

use vstd::prelude::*;

verus! {

/// Relies on uuid::Uuid::new_v4 and the hyphenated Display form of uuid::Uuid:
/// a fresh random version-4 UUID rendered as 36 ASCII characters (32 lower-case
/// hex digits and 4 hyphens).  The value is random: nothing relates two calls.
#[verifier::external_body]
pub(crate) fn new_id() -> (r: String)
    ensures
        r@.len() == 36,
{
    uuid::Uuid::new_v4().to_string()
}

/// Relies on chrono::Utc::now and chrono::DateTime::to_rfc3339: the current
/// instant in RFC 3339 form.  The value depends on the clock, so nothing is
/// promised of it.
#[verifier::external_body]
pub(crate) fn now_rfc3339() -> (r: String) {
    chrono::Utc::now().to_rfc3339()
}

} // verus!
