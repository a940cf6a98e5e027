//! RFC 3339 timestamps, as `chrono` reads them.

use vstd::prelude::*;

verus! {

/// `chrono` accepts `s` as an RFC 3339 date and time.
pub uninterp spec fn rfc3339_valid(s: Seq<char>) -> bool;

/// `chrono::DateTime::parse_from_rfc3339` succeeds on `s`. Whether it does
/// depends on the text alone and is left to [`rfc3339_valid`].
#[verifier::external_body]
pub(crate) fn is_rfc3339(s: &str) -> (r: bool)
    ensures
        r == rfc3339_valid(s@),
{
    chrono::DateTime::parse_from_rfc3339(s).is_ok()
}

} // verus!
