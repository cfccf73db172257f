//! Time as the rest of the library sees it: whole seconds since the Unix
//! epoch, read and rendered through `chrono`.
use vstd::prelude::*;

verus! {

/// RFC 3339 text that `chrono` gives for the UTC instant `secs`.
pub uninterp spec fn rfc3339_text(secs: int) -> Seq<char>;

/// Relies on `chrono::DateTime::from_timestamp` and `DateTime::to_rfc3339`:
/// the RFC 3339 text of a UTC instant, `None` when chrono cannot represent it.
#[verifier::external_body]
pub fn rfc3339_of(secs: i64) -> (r: Option<String>)
    ensures
        match r {
            Some(s) => s@ == rfc3339_text(secs as int),
            None => true,
        },
{
    chrono::DateTime::from_timestamp(secs, 0).map(|t| t.to_rfc3339())
}

/// Relies on `chrono::Utc::now`: the current time in whole seconds.
#[verifier::external_body]
pub fn unix_now() -> (r: i64) {
    chrono::Utc::now().timestamp()
}

/// Relies on `chrono::Utc::now` and `DateTime::to_rfc3339`: the current
/// time as RFC 3339 text.
#[verifier::external_body]
pub fn now_rfc3339() -> (r: String) {
    chrono::Utc::now().to_rfc3339()
}

} // verus!
