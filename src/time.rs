use vstd::prelude::*;

use crate::error::GitsError;

verus! {

/// An instant in UTC: whole seconds since the Unix epoch and the nanoseconds
/// past that second (a leap second shows as `nanos` of one billion or more).
#[derive(Debug, Clone, Copy, PartialEq, Eq, Structural)]
pub struct Timestamp {
    pub secs: i64,
    pub nanos: u32,
}

/// `a` is strictly earlier than `b`.
pub open spec fn earlier(a: Timestamp, b: Timestamp) -> bool {
    a.secs < b.secs || (a.secs == b.secs && a.nanos < b.nanos)
}

impl Timestamp {
    /// Whether this instant is strictly earlier than `other`.
    pub fn is_before(&self, other: &Timestamp) -> (r: bool)
        ensures
            r == earlier(*self, *other),
    {
        self.secs < other.secs || (self.secs == other.secs && self.nanos < other.nanos)
    }
}

/// The instant that a date-time text denotes, as seconds since the epoch and
/// nanoseconds past the second, in chrono's relaxed RFC 3339 (a space may stand
/// for the `T`, and the offset may be written without a colon); `None` where
/// the text is not one.
pub uninterp spec fn rfc3339_instant(s: Seq<char>) -> Option<(i64, u32)>;

/// Relies on chrono's `FromStr` for `DateTime<Utc>` (relaxed RFC 3339, converted to UTC)
/// and on `DateTime::timestamp` and `DateTime::timestamp_subsec_nanos`.
#[verifier::external_body]
fn parse_instant(s: &str) -> (r: Option<(i64, u32)>)
    ensures
        r == rfc3339_instant(s@),
{
    match s.parse::<chrono::DateTime<chrono::Utc>>() {
        Ok(dt) => Some((dt.timestamp(), dt.timestamp_subsec_nanos())),
        Err(_) => None,
    }
}

/// The timestamp that `s` denotes, as an API's `created_at` or a configured
/// watermark writes it; a `ParseError` holding `s` where it is malformed.
pub open spec fn timestamp_of(s: Seq<char>) -> Option<Timestamp> {
    match rfc3339_instant(s) {
        Some(i) => Some(Timestamp { secs: i.0, nanos: i.1 }),
        None => None,
    }
}

/// Reads a date-time in chrono's relaxed RFC 3339.
pub fn parse_timestamp(s: &str) -> (r: Result<Timestamp, GitsError>)
    ensures
        r is Ok <==> timestamp_of(s@) is Some,
        r matches Ok(t) ==> timestamp_of(s@) == Some(t),
        r matches Err(e) ==> e matches GitsError::ParseError(input) && input@ == s@,
{
    match parse_instant(s) {
        Some((secs, nanos)) => Ok(Timestamp { secs, nanos }),
        None => Err(GitsError::ParseError(s.to_owned())),
    }
}

} // verus!
