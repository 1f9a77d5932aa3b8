//! Reading and writing instants, through chrono.

use vstd::prelude::*;
use crate::sale::Timestamp;

verus! {

/// The instant an RFC 3339 date-time denotes, as seconds and nanoseconds since
/// the Unix epoch; `None` when the text is not one.
pub uninterp spec fn rfc3339_instant(s: Seq<char>) -> Option<(i64, u32)>;

/// The text chrono gives for the UTC date-time of an instant.
pub uninterp spec fn utc_text_of(secs: i64, nanos: u32) -> Seq<char>;

/// Relies on chrono's `DateTime::parse_from_rfc3339`, read as an instant
/// through `timestamp` and `timestamp_subsec_nanos`.
#[verifier::external_body]
fn parse_rfc3339(s: &str) -> (r: Option<(i64, u32)>)
    ensures
        r == rfc3339_instant(s@),
{
    match chrono::DateTime::parse_from_rfc3339(s) {
        Ok(d) => Some((d.timestamp(), d.timestamp_subsec_nanos())),
        Err(_) => None,
    }
}

/// Relies on chrono's `DateTime::<Utc>::from_timestamp` and its `Display`.
#[verifier::external_body]
fn utc_text(secs: i64, nanos: u32) -> (r: String)
    ensures
        r@ == utc_text_of(secs, nanos),
{
    match chrono::DateTime::<chrono::Utc>::from_timestamp(secs, nanos) {
        Some(d) => d.to_string(),
        None => String::new(),
    }
}

impl Timestamp {
    /// The instant of an RFC 3339 date-time, if the text is one.
    pub fn parse(s: &str) -> (r: Option<Timestamp>)
        ensures
            r == (match rfc3339_instant(s@) {
                Some(p) => Some(Timestamp { secs: p.0, nanos: p.1 }),
                None => None::<Timestamp>,
            }),
    {
        match parse_rfc3339(s) {
            Some(p) => Some(Timestamp { secs: p.0, nanos: p.1 }),
            None => None,
        }
    }

    /// The instant as a UTC date-time text.
    pub fn to_text(&self) -> (r: String)
        ensures
            r@ == utc_text_of(self.secs, self.nanos),
    {
        utc_text(self.secs, self.nanos)
    }
}

} // verus!
