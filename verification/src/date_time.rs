//! Points in time, as feed entries carry them.

use crate::text::text_view;
use vstd::prelude::*;

verus! {

/// An instant on the UTC time line: whole seconds since the Unix epoch and
/// the nanoseconds past that second. The field order makes the derived order
/// the chronological one.
#[derive(Debug, Clone, Copy, PartialEq, Eq, PartialOrd, Ord, Hash, Structural)]
pub struct DateTime {
    pub secs: i64,
    pub nanos: u32,
}

/// The instant that chrono reads out of an RFC 2822 date, as seconds since
/// the epoch and nanoseconds; `None` for a text that chrono rejects.
pub uninterp spec fn rfc2822_instant(text: Seq<char>) -> Option<(i64, u32)>;

/// The text that chrono writes for an instant, at an offset of 0 from UTC:
/// the date, `T`, the time of day and `+00:00`; `None` for an instant beyond
/// the dates that chrono can hold.
pub uninterp spec fn instant_text(secs: i64, nanos: u32) -> Option<Seq<char>>;

/// The `DateTime` that a date text stands for, if any.
pub open spec fn parsed_date(text: Seq<char>) -> Option<DateTime> {
    match rfc2822_instant(text) {
        Some((secs, nanos)) => Some(DateTime { secs, nanos }),
        None => None,
    }
}

impl DateTime {
    /// Strictly earlier than `other`.
    pub open spec fn before(self, other: DateTime) -> bool {
        self.secs < other.secs || (self.secs == other.secs && self.nanos < other.nanos)
    }

    /// Strictly later than `other`.
    pub open spec fn after(self, other: DateTime) -> bool {
        other.before(self)
    }

    /// The later of two instants.
    pub open spec fn later_of(self, other: DateTime) -> DateTime {
        if self.before(other) {
            other
        } else {
            self
        }
    }

    /// Reads an RFC 2822 date such as `Wed, 18 Feb 2015 23:16:09 GMT`.
    pub fn parse_rfc2822(date: &str) -> (r: Option<DateTime>)
        ensures
            r == parsed_date(date@),
    {
        match chrono_parse_rfc2822(date) {
            Some((secs, nanos)) => Some(DateTime { secs, nanos }),
            None => None,
        }
    }

    /// The instant as text, such as `2015-02-18T23:16:09+00:00`; `None` for
    /// an instant beyond the dates that can be written.
    pub fn to_string(&self) -> (r: Option<String>)
        ensures
            text_view(r) == instant_text(self.secs, self.nanos),
    {
        chrono_format(self.secs, self.nanos)
    }

    /// Whether this instant is strictly earlier than `other`.
    pub fn is_before(&self, other: &DateTime) -> (r: bool)
        ensures
            r == self.before(*other),
    {
        self.secs < other.secs || (self.secs == other.secs && self.nanos < other.nanos)
    }

    /// Whether this instant is strictly later than `other`.
    pub fn is_after(&self, other: &DateTime) -> (r: bool)
        ensures
            r == self.after(*other),
    {
        other.is_before(self)
    }
}

/// Calls `chrono::DateTime::parse_from_rfc2822` and hands back the parsed
/// instant as `timestamp()` and `timestamp_subsec_nanos()` give it. Trusted:
/// the result is chrono's, a function of the text alone.
#[verifier::external_body]
fn chrono_parse_rfc2822(text: &str) -> (r: Option<(i64, u32)>)
    ensures
        r == rfc2822_instant(text@),
{
    match chrono::DateTime::parse_from_rfc2822(text) {
        Ok(parsed) => Some((parsed.timestamp(), parsed.timestamp_subsec_nanos())),
        Err(_) => None,
    }
}

/// Calls `chrono::DateTime::from_timestamp` and writes the instant it
/// gives, at a fixed offset of 0, with chrono's `Debug`. Trusted: the result
/// is chrono's, a function of the two numbers alone; `None` where
/// `from_timestamp` gives none.
#[verifier::external_body]
fn chrono_format(secs: i64, nanos: u32) -> (r: Option<String>)
    ensures
        text_view(r) == instant_text(secs, nanos),
{
    match chrono::DateTime::from_timestamp(secs, nanos) {
        Some(instant) => Some(format!("{:?}", instant.fixed_offset())),
        None => None,
    }
}

} // verus!
