use chrono::Datelike;
use vstd::prelude::*;

verus! {

/// A point in time as a feed gives it: the UTC instant in whole seconds,
/// beside the calendar date in the timestamp's own offset, which the
/// digest prints. Entries are ordered by `secs` alone.
#[derive(Clone, Copy, PartialEq, Eq, Structural, Debug)]
pub struct Timestamp {
    pub secs: i64,
    pub year: i32,
    pub month: u32,
    pub day: u32,
}

/// A timestamp the digest can print: every calendar field within the
/// range that a `YYYY-MM-DD` line can carry.
pub open spec fn ts_valid(t: Timestamp) -> bool {
    &&& 0 <= t.year <= 9999
    &&& 1 <= t.month <= 12
    &&& 1 <= t.day <= 31
}

/// What the lenient multi-format date parser makes of a date string, read
/// as this library's calendar fields. A function of the characters alone:
/// every format that parser recognises either carries its own offset or is
/// taken as UTC, so no machine state enters the result.
pub uninterp spec fn date_parse_of(s: Seq<char>) -> Option<Timestamp>;

/// Relies on `diligent_date_parser::parse_date` for the lenient date parse,
/// and on chrono's `timestamp`, `year`, `month` and `day` accessors to read
/// the parsed value's instant and calendar fields.
#[verifier::external_body]
fn parse_date_raw(s: &str) -> (r: Option<Timestamp>)
    ensures
        r == date_parse_of(s@),
{
    diligent_date_parser::parse_date(s).map(|d| Timestamp {
        secs: d.timestamp(),
        year: d.year(),
        month: d.month(),
        day: d.day(),
    })
}

/// The date a feed entry may carry: what the lenient parser makes of `s`,
/// kept only when its calendar fields are printable.
pub open spec fn checked_date_of(s: Seq<char>) -> Option<Timestamp> {
    match date_parse_of(s) {
        Some(t) => if ts_valid(t) { Some(t) } else { None },
        None => None,
    }
}

/// Parses a feed date string and validates its calendar fields.
pub fn parse_feed_date(s: &str) -> (r: Option<Timestamp>)
    ensures
        r == checked_date_of(s@),
{
    match parse_date_raw(s) {
        Some(t) => {
            if 0 <= t.year && t.year <= 9999 && 1 <= t.month && t.month <= 12 && 1 <= t.day
                && t.day <= 31 {
                Some(t)
            } else {
                None
            }
        },
        None => None,
    }
}

} // verus!
