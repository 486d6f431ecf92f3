//! Dates as the tables of a report write them.

use vstd::prelude::*;

verus! {

/// A moment: the whole seconds since the start of the year 1970, and the
/// billionths of a second after them. Within a leap second the billionths
/// count on beyond one billion.
#[derive(Debug, Clone, Copy, PartialEq, Eq)]
pub struct Stamp {
    pub secs: i64,
    pub nanos: u32,
}

/// `chrono::format::ParseError`: why a text is no date.
#[verifier::external_type_specification]
#[verifier::external_body]
pub struct ExParseError(chrono::format::ParseError);

/// The seconds and billionths of the date and time that the text `s` writes
/// by the format `format`, where it writes one.
pub uninterp spec fn read(s: Seq<char>, format: Seq<char>) -> Option<(i64, u32)>;

/// `chrono::NaiveDateTime::parse_from_str` reads a date and a time from `s`
/// by `format`, or says why `s` writes none; which of the two, and which
/// date, depends on the two texts alone. The date is handed out as
/// `and_utc().timestamp()` and `and_utc().timestamp_subsec_nanos()` count it.
#[verifier::external_body]
fn parse_from_str(s: &str, format: &str) -> (r: Result<Stamp, chrono::format::ParseError>)
    ensures
        match r {
            Ok(t) => read(s@, format@) == Some((t.secs, t.nanos)),
            Err(_) => read(s@, format@) is None,
        },
{
    match chrono::NaiveDateTime::parse_from_str(s, format) {
        Ok(date) => Ok(
            Stamp {
                secs: date.and_utc().timestamp(),
                nanos: date.and_utc().timestamp_subsec_nanos(),
            },
        ),
        Err(e) => Err(e),
    }
}

/// How a date is written: year, month, day, hour, minute, second and the
/// billionths of the second.
pub open spec fn plain_format() -> Seq<char> {
    "%Y-%m-%d %H:%M:%S.%f"@
}

/// How a date is written with the offset of its time zone behind it.
pub open spec fn zoned_format() -> Seq<char> {
    "%Y-%m-%d %H:%M:%S.%f%:z"@
}

/// Reads a date that is written with the offset of a time zone, or else
/// without one. Where `s` is neither, says why it is no date without an
/// offset.
pub fn parse(s: &str) -> (r: Result<Stamp, chrono::format::ParseError>)
    ensures
        match read(s@, zoned_format()) {
            Some(t) => r matches Ok(stamp) && (stamp.secs, stamp.nanos) == t,
            None => match read(s@, plain_format()) {
                Some(t) => r matches Ok(stamp) && (stamp.secs, stamp.nanos) == t,
                None => r is Err,
            },
        },
{
    match parse_from_str(s, "%Y-%m-%d %H:%M:%S.%f%:z") {
        Ok(stamp) => Ok(stamp),
        Err(_) => parse_from_str(s, "%Y-%m-%d %H:%M:%S.%f"),
    }
}

} // verus!
