//! Calls into the standard library and outside crates whose results the
//! library does not compute itself, each with what it promises.
use vstd::prelude::*;

use chrono::{DateTime, TimeZone, Utc};
use regex::{Match, Regex};


verus! {

/// Whether `c` is alphabetic or numeric in the Unicode sense
/// (`char::is_alphanumeric`).
pub uninterp spec fn alphanumeric(c: char) -> bool;

/// `char::is_alphanumeric`: true when `c` has the Unicode Alphabetic or a
/// Numeric property. The result is named: it depends on `c` alone; the
/// Unicode tables behind it are not stated here.
#[verifier::external_body]
pub(crate) fn is_alphanumeric(c: char) -> (r: bool)
    ensures
        r == alphanumeric(c),
{
    c.is_alphanumeric()
}


/// The RFC 3339 text of the UTC time `ms` milliseconds after the Unix epoch,
/// or none when that time is out of chrono's range.
pub uninterp spec fn rfc3339_from_millis(ms: i64) -> Option<Seq<char>>;

/// `Utc.timestamp_millis_opt(ms).single()` followed by
/// `DateTime::to_rfc3339` (chrono). The result is named: it depends on `ms`
/// alone; the calendar arithmetic behind it is not stated here.
#[verifier::external_body]
pub(crate) fn millis_to_rfc3339(ms: i64) -> (r: Option<String>)
    ensures
        match r {
            Some(s) => rfc3339_from_millis(ms) == Some(s@),
            None => rfc3339_from_millis(ms) is None,
        },
{
    Utc.timestamp_millis_opt(ms).single().as_ref().map(DateTime::to_rfc3339)
}


/// The text of capture group `group` in the first match of the regular
/// expression `pattern` in `haystack`; none when `pattern` is not a valid
/// expression, nothing matches, or the group took no part in the match.
pub uninterp spec fn regex_capture(pattern: Seq<char>, haystack: Seq<char>, group: usize) -> Option<
    Seq<char>,
>;

/// `Regex::new(pattern)`, `Regex::captures` and `Captures::get` (regex).
/// The result is named: it depends on the arguments alone; the matching
/// rules of regular expressions are not stated here.
#[verifier::external_body]
pub(crate) fn first_capture(pattern: &str, haystack: &str, group: usize) -> (r: Option<String>)
    ensures
        match r {
            Some(s) => regex_capture(pattern@, haystack@, group) == Some(s@),
            None => regex_capture(pattern@, haystack@, group) is None,
        },
{
    let regex = Regex::new(pattern).ok()?;
    let captures = regex.captures(haystack)?;
    captures.get(group).as_ref().map(Match::as_str).map(str::to_owned)
}

/// The text that a JSON string literal stands for, or none when `text` is
/// not exactly one JSON string.
pub uninterp spec fn json_string_value(text: Seq<char>) -> Option<Seq<char>>;

/// `serde_json::from_str::<String>`. The result is named: it depends on
/// `text` alone; JSON's escapes are not spelt out here.
#[verifier::external_body]
pub(crate) fn decode_json_string(text: &str) -> (r: Result<String, serde_json::Error>)
    ensures
        match r {
            Ok(s) => json_string_value(text@) == Some(s@),
            Err(_) => json_string_value(text@) is None,
        },
{
    serde_json::from_str::<String>(text)
}

} // verus!
