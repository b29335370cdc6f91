//! Calls into the date and pattern matching crates.
use crate::text::text_view;
use chrono::{DateTime, Datelike, NaiveDate, NaiveDateTime, NaiveTime};
use regex::Regex;
use vstd::prelude::*;

verus! {

/// The day, counted from the common era, that `chrono::NaiveDate::parse_from_str` reads.
pub uninterp spec fn parsed_day(text: Seq<char>, format: Seq<char>) -> Option<i32>;

/// Whether `chrono::NaiveTime::parse_from_str` reads a text.
pub uninterp spec fn reads_as_time(text: Seq<char>, format: Seq<char>) -> bool;

/// Whether `chrono::NaiveDateTime::parse_from_str` reads a text.
pub uninterp spec fn reads_as_timestamp(text: Seq<char>, format: Seq<char>) -> bool;

/// The matches of a pattern in a text, as `regex::Regex::find_iter` gives them: where each
/// starts and ends, in characters. None for a text that is no pattern.
pub uninterp spec fn pattern_spans(pattern: Seq<char>, text: Seq<char>) -> Option<
    Seq<(usize, usize)>,
>;

/// Code points that are characters.
pub open spec fn is_scalar(code: nat) -> bool {
    code < 0xd800 || 0xe000 <= code <= 0x10ffff
}

/// `char::from_u32`: the character with a code point, if there is one.
pub assume_specification[ char::from_u32 ](i: u32) -> (c: Option<char>)
    ensures
        c == if is_scalar(i as nat) {
            Some(i as char)
        } else {
            None
        },
;

/// How the time of a change is written.
pub const UTC_FORMAT: &'static str = "%d/%m/%y %H:%M:%S";

/// A time in UTC, given by its seconds and nanoseconds since 1970, as
/// `chrono::DateTime::format` writes it; none for a time that `chrono` cannot hold.
pub uninterp spec fn utc_date_text(seconds: i64, nanos: u32, format: Seq<char>) -> Option<
    Seq<char>,
>;

/// `chrono::NaiveDate::parse_from_str`, the date as its number of days from the common era.
#[verifier::external_body]
pub(crate) fn parse_day(text: &str, format: &str) -> (day: Option<i32>)
    ensures
        day == parsed_day(text@, format@),
{
    NaiveDate::parse_from_str(text, format).ok().map(|date| date.num_days_from_ce())
}

/// `chrono::NaiveTime::parse_from_str`: whether it succeeds.
#[verifier::external_body]
pub(crate) fn is_time(text: &str, format: &str) -> (yes: bool)
    ensures
        yes == reads_as_time(text@, format@),
{
    NaiveTime::parse_from_str(text, format).is_ok()
}

/// `chrono::NaiveDateTime::parse_from_str`: whether it succeeds.
#[verifier::external_body]
pub(crate) fn is_timestamp(text: &str, format: &str) -> (yes: bool)
    ensures
        yes == reads_as_timestamp(text@, format@),
{
    NaiveDateTime::parse_from_str(text, format).is_ok()
}

/// `chrono::DateTime::from_timestamp`, and `format` on what it gives. Only a format that
/// `format` is known to accept may be asked for.
#[verifier::external_body]
pub(crate) fn utc_text(seconds: i64, nanos: u32, format: &str) -> (text: Option<String>)
    requires
        format@ == UTC_FORMAT@,
    ensures
        text_view(text) == utc_date_text(seconds, nanos, format@),
{
    DateTime::from_timestamp(seconds, nanos).map(|time| time.format(format).to_string())
}

/// Spans that lie in a text of `len` characters, in order and apart.
pub open spec fn in_order(spans: Seq<(usize, usize)>, len: nat) -> bool {
    &&& forall|i: int|
        0 <= i < spans.len() ==> (#[trigger] spans[i]).0 <= spans[i].1 && spans[i].1 <= len
    &&& forall|i: int, j: int|
        0 <= i < j < spans.len() ==> (#[trigger] spans[i]).1 <= (#[trigger] spans[j]).0
}

/// `regex::Regex::find_iter`: every match, its byte range turned into positions in
/// characters. Matches lie in the text and do not overlap; none for an invalid pattern.
#[verifier::external_body]
pub(crate) fn find_spans(pattern: &str, text: &str) -> (spans: Option<Vec<(usize, usize)>>)
    ensures
        (match spans {
            Some(v) => Some(v@),
            None => None,
        }) == pattern_spans(pattern@, text@),
        spans matches Some(v) ==> in_order(v@, text@.len()),
{
    let regex = Regex::new(pattern).ok()?;
    Some(
        regex.find_iter(text).map(|m| (text[..m.start()].chars().count(), text[..m.end()].chars().count())).collect(),
    )
}

} // verus!
