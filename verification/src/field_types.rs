//! Whether a value fits the type of its field.
use crate::outside::{
    find_spans, is_time, is_timestamp, parse_day, parsed_day, pattern_spans, reads_as_time,
    reads_as_timestamp,
};
use crate::text::{
    all_decimal, chars_of, is_decimal_digit, lowered, number, parse_unsigned_from, same,
    same_ignoring_case, text_between, to_upper, uppered,
};
use vstd::prelude::*;

verus! {

/// The first position at or after `from` that is no decimal digit.
pub open spec fn digits_end(text: Seq<char>, from: int) -> int
    decreases text.len() - from,
{
    if 0 <= from < text.len() && is_decimal_digit(text[from]) {
        digits_end(text, from + 1)
    } else {
        from
    }
}

fn find_digits_end(chars: &Vec<char>, from: usize) -> (end: usize)
    requires
        from <= chars@.len(),
    ensures
        end == digits_end(chars@, from as int),
        from <= end <= chars@.len(),
{
    let mut i: usize = from;
    while i < chars.len() && chars[i] >= '0' && chars[i] <= '9'
        invariant
            from <= i <= chars@.len(),
            digits_end(chars@, from as int) == digits_end(chars@, i as int),
        decreases chars@.len() - i,
    {
        i += 1;
    }
    i
}

/// Where the digits start: behind a sign, if there is one at `from`.
pub open spec fn after_sign(text: Seq<char>, from: int) -> int {
    if 0 <= from < text.len() && (text[from] == '+' || text[from] == '-') {
        from + 1
    } else {
        from
    }
}

fn skip_sign(chars: &Vec<char>, from: usize) -> (at: usize)
    requires
        from <= chars@.len(),
    ensures
        at == after_sign(chars@, from as int),
        from <= at <= chars@.len(),
{
    if from < chars.len() && (chars[from] == '+' || chars[from] == '-') {
        from + 1
    } else {
        from
    }
}

/// `text` spells a signed 64-bit integer.
pub open spec fn is_integer(text: Seq<char>) -> bool {
    let digits = text.skip(after_sign(text, 0));
    let limit = if text.len() > 0 && text[0] == '-' {
        0x8000_0000_0000_0000nat
    } else {
        0x7fff_ffff_ffff_ffffnat
    };
    digits.len() > 0 && all_decimal(digits) && number(digits) <= limit
}

fn reads_as_integer(value: &str) -> (yes: bool)
    ensures
        yes == is_integer(value@),
{
    let chars = chars_of(value);
    let at: usize = skip_sign(&chars, 0);
    let limit: u64 = if chars.len() > 0 && chars[0] == '-' {
        0x8000_0000_0000_0000
    } else {
        0x7fff_ffff_ffff_ffff
    };
    if at < chars.len() && chars[at] == '+' {
        assert(value@.skip(at as int)[0] == '+');
        assert(!is_decimal_digit(value@.skip(at as int)[0]));
        return false;
    }
    let ghost digits = chars@.skip(at as int);
    assert(crate::text::unsigned_digits(digits) == digits);
    parse_unsigned_from(&chars, at, limit).is_some()
}

/// `text` from `at` on is an exponent: `e` or `E`, an optional sign, and digits to the end.
pub open spec fn is_exponent(text: Seq<char>, at: int) -> bool {
    let digits = after_sign(text, at + 1);
    &&& at < text.len()
    &&& (text[at] == 'e' || text[at] == 'E')
    &&& digits < text.len()
    &&& digits_end(text, digits) == text.len()
}

/// `text` from `at` on is a decimal number: digits with an optional point, at least one
/// digit on a side of it, and an optional exponent.
pub open spec fn is_decimal_number(text: Seq<char>, at: int) -> bool {
    let whole = digits_end(text, at);
    let pointed = whole < text.len() && text[whole] == '.';
    let mantissa = if pointed {
        digits_end(text, whole + 1)
    } else {
        whole
    };
    &&& whole > at || (pointed && mantissa > whole + 1)
    &&& mantissa == text.len() || is_exponent(text, mantissa)
}

/// `text` spells a floating point number: an optional sign, then `inf`, `infinity` or `nan`
/// in any case, or a decimal number.
pub open spec fn is_float(text: Seq<char>) -> bool {
    let at = after_sign(text, 0);
    let word = lowered(text.skip(at));
    word == lowered("inf"@) || word == lowered("infinity"@) || word == lowered("nan"@)
        || is_decimal_number(text, at)
}

fn reads_as_float(value: &str) -> (yes: bool)
    ensures
        yes == is_float(value@),
{
    let chars = chars_of(value);
    let at: usize = skip_sign(&chars, 0);
    let word = text_between(&chars, at, chars.len());
    assert(word@ =~= value@.skip(at as int));
    if same_ignoring_case(word.as_str(), "inf") || same_ignoring_case(word.as_str(), "infinity")
        || same_ignoring_case(word.as_str(), "nan") {
        return true;
    }
    let whole: usize = find_digits_end(&chars, at);
    let pointed: bool = whole < chars.len() && chars[whole] == '.';
    let mantissa: usize = if pointed {
        find_digits_end(&chars, whole + 1)
    } else {
        whole
    };
    if !(whole > at || (pointed && mantissa > whole + 1)) {
        return false;
    }
    if mantissa == chars.len() {
        return true;
    }
    if chars[mantissa] != 'e' && chars[mantissa] != 'E' {
        return false;
    }
    let digits: usize = skip_sign(&chars, mantissa + 1);
    digits < chars.len() && find_digits_end(&chars, digits) == chars.len()
}

/// The pattern of a month and year, optionally with a day or a week.
pub open spec fn month_year_pattern() -> Seq<char> {
    r"^\d{6}(\d{2}|(-\d{1,2})|(-?w[1-5]))?$"@
}

pub open spec fn is_month_year(value: Seq<char>) -> bool {
    pattern_spans(month_year_pattern(), value) matches Some(spans) && spans.len() > 0
}

fn reads_as_month_year(value: &str) -> (yes: bool)
    ensures
        yes == is_month_year(value@),
{
    match find_spans(r"^\d{6}(\d{2}|(-\d{1,2})|(-?w[1-5]))?$", value) {
        Some(spans) => spans.len() > 0,
        None => false,
    }
}

/// A UTC timestamp, to the second or to the millisecond.
pub open spec fn timestamp_fits(value: Seq<char>) -> bool {
    reads_as_timestamp(value, "%Y%m%d-%H:%M:%S"@) || reads_as_timestamp(
        value,
        "%Y%m%d-%H:%M:%S%.3f"@,
    )
}

/// Whether a value is a UTC timestamp.
pub fn is_valid_timestamp(value: &str) -> (yes: bool)
    ensures
        yes == timestamp_fits(value@),
{
    is_timestamp(value, "%Y%m%d-%H:%M:%S") || is_timestamp(value, "%Y%m%d-%H:%M:%S%.3f")
}

pub open spec fn is_integer_type(name: Seq<char>) -> bool {
    name == "INT"@ || name == "LENGTH"@ || name == "NUMINGROUP"@ || name == "SEQNUM"@ || name
        == "DAYOFMONTH"@
}

pub open spec fn is_float_type(name: Seq<char>) -> bool {
    name == "FLOAT"@ || name == "QTY"@ || name == "PRICE"@ || name == "PRICEOFFSET"@ || name
        == "AMT"@ || name == "PERCENTAGE"@
}

/// `value` fits a field of type `field_type`; a type that is not listed takes any value.
pub open spec fn fits_type(value: Seq<char>, field_type: Seq<char>) -> bool {
    let name = uppered(field_type);
    if is_integer_type(name) {
        is_integer(value)
    } else if is_float_type(name) {
        is_float(value)
    } else if name == "BOOLEAN"@ {
        value == "Y"@ || value == "N"@
    } else if name == "CHAR"@ {
        value.len() == 1
    } else if name == "UTCTIMESTAMP"@ {
        timestamp_fits(value)
    } else if name == "UTCDATEONLY"@ {
        parsed_day(value, "%Y%m%d"@) is Some
    } else if name == "UTCTIMEONLY"@ {
        reads_as_time(value, "%H:%M"@) || reads_as_time(value, "%H:%M:%S"@) || reads_as_time(
            value,
            "%H:%M:%S%.3f"@,
        )
    } else if name == "MONTHYEAR"@ {
        is_month_year(value)
    } else {
        true
    }
}

fn names_integer(name: &str) -> (yes: bool)
    ensures
        yes == is_integer_type(name@),
{
    same(name, "INT") || same(name, "LENGTH") || same(name, "NUMINGROUP") || same(name, "SEQNUM")
        || same(name, "DAYOFMONTH")
}

fn names_float(name: &str) -> (yes: bool)
    ensures
        yes == is_float_type(name@),
{
    same(name, "FLOAT") || same(name, "QTY") || same(name, "PRICE") || same(name, "PRICEOFFSET")
        || same(name, "AMT") || same(name, "PERCENTAGE")
}

/// Whether a value fits a field of the given type.
pub fn is_valid_type(value: &str, field_type: &str) -> (yes: bool)
    ensures
        yes == fits_type(value@, field_type@),
{
    let upper = to_upper(field_type);
    let name = upper.as_str();
    if names_integer(name) {
        reads_as_integer(value)
    } else if names_float(name) {
        reads_as_float(value)
    } else if same(name, "BOOLEAN") {
        same(value, "Y") || same(value, "N")
    } else if same(name, "CHAR") {
        value.unicode_len() == 1
    } else if same(name, "UTCTIMESTAMP") {
        is_valid_timestamp(value)
    } else if same(name, "UTCDATEONLY") {
        parse_day(value, "%Y%m%d").is_some()
    } else if same(name, "UTCTIMEONLY") {
        is_time(value, "%H:%M") || is_time(value, "%H:%M:%S") || is_time(value, "%H:%M:%S%.3f")
    } else if same(name, "MONTHYEAR") {
        reads_as_month_year(value)
    } else {
        true
    }
}

} // verus!
