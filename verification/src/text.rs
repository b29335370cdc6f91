//! Text as sequences of characters: comparing, splitting, trimming and building strings.
use vstd::prelude::*;

verus! {

/// The field separator of a FIX message.
pub const SOH: char = '\u{1}';

/// `String::push`: the character is appended.
#[verifier::external_body]
pub(crate) fn push_char(text: &mut String, c: char)
    ensures
        final(text)@ == old(text)@.push(c),
{
    text.push(c)
}

/// `str`'s equality: two texts are equal when their characters are.
#[verifier::external_body]
pub(crate) fn same(a: &str, b: &str) -> (equal: bool)
    ensures
        equal == (a@ == b@),
{
    a == b
}

/// The characters of a text.
pub fn chars_of(text: &str) -> (chars: Vec<char>)
    ensures
        chars@ == text@,
{
    let mut chars: Vec<char> = Vec::new();
    for c in it: text.chars()
        invariant
            chars@ =~= it.seq().take(it.index() as int),
    {
        chars.push(c);
    }
    assert(chars@ =~= text@);
    chars
}

/// The text that characters `from..to` spell.
pub fn text_between(chars: &Vec<char>, from: usize, to: usize) -> (text: String)
    requires
        from <= to <= chars@.len(),
    ensures
        text@ == chars@.subrange(from as int, to as int),
{
    let mut text = String::new();
    let mut i: usize = from;
    while i < to
        invariant
            from <= i <= to <= chars@.len(),
            text@ == chars@.subrange(from as int, i as int),
        decreases to - i,
    {
        push_char(&mut text, chars[i]);
        assert(chars@.subrange(from as int, i + 1) =~= chars@.subrange(from as int, i as int).push(
            chars@[i as int],
        ));
        i += 1;
    }
    text
}

/// The text that characters spell.
pub fn text_of(chars: &Vec<char>) -> (text: String)
    ensures
        text@ == chars@,
{
    let text = text_between(chars, 0, chars.len());
    assert(chars@.subrange(0, chars@.len() as int) =~= chars@);
    text
}

/// A copy of a text.
pub fn copy_of(text: &str) -> (copy: String)
    ensures
        copy@ == text@,
{
    text.to_owned()
}

/// Two texts one after the other.
pub fn joined(a: &str, b: &str) -> (text: String)
    ensures
        text@ == a@ + b@,
{
    let mut text = a.to_owned();
    text.append(b);
    text
}

/// `n` copies of a character.
pub open spec fn repeated(c: char, n: nat) -> Seq<char> {
    Seq::new(n, |i: int| c)
}

/// Appends `n` copies of a character.
pub fn push_repeated(text: &mut String, c: char, n: usize)
    ensures
        final(text)@ == old(text)@ + repeated(c, n as nat),
{
    let ghost before = text@;
    let mut i: usize = 0;
    assert(text@ =~= before + repeated(c, 0));
    while i < n
        invariant
            0 <= i <= n,
            text@ == before + repeated(c, i as nat),
        decreases n - i,
    {
        push_char(text, c);
        i += 1;
        assert(text@ =~= before + repeated(c, i as nat));
    }
}

/// The decimal digits of a number.
pub open spec fn decimal(n: nat) -> Seq<char>
    decreases n,
{
    if n < 10 {
        seq![digit_char(n)]
    } else {
        decimal(n / 10).push(digit_char(n % 10))
    }
}

pub open spec fn digit_char(d: nat) -> char {
    (0x30 + d) as char
}

fn digit_of(d: u64) -> (c: char)
    requires
        d < 10,
    ensures
        c == digit_char(d as nat),
{
    (0x30 + d as u8) as char
}

/// Appends a number in decimal.
pub fn push_decimal(text: &mut String, n: u64)
    ensures
        final(text)@ == old(text)@ + decimal(n as nat),
    decreases n,
{
    let ghost before = text@;
    if n >= 10 {
        push_decimal(text, n / 10);
    }
    push_char(text, digit_of(n % 10));
    assert(text@ =~= before + decimal(n as nat));
}

/// Appends a large number in decimal.
pub fn push_wide_decimal(text: &mut String, n: u128)
    ensures
        final(text)@ == old(text)@ + decimal(n as nat),
    decreases n,
{
    let ghost before = text@;
    if n >= 10 {
        push_wide_decimal(text, n / 10);
    }
    push_char(text, digit_of((n % 10) as u64));
    assert(text@ =~= before + decimal(n as nat));
}

/// A number in decimal.
pub fn decimal_text(n: u64) -> (text: String)
    ensures
        text@ == decimal(n as nat),
{
    let mut text = String::new();
    push_decimal(&mut text, n);
    assert(text@ =~= decimal(n as nat));
    text
}

/// `text` behind enough copies of `fill` to be `width` characters long.
pub open spec fn right_aligned(text: Seq<char>, width: nat, fill: char) -> Seq<char> {
    repeated(
        fill,
        if text.len() < width {
            (width - text.len()) as nat
        } else {
            0
        },
    ) + text
}

/// `text` followed by enough spaces to be `width` characters long.
pub open spec fn left_aligned(text: Seq<char>, width: nat) -> Seq<char> {
    text + repeated(
        ' ',
        if text.len() < width {
            (width - text.len()) as nat
        } else {
            0
        },
    )
}

/// Appends `text` aligned right in a column of `width` characters.
pub fn push_right_aligned(out: &mut String, text: &str, width: usize, fill: char)
    ensures
        final(out)@ == old(out)@ + right_aligned(text@, width as nat, fill),
{
    let ghost before = out@;
    let n: usize = text.unicode_len();
    let gap: usize = if n < width {
        width - n
    } else {
        0
    };
    push_repeated(out, fill, gap);
    out.append(text);
    assert(out@ =~= before + right_aligned(text@, width as nat, fill));
}

/// Appends `text` aligned left in a column of `width` characters.
pub fn push_left_aligned(out: &mut String, text: &str, width: usize)
    ensures
        final(out)@ == old(out)@ + left_aligned(text@, width as nat),
{
    let ghost before = out@;
    let n: usize = text.unicode_len();
    let gap: usize = if n < width {
        width - n
    } else {
        0
    };
    out.append(text);
    push_repeated(out, ' ', gap);
    assert(out@ =~= before + left_aligned(text@, width as nat));
}

pub open spec fn is_decimal_digit(c: char) -> bool {
    '0' <= c <= '9'
}

pub open spec fn all_decimal(chars: Seq<char>) -> bool {
    forall|i: int| 0 <= i < chars.len() ==> is_decimal_digit(#[trigger] chars[i])
}

/// The number that decimal digits spell.
pub open spec fn number(chars: Seq<char>) -> nat
    decreases chars.len(),
{
    if chars.len() == 0 {
        0
    } else {
        number(chars.drop_last()) * 10 + (chars.last() as int - 0x30) as nat
    }
}

/// The digits of an unsigned integer as `str::parse` takes it: an optional `+` before them.
pub open spec fn unsigned_digits(text: Seq<char>) -> Seq<char> {
    if text.len() > 0 && text[0] == '+' {
        text.skip(1)
    } else {
        text
    }
}

/// The unsigned integer that `text` spells, if it is one and at most `max`.
pub open spec fn parsed_unsigned(text: Seq<char>, max: nat) -> Option<nat> {
    let digits = unsigned_digits(text);
    if digits.len() > 0 && all_decimal(digits) && number(digits) <= max {
        Some(number(digits))
    } else {
        None
    }
}

proof fn lemma_number_monotonic(chars: Seq<char>, n: int)
    requires
        0 <= n <= chars.len(),
        all_decimal(chars),
    ensures
        number(chars.take(n)) <= number(chars),
    decreases chars.len() - n,
{
    if n < chars.len() {
        assert(chars.take(n + 1).drop_last() =~= chars.take(n));
        assert(is_decimal_digit(chars[n]));
        lemma_number_monotonic(chars, n + 1);
    } else {
        assert(chars.take(n) =~= chars);
    }
}

/// Reads characters `from..` as an unsigned integer of at most `max`.
pub fn parse_unsigned_from(chars: &Vec<char>, from: usize, max: u64) -> (value: Option<u64>)
    requires
        from <= chars@.len(),
    ensures
        (match value {
            Some(v) => Some(v as nat),
            None => None,
        }) == parsed_unsigned(chars@.skip(from as int), max as nat),
{
    let ghost text = chars@.skip(from as int);
    let start: usize = if from < chars.len() && chars[from] == '+' {
        from + 1
    } else {
        from
    };
    let ghost digits = unsigned_digits(text);
    assert(digits =~= chars@.skip(start as int));
    if start >= chars.len() {
        return None;
    }
    let mut value: u64 = 0;
    let mut i: usize = start;
    while i < chars.len()
        invariant
            start <= i <= chars@.len(),
            digits == chars@.skip(start as int),
            digits == unsigned_digits(chars@.skip(from as int)),
            all_decimal(digits.take(i - start)),
            value == number(digits.take(i - start)),
            value <= max,
        decreases chars@.len() - i,
    {
        let c: char = chars[i];
        let ghost k: int = i - start;
        assert(digits[k] == c);
        assert(digits.take(k + 1).drop_last() =~= digits.take(k));
        if c < '0' || c > '9' {
            assert(!is_decimal_digit(digits[k]));
            return None;
        }
        assert forall|j: int| 0 <= j < k + 1 implies is_decimal_digit(
            #[trigger] digits.take(k + 1)[j],
        ) by {
            if j < k {
                assert(digits.take(k)[j] == digits[j]);
            }
        }
        let d: u64 = c as u64 - 0x30;
        if value > (max - if d <= max { d } else { max }) / 10 || d > max {
            proof {
                if all_decimal(digits) {
                    lemma_number_monotonic(digits, k + 1);
                }
            }
            return None;
        }
        value = value * 10 + d;
        i += 1;
    }
    assert(digits.take(digits.len() as int) =~= digits);
    Some(value)
}

/// Reads a text as a `u32`, as `str::parse` does.
pub fn parse_u32(text: &str) -> (value: Option<u32>)
    ensures
        (match value {
            Some(v) => Some(v as nat),
            None => None,
        }) == parsed_unsigned(text@, u32::MAX as nat),
{
    let chars = chars_of(text);
    assert(chars@.skip(0) =~= chars@);
    match parse_unsigned_from(&chars, 0, u32::MAX as u64) {
        Some(v) => Some(v as u32),
        None => None,
    }
}

pub open spec fn lower(c: char) -> char {
    if 'A' <= c <= 'Z' {
        (c as int + 0x20) as char
    } else {
        c
    }
}

pub open spec fn upper(c: char) -> char {
    if 'a' <= c <= 'z' {
        (c as int - 0x20) as char
    } else {
        c
    }
}

pub open spec fn lowered(text: Seq<char>) -> Seq<char> {
    text.map_values(|c: char| lower(c))
}

pub open spec fn uppered(text: Seq<char>) -> Seq<char> {
    text.map_values(|c: char| upper(c))
}

fn lower_char(c: char) -> (l: char)
    ensures
        l == lower(c),
{
    if c >= 'A' && c <= 'Z' {
        ((c as u8) + 0x20) as char
    } else {
        c
    }
}

fn upper_char(c: char) -> (u: char)
    ensures
        u == upper(c),
{
    if c >= 'a' && c <= 'z' {
        ((c as u8) - 0x20) as char
    } else {
        c
    }
}

/// The text with ASCII letters in lower case.
pub fn to_lower(text: &str) -> (low: String)
    ensures
        low@ == lowered(text@),
{
    let mut low = String::new();
    for c in it: text.chars()
        invariant
            low@ =~= lowered(it.seq().take(it.index() as int)),
    {
        push_char(&mut low, lower_char(c));
    }
    assert(low@ =~= lowered(text@));
    low
}

/// The text with ASCII letters in upper case.
pub fn to_upper(text: &str) -> (up: String)
    ensures
        up@ == uppered(text@),
{
    let mut up = String::new();
    for c in it: text.chars()
        invariant
            up@ =~= uppered(it.seq().take(it.index() as int)),
    {
        push_char(&mut up, upper_char(c));
    }
    assert(up@ =~= uppered(text@));
    up
}

/// Whether two texts are equal when the case of ASCII letters is left aside.
pub fn same_ignoring_case(a: &str, b: &str) -> (equal: bool)
    ensures
        equal == (lowered(a@) == lowered(b@)),
{
    let low_a = to_lower(a);
    let low_b = to_lower(b);
    same(low_a.as_str(), low_b.as_str())
}

/// Unicode's white space, which `char::is_whitespace` tests for.
pub open spec fn is_space(c: char) -> bool {
    ||| '\u{9}' <= c <= '\u{d}'
    ||| c == ' '
    ||| c == '\u{85}'
    ||| c == '\u{a0}'
    ||| c == '\u{1680}'
    ||| '\u{2000}' <= c <= '\u{200a}'
    ||| c == '\u{2028}'
    ||| c == '\u{2029}'
    ||| c == '\u{202f}'
    ||| c == '\u{205f}'
    ||| c == '\u{3000}'
}

pub fn space(c: char) -> (yes: bool)
    ensures
        yes == is_space(c),
{
    (c >= '\u{9}' && c <= '\u{d}') || c == ' ' || c == '\u{85}' || c == '\u{a0}' || c == '\u{1680}'
        || (c >= '\u{2000}' && c <= '\u{200a}') || c == '\u{2028}' || c == '\u{2029}' || c
        == '\u{202f}' || c == '\u{205f}' || c == '\u{3000}'
}

/// `text` without the white space at its start.
pub open spec fn trimmed_start(text: Seq<char>) -> Seq<char>
    decreases text.len(),
{
    if text.len() > 0 && is_space(text[0]) {
        trimmed_start(text.skip(1))
    } else {
        text
    }
}

/// `text` without the white space at its end.
pub open spec fn trimmed_end(text: Seq<char>) -> Seq<char>
    decreases text.len(),
{
    if text.len() > 0 && is_space(text.last()) {
        trimmed_end(text.drop_last())
    } else {
        text
    }
}

/// `text` without the white space at its ends.
pub open spec fn trimmed(text: Seq<char>) -> Seq<char> {
    trimmed_end(trimmed_start(text))
}

/// The text without the white space at its ends.
pub fn trim(text: &str) -> (inner: String)
    ensures
        inner@ == trimmed(text@),
{
    let chars = chars_of(text);
    let mut from: usize = 0;
    assert(chars@.skip(0) =~= chars@);
    while from < chars.len() && space(chars[from])
        invariant
            0 <= from <= chars@.len(),
            trimmed_start(chars@) == trimmed_start(chars@.skip(from as int)),
        decreases chars@.len() - from,
    {
        assert(chars@.skip(from as int).skip(1) =~= chars@.skip(from + 1));
        from += 1;
    }
    let ghost rest = chars@.skip(from as int);
    let mut to: usize = chars.len();
    assert(rest =~= chars@.subrange(from as int, to as int));
    while to > from && space(chars[to - 1])
        invariant
            from <= to <= chars@.len(),
            trimmed_end(rest) == trimmed_end(chars@.subrange(from as int, to as int)),
        decreases to,
    {
        assert(chars@.subrange(from as int, to as int).drop_last() =~= chars@.subrange(
            from as int,
            to - 1,
        ));
        to -= 1;
    }
    text_between(&chars, from, to)
}

/// The first position at or after `from` that holds `c`, or the length.
pub open spec fn next_char(text: Seq<char>, from: int, c: char) -> int
    decreases text.len() - from,
{
    if from >= text.len() {
        text.len() as int
    } else if text[from] == c {
        from
    } else {
        next_char(text, from + 1, c)
    }
}

pub proof fn lemma_next_char(text: Seq<char>, from: int, c: char)
    requires
        0 <= from <= text.len(),
    ensures
        from <= next_char(text, from, c) <= text.len(),
        next_char(text, from, c) < text.len() ==> text[next_char(text, from, c)] == c,
        forall|i: int| from <= i < next_char(text, from, c) ==> text[i] != c,
    decreases text.len() - from,
{
    if from < text.len() && text[from] != c {
        lemma_next_char(text, from + 1, c);
    }
}

/// Finds the next `c` at or after `from`; the length if there is none.
pub fn find_char(chars: &Vec<char>, from: usize, c: char) -> (at: usize)
    requires
        from <= chars@.len(),
    ensures
        at == next_char(chars@, from as int, c),
        from <= at <= chars@.len(),
{
    let mut at: usize = from;
    while at < chars.len() && chars[at] != c
        invariant
            from <= at <= chars@.len(),
            next_char(chars@, from as int, c) == next_char(chars@, at as int, c),
        decreases chars@.len() - at,
    {
        at += 1;
    }
    at
}

/// The pieces of `text` from `from` on, between occurrences of `c`.
pub open spec fn split_from(text: Seq<char>, from: int, c: char) -> Seq<Seq<char>>
    decreases text.len() - from,
    when 0 <= from <= text.len()
    via split_terminates
{
    let at = next_char(text, from, c);
    if at >= text.len() {
        seq![text.subrange(from, text.len() as int)]
    } else {
        seq![text.subrange(from, at)] + split_from(text, at + 1, c)
    }
}

#[via_fn]
proof fn split_terminates(text: Seq<char>, from: int, c: char) {
    lemma_next_char(text, from, c);
}

/// The pieces of `text` between occurrences of `c`, as `str::split` gives them.
pub open spec fn split(text: Seq<char>, c: char) -> Seq<Seq<char>> {
    split_from(text, 0, c)
}

pub open spec fn texts(strings: Seq<String>) -> Seq<Seq<char>> {
    strings.map_values(|s: String| s@)
}

/// Splits a text at every `c`.
pub fn split_text(text: &str, c: char) -> (pieces: Vec<String>)
    ensures
        texts(pieces@) == split(text@, c),
{
    let chars = chars_of(text);
    let mut pieces: Vec<String> = Vec::new();
    let mut from: usize = 0;
    assert(texts(pieces@) =~= seq![]);
    assert(texts(pieces@) + split_from(chars@, 0, c) =~= split(chars@, c));
    loop
        invariant
            0 <= from <= chars@.len(),
            texts(pieces@) + split_from(chars@, from as int, c) == split(chars@, c),
            chars@ == text@,
        decreases chars@.len() - from,
    {
        let at: usize = find_char(&chars, from, c);
        let ghost before = pieces@;
        let piece = text_between(&chars, from, at);
        pieces.push(piece);
        assert(texts(pieces@) =~= texts(before).push(chars@.subrange(from as int, at as int)));
        if at >= chars.len() {
            assert(texts(pieces@) =~= texts(before) + split_from(chars@, from as int, c));
            return pieces;
        }
        assert(texts(pieces@) + split_from(chars@, at + 1, c) =~= texts(before) + split_from(
            chars@,
            from as int,
            c,
        ));
        from = at + 1;
    }
}

/// What stands before and after the first `c` of a text.
pub open spec fn split_once_at(text: Seq<char>, c: char) -> Option<(Seq<char>, Seq<char>)> {
    let at = next_char(text, 0, c);
    if at >= text.len() {
        None
    } else {
        Some((text.subrange(0, at), text.skip(at + 1)))
    }
}

pub open spec fn pair_view(pair: Option<(String, String)>) -> Option<(Seq<char>, Seq<char>)> {
    match pair {
        Some((a, b)) => Some((a@, b@)),
        None => None,
    }
}

/// Splits a text at its first `c`.
pub fn split_once_text(text: &str, c: char) -> (pair: Option<(String, String)>)
    ensures
        pair_view(pair) == split_once_at(text@, c),
{
    let chars = chars_of(text);
    let at: usize = find_char(&chars, 0, c);
    if at >= chars.len() {
        None
    } else {
        let left = text_between(&chars, 0, at);
        let right = text_between(&chars, at + 1, chars.len());
        assert(right@ =~= text@.skip(at + 1));
        Some((left, right))
    }
}

/// `pattern` stands in `text` at position `at`.
pub open spec fn stands_at(text: Seq<char>, at: int, pattern: Seq<char>) -> bool {
    0 <= at && at + pattern.len() <= text.len() && text.subrange(at, at + pattern.len()) == pattern
}

/// Whether `pattern` stands in `chars` at position `at`.
pub fn matches_at(chars: &Vec<char>, at: usize, pattern: &Vec<char>) -> (yes: bool)
    ensures
        yes == stands_at(chars@, at as int, pattern@),
{
    if at > chars.len() || chars.len() - at < pattern.len() {
        return false;
    }
    let ghost part = chars@.subrange(at as int, at + pattern@.len());
    let mut i: usize = 0;
    let total: usize = chars.len();
    while i < pattern.len()
        invariant
            0 <= i <= pattern@.len(),
            at + pattern@.len() <= chars@.len() == total,
            part == chars@.subrange(at as int, at + pattern@.len()),
            forall|j: int| 0 <= j < i ==> part[j] == pattern@[j],
        decreases pattern@.len() - i,
    {
        assert(part[i as int] == chars@[at + i]);
        if chars[at + i] != pattern[i] {
            assert(part[i as int] != pattern@[i as int]);
            return false;
        }
        i += 1;
    }
    assert(part =~= pattern@);
    true
}

/// Whether a text starts with `prefix`.
pub fn starts_with(text: &str, prefix: &str) -> (yes: bool)
    ensures
        yes == stands_at(text@, 0, prefix@),
{
    let chars = chars_of(text);
    let pattern = chars_of(prefix);
    matches_at(&chars, 0, &pattern)
}

/// What follows `prefix` at the start of a text.
pub open spec fn stripped(text: Seq<char>, prefix: Seq<char>) -> Option<Seq<char>> {
    if stands_at(text, 0, prefix) {
        Some(text.skip(prefix.len() as int))
    } else {
        None
    }
}

pub open spec fn text_view(text: Option<String>) -> Option<Seq<char>> {
    match text {
        Some(t) => Some(t@),
        None => None,
    }
}

/// What follows `prefix` at the start of a text.
pub fn strip_prefix(text: &str, prefix: &str) -> (rest: Option<String>)
    ensures
        text_view(rest) == stripped(text@, prefix@),
{
    let chars = chars_of(text);
    let pattern = chars_of(prefix);
    if matches_at(&chars, 0, &pattern) {
        let rest = text_between(&chars, pattern.len(), chars.len());
        assert(rest@ =~= text@.skip(prefix@.len() as int));
        Some(rest)
    } else {
        None
    }
}

/// The texts with `gap` between each two.
pub open spec fn join(parts: Seq<Seq<char>>, gap: Seq<char>) -> Seq<char>
    decreases parts.len(),
{
    if parts.len() == 0 {
        seq![]
    } else if parts.len() == 1 {
        parts[0]
    } else {
        join(parts.drop_last(), gap) + gap + parts.last()
    }
}

/// Joins texts with `gap` between each two.
pub fn join_texts(parts: &Vec<String>, gap: &str) -> (text: String)
    ensures
        text@ == join(texts(parts@), gap@),
{
    let mut text = String::new();
    let mut i: usize = 0;
    let ghost all = texts(parts@);
    while i < parts.len()
        invariant
            0 <= i <= parts@.len(),
            all == texts(parts@),
            text@ == join(all.take(i as int), gap@),
        decreases parts@.len() - i,
    {
        let ghost before = text@;
        if i > 0 {
            text.append(gap);
        }
        text.append(parts[i].as_str());
        assert(all.take(i + 1).drop_last() =~= all.take(i as int));
        assert(all.take(i + 1).last() == all[i as int]);
        if i == 0 {
            assert(text@ =~= all[0]);
        } else {
            assert(text@ =~= before + gap@ + all[i as int]);
        }
        i += 1;
    }
    assert(all.take(all.len() as int) =~= all);
    text
}

/// Whether `list` holds `text`.
pub fn contains_text(list: &Vec<String>, text: &str) -> (yes: bool)
    ensures
        yes == texts(list@).contains(text@),
{
    let ghost all = texts(list@);
    let mut i: usize = 0;
    while i < list.len()
        invariant
            0 <= i <= list@.len(),
            all == texts(list@),
            forall|j: int| 0 <= j < i ==> all[j] != text@,
        decreases list@.len() - i,
    {
        if same(list[i].as_str(), text) {
            assert(all[i as int] == text@);
            return true;
        }
        i += 1;
    }
    false
}

/// The value of a hexadecimal digit.
pub open spec fn hex_digit(c: char) -> Option<nat> {
    if '0' <= c <= '9' {
        Some((c as int - 0x30) as nat)
    } else if 'a' <= c <= 'f' {
        Some((c as int - 0x57) as nat)
    } else if 'A' <= c <= 'F' {
        Some((c as int - 0x37) as nat)
    } else {
        None
    }
}

pub open spec fn all_hex(chars: Seq<char>) -> bool {
    forall|i: int| 0 <= i < chars.len() ==> hex_digit(#[trigger] chars[i]) is Some
}

/// The number that hexadecimal digits spell.
pub open spec fn hex_number(chars: Seq<char>) -> nat
    decreases chars.len(),
{
    if chars.len() == 0 {
        0
    } else {
        hex_number(chars.drop_last()) * 16 + hex_digit(chars.last())->0
    }
}

/// The number that `text` spells in base 16, if it does and is at most `max`; a `+` may
/// stand before the digits.
pub open spec fn parsed_hex(text: Seq<char>, max: nat) -> Option<nat> {
    let digits = unsigned_digits(text);
    if digits.len() > 0 && all_hex(digits) && hex_number(digits) <= max {
        Some(hex_number(digits))
    } else {
        None
    }
}

proof fn lemma_hex_monotonic(chars: Seq<char>, n: int)
    requires
        0 <= n <= chars.len(),
        all_hex(chars),
    ensures
        hex_number(chars.take(n)) <= hex_number(chars),
    decreases chars.len() - n,
{
    if n < chars.len() {
        assert(chars.take(n + 1).drop_last() =~= chars.take(n));
        assert(hex_digit(chars[n]) is Some);
        lemma_hex_monotonic(chars, n + 1);
    } else {
        assert(chars.take(n) =~= chars);
    }
}

fn hex_value(c: char) -> (d: Option<u64>)
    ensures
        (match d {
            Some(v) => Some(v as nat),
            None => None,
        }) == hex_digit(c),
        d is Some ==> d->0 < 16,
{
    if c >= '0' && c <= '9' {
        Some(c as u64 - 0x30)
    } else if c >= 'a' && c <= 'f' {
        Some(c as u64 - 0x57)
    } else if c >= 'A' && c <= 'F' {
        Some(c as u64 - 0x37)
    } else {
        None
    }
}

/// Reads a text in base 16, as `from_str_radix` does, up to `max`.
pub fn parse_hex(text: &str, max: u64) -> (value: Option<u64>)
    ensures
        (match value {
            Some(v) => Some(v as nat),
            None => None,
        }) == parsed_hex(text@, max as nat),
{
    let chars = chars_of(text);
    let start: usize = if chars.len() > 0 && chars[0] == '+' {
        1
    } else {
        0
    };
    let ghost digits = unsigned_digits(text@);
    assert(digits =~= chars@.skip(start as int));
    if start >= chars.len() {
        return None;
    }
    let mut value: u64 = 0;
    let mut i: usize = start;
    while i < chars.len()
        invariant
            start <= i <= chars@.len(),
            digits == chars@.skip(start as int),
            digits == unsigned_digits(text@),
            all_hex(digits.take(i - start)),
            value == hex_number(digits.take(i - start)),
            value <= max,
        decreases chars@.len() - i,
    {
        let ghost k: int = i - start;
        assert(digits[k] == chars@[i as int]);
        assert(digits.take(k + 1).drop_last() =~= digits.take(k));
        let d: u64 = match hex_value(chars[i]) {
            Some(d) => d,
            None => {
                assert(!(hex_digit(digits[k]) is Some));
                return None;
            },
        };
        assert forall|j: int| 0 <= j < k + 1 implies hex_digit(
            #[trigger] digits.take(k + 1)[j],
        ) is Some by {
            if j < k {
                assert(digits.take(k)[j] == digits[j]);
            }
        }
        if d > max || value > (max - d) / 16 {
            proof {
                if all_hex(digits) {
                    lemma_hex_monotonic(digits, k + 1);
                }
            }
            return None;
        }
        value = value * 16 + d;
        i += 1;
    }
    assert(digits.take(digits.len() as int) =~= digits);
    Some(value)
}

/// The hexadecimal digits of a text that starts with `\\x` or `0x`.
pub open spec fn hex_part(text: Seq<char>) -> Option<Seq<char>> {
    if stands_at(text, 0, "\\x"@) {
        stripped(text, "\\x"@)
    } else {
        stripped(text, "0x"@)
    }
}

/// Strips a leading `\\x` or `0x`.
pub fn strip_hex_prefix(text: &str) -> (rest: Option<String>)
    ensures
        text_view(rest) == hex_part(text@),
{
    match strip_prefix(text, "\\x") {
        Some(rest) => Some(rest),
        None => strip_prefix(text, "0x"),
    }
}

/// Appends texts to texts.
pub(crate) fn push_all(target: &mut Vec<String>, words: &Vec<String>)
    ensures
        texts(final(target)@) == texts(old(target)@) + texts(words@),
{
    let ghost start = texts(target@);
    let ghost all = texts(words@);
    let mut i: usize = 0;
    assert(all.take(0) =~= seq![]);
    while i < words.len()
        invariant
            i <= words@.len(),
            all == texts(words@),
            texts(target@) == start + all.take(i as int),
        decreases words@.len() - i,
    {
        assert(all[i as int] == words@[i as int]@);
        let ghost before = texts(target@);
        target.push(copy_of(words[i].as_str()));
        assert(texts(target@) =~= before.push(all[i as int]));
        assert(all.take(i + 1) =~= all.take(i as int).push(all[i as int]));
        i += 1;
    }
    assert(all.take(i as int) =~= all);
}

} // verus!
