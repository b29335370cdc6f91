//! What holds of the fields of a message that is written out field by field.
use crate::fixparser::{field_in, fields_in, fields_of, FieldPair};
use crate::text::{
    all_decimal, decimal, is_decimal_digit, lemma_next_char, next_char, number, parsed_unsigned, split,
    split_from, split_once_at, unsigned_digits, SOH,
};
use vstd::prelude::*;

verus! {

/// A number in decimal digits, without zeros in front; nothing for zero.
pub open spec fn digits(n: nat) -> Seq<char>
    decreases n,
{
    if n == 0 {
        seq![]
    } else {
        digits(n / 10).push(('0' as int + n % 10) as char)
    }
}

/// A number in decimal: `zeros` zeros and then its digits.
pub open spec fn numeral(zeros: nat, n: nat) -> Seq<char> {
    Seq::new(zeros, |i: int| '0') + digits(n)
}

/// A piece of a message and its delimiter, for each of the pieces.
pub open spec fn closed(pieces: Seq<Seq<char>>) -> Seq<char>
    decreases pieces.len(),
{
    if pieces.len() == 0 {
        seq![]
    } else {
        pieces[0] + seq![SOH] + closed(pieces.skip(1))
    }
}

/// No piece holds the delimiter.
pub open spec fn undelimited(pieces: Seq<Seq<char>>) -> bool {
    forall|i: int| 0 <= i < pieces.len() ==> !(#[trigger] pieces[i]).contains(SOH)
}

proof fn lemma_next_char_from(text: Seq<char>, k: int, from: int, c: char)
    requires
        0 <= k,
        0 <= from,
        k + from <= text.len(),
    ensures
        next_char(text, k + from, c) == k + next_char(text.skip(k), from, c),
    decreases text.len() - k - from,
{
    if k + from < text.len() && text[k + from] != c {
        lemma_next_char_from(text, k, from + 1, c);
    }
}

proof fn lemma_split_shift(text: Seq<char>, k: int, from: int, c: char)
    requires
        0 <= k,
        0 <= from,
        k + from <= text.len(),
    ensures
        split_from(text, k + from, c) == split_from(text.skip(k), from, c),
    decreases text.len() - k - from,
{
    let tail = text.skip(k);
    lemma_next_char_from(text, k, from, c);
    lemma_next_char(tail, from, c);
    let at = next_char(tail, from, c);
    if at >= tail.len() {
        assert(text.subrange(k + from, text.len() as int) =~= tail.subrange(
            from,
            tail.len() as int,
        ));
    } else {
        assert(text.subrange(k + from, k + at) =~= tail.subrange(from, at));
        lemma_split_shift(text, k, at + 1, c);
    }
}

pub proof fn lemma_first_place(text: Seq<char>, at: int, c: char)
    requires
        0 <= at <= text.len(),
        at < text.len() ==> text[at] == c,
        forall|i: int| 0 <= i < at ==> text[i] != c,
    ensures
        next_char(text, 0, c) == at,
{
    lemma_next_char(text, 0, c);
    let found = next_char(text, 0, c);
    if found < at {
        assert(text[found] == c);
    }
}

pub proof fn lemma_split_first(piece: Seq<char>, rest: Seq<char>, c: char)
    requires
        !piece.contains(c),
    ensures
        split(piece + seq![c] + rest, c) == seq![piece] + split(rest, c),
{
    let text = piece + seq![c] + rest;
    let at = piece.len() as int;
    assert forall|i: int| 0 <= i < at implies text[i] != c by {
        assert(text[i] == piece[i]);
        assert(piece.contains(piece[i]));
    }
    lemma_first_place(text, at, c);
    lemma_split_shift(text, at + 1, 0, c);
    assert(text.skip(at + 1) =~= rest);
    assert(text.subrange(0, at) =~= piece);
}

/// The pieces of a message come apart as they were put together; behind the last delimiter
/// there is nothing.
pub proof fn law_pieces_come_apart(pieces: Seq<Seq<char>>)
    requires
        undelimited(pieces),
    ensures
        split(closed(pieces), SOH) == pieces.push(seq![]),
    decreases pieces.len(),
{
    if pieces.len() == 0 {
        let text = Seq::<char>::empty();
        lemma_first_place(text, 0, SOH);
        assert(text.subrange(0, 0) =~= seq![]);
        assert(split(text, SOH) =~= seq![Seq::<char>::empty()]);
    } else {
        let rest = pieces.skip(1);
        assert forall|i: int| 0 <= i < rest.len() implies !(#[trigger] rest[i]).contains(SOH) by {
            assert(rest[i] == pieces[i + 1]);
        }
        law_pieces_come_apart(rest);
        lemma_split_first(pieces[0], closed(rest), SOH);
        assert(seq![pieces[0]] + rest.push(seq![]) =~= pieces.push(seq![]));
    }
}

pub proof fn lemma_fields_first(piece: Seq<char>, rest: Seq<Seq<char>>)
    ensures
        fields_in(seq![piece] + rest) == (match field_in(piece) {
            Some(field) => seq![field],
            None => seq![],
        }) + fields_in(rest),
    decreases rest.len(),
{
    let all = seq![piece] + rest;
    if rest.len() == 0 {
        assert(all.drop_last() =~= seq![]);
        assert(fields_in(all.drop_last()) =~= seq![]);
        assert(all.last() == piece);
    } else {
        assert(all.drop_last() =~= seq![piece] + rest.drop_last());
        assert(all.last() == rest.last());
        lemma_fields_first(piece, rest.drop_last());
    }
}

pub proof fn lemma_split_once(head: Seq<char>, tail: Seq<char>, c: char)
    requires
        !head.contains(c),
    ensures
        split_once_at(head + seq![c] + tail, c) == Some((head, tail)),
{
    let text = head + seq![c] + tail;
    let at = head.len() as int;
    assert forall|i: int| 0 <= i < at implies text[i] != c by {
        assert(text[i] == head[i]);
        assert(head.contains(head[i]));
    }
    lemma_first_place(text, at, c);
    assert(text.subrange(0, at) =~= head);
    assert(text.skip(at + 1) =~= tail);
}

pub proof fn lemma_digit(n: nat)
    ensures
        is_decimal_digit(('0' as int + n % 10) as char),
        (('0' as int + n % 10) as char) as int - 0x30 == n % 10,
        (('0' as int + n % 10) as char) != '=',
        (('0' as int + n % 10) as char) != SOH,
        (('0' as int + n % 10) as char) != '+',
{
}

pub proof fn lemma_digits(n: nat)
    ensures
        all_decimal(digits(n)),
        number(digits(n)) == n,
        forall|i: int|
            0 <= i < digits(n).len() ==> #[trigger] digits(n)[i] != '=' && digits(n)[i] != SOH
                && digits(n)[i] != '+',
        n > 0 ==> digits(n).len() > 0,
    decreases n,
{
    if n > 0 {
        lemma_digits(n / 10);
        lemma_digit(n);
        assert(digits(n).drop_last() =~= digits(n / 10));
        assert(digits(n).last() == ('0' as int + n % 10) as char);
        assert forall|i: int| 0 <= i < digits(n).len() implies is_decimal_digit(
            #[trigger] digits(n)[i],
        ) && digits(n)[i] != '=' && digits(n)[i] != SOH && digits(n)[i] != '+' by {
            if i < digits(n / 10).len() {
                assert(digits(n)[i] == digits(n / 10)[i]);
            }
        }
    }
}

pub proof fn lemma_numeral(zeros: nat, n: nat)
    ensures
        all_decimal(numeral(zeros, n)),
        number(numeral(zeros, n)) == n,
        forall|i: int|
            0 <= i < numeral(zeros, n).len() ==> #[trigger] numeral(zeros, n)[i] != '='
                && numeral(zeros, n)[i] != SOH && numeral(zeros, n)[i] != '+',
    decreases zeros, n,
{
    lemma_digits(n);
    let text = numeral(zeros, n);
    assert forall|i: int| 0 <= i < text.len() implies is_decimal_digit(#[trigger] text[i])
        && text[i] != '=' && text[i] != SOH && text[i] != '+' by {
        if i >= zeros {
            assert(text[i] == digits(n)[i - zeros]);
        }
    }
    if n > 0 {
        lemma_numeral(zeros, n / 10);
        lemma_digit(n);
        assert(text.drop_last() =~= numeral(zeros, n / 10));
        assert(text.last() == ('0' as int + n % 10) as char);
    } else if zeros > 0 {
        lemma_numeral((zeros - 1) as nat, 0);
        assert(digits(0) =~= seq![]);
        assert(text.drop_last() =~= numeral((zeros - 1) as nat, 0));
        assert(text.last() == '0');
    } else {
        assert(text =~= seq![]);
    }
}

/// Numbers are read as they are written: in decimal, zeros in front or not, as long as they
/// are not above the limit. An empty text is no number.
pub proof fn law_numbers_are_read(zeros: nat, n: nat, max: nat)
    requires
        zeros > 0 || n > 0,
    ensures
        parsed_unsigned(numeral(zeros, n), max) == if n <= max {
            Some(n)
        } else {
            None
        },
        parsed_unsigned(seq![], max) is None,
{
    let text = numeral(zeros, n);
    lemma_numeral(zeros, n);
    lemma_digits(n);
    assert(text.len() > 0);
    assert(text[0] != '+');
    assert(unsigned_digits(text) == text);
}

/// A field as it is written: its tag in decimal, `=` and its value.
pub open spec fn field_text(zeros: nat, field: FieldPair) -> Seq<char> {
    numeral(zeros, field.0 as nat) + seq!['='] + field.1
}

/// The fields of a message, each with its delimiter.
pub open spec fn message_text(fields: Seq<FieldPair>) -> Seq<char>
    decreases fields.len(),
{
    if fields.len() == 0 {
        seq![]
    } else {
        field_text(
            if fields[0].0 == 0 {
                1
            } else {
                0
            },
            fields[0],
        ) + seq![SOH] + message_text(fields.skip(1))
    }
}

pub proof fn lemma_field_text(zeros: nat, field: FieldPair)
    requires
        zeros > 0 || field.0 > 0,
        !field.1.contains(SOH),
    ensures
        field_in(field_text(zeros, field)) == Some(field),
        !field_text(zeros, field).contains(SOH),
{
    let tag = numeral(zeros, field.0 as nat);
    let text = field_text(zeros, field);
    lemma_numeral(zeros, field.0 as nat);
    law_numbers_are_read(zeros, field.0 as nat, u32::MAX as nat);
    assert(!tag.contains('='));
    lemma_split_once(tag, field.1, '=');
    assert forall|i: int| 0 <= i < text.len() implies text[i] != SOH by {
        if i < tag.len() {
            assert(text[i] == tag[i]);
        } else if i > tag.len() {
            assert(text[i] == field.1[i - tag.len() - 1]);
            assert(field.1.contains(field.1[i - tag.len() - 1]));
        }
    }
}

/// Fields are read back as they were written: all of them, in order, each with its value.
pub proof fn law_fields_are_read_back(fields: Seq<FieldPair>)
    requires
        forall|i: int| 0 <= i < fields.len() ==> !(#[trigger] fields[i]).1.contains(SOH),
    ensures
        fields_of(message_text(fields)) == fields,
    decreases fields.len(),
{
    if fields.len() == 0 {
        law_pieces_come_apart(seq![]);
        assert(split(seq![], SOH) == seq![Seq::<char>::empty()]);
        let pieces = seq![Seq::<char>::empty()];
        lemma_next_char(Seq::<char>::empty(), 0, '=');
        assert(pieces.drop_last() =~= seq![]);
        assert(field_in(pieces.last()) is None);
        assert(fields_in(pieces.drop_last()) =~= seq![]);
        assert(fields_in(pieces) =~= seq![]);
    } else {
        let rest = fields.skip(1);
        let zeros: nat = if fields[0].0 == 0 {
            1
        } else {
            0
        };
        let piece = field_text(zeros, fields[0]);
        assert forall|i: int| 0 <= i < rest.len() implies !(#[trigger] rest[i]).1.contains(SOH) by {
            assert(rest[i] == fields[i + 1]);
        }
        law_fields_are_read_back(rest);
        lemma_field_text(zeros, fields[0]);
        lemma_split_first(piece, message_text(rest), SOH);
        lemma_fields_first(piece, split(message_text(rest), SOH));
        assert(seq![fields[0]] + rest =~= fields);
    }
}

/// A piece of a message that is no field is passed over: one without `=`, or with anything
/// but a number in front of it.
pub proof fn law_other_pieces_are_passed_over(piece: Seq<char>, rest: Seq<char>)
    requires
        !piece.contains(SOH),
        piece.contains('=') ==> exists|i: int|
            0 <= i < piece.len() && piece[i] == '=' && (i == 0 || exists|j: int|
                0 <= j < i && !('0' <= #[trigger] piece[j] <= '9') && !(j == 0 && piece[j] == '+'))
                && forall|j: int| 0 <= j < i ==> piece[j] != '=',
    ensures
        fields_of(piece + seq![SOH] + rest) == fields_of(rest),
{
    lemma_split_first(piece, rest, SOH);
    lemma_fields_first(piece, split(rest, SOH));
    if piece.contains('=') {
        let i = choose|i: int|
            0 <= i < piece.len() && piece[i] == '=' && (i == 0 || exists|j: int|
                0 <= j < i && !('0' <= #[trigger] piece[j] <= '9') && !(j == 0 && piece[j] == '+'))
                && forall|j: int| 0 <= j < i ==> piece[j] != '=';
        lemma_first_place(piece, i, '=');
        let tag = piece.subrange(0, i);
        if i > 0 {
            let j = choose|j: int|
                0 <= j < i && !('0' <= #[trigger] piece[j] <= '9') && !(j == 0 && piece[j] == '+');
            let spelled = unsigned_digits(tag);
            assert(tag[j] == piece[j]);
            if tag[0] == '+' {
                assert(spelled[j - 1] == piece[j]);
            } else {
                assert(spelled[j] == piece[j]);
            }
        }
    } else {
        assert forall|i: int| 0 <= i < piece.len() implies piece[i] != '=' by {
            assert(piece.contains(piece[i]));
        }
        lemma_first_place(piece, piece.len() as int, '=');
    }
    assert(Seq::<FieldPair>::empty() + fields_of(rest) =~= fields_of(rest));
}

/// Every run of digits is a number behind some zeros.
pub proof fn lemma_digits_are_a_numeral(text: Seq<char>) -> (zeros: nat)
    requires
        all_decimal(text),
    ensures
        text == numeral(zeros, number(text)),
    decreases text.len(),
{
    if text.len() == 0 {
        assert(digits(0) =~= seq![]);
        assert(text =~= numeral(0, 0));
        0
    } else {
        let shorter = text.drop_last();
        assert forall|i: int| 0 <= i < shorter.len() implies is_decimal_digit(
            #[trigger] shorter[i],
        ) by {
            assert(shorter[i] == text[i]);
        }
        let zeros = lemma_digits_are_a_numeral(shorter);
        let m = number(shorter);
        let last = text.last();
        assert(is_decimal_digit(text[text.len() - 1]));
        let n = number(text);
        assert(n == m * 10 + (last as int - 0x30));
        assert(text =~= shorter.push(last));
        if n == 0 {
            assert(digits(0) =~= seq![]);
            assert(last == '0');
            assert(text =~= numeral(zeros + 1, 0));
            zeros + 1
        } else {
            assert(n / 10 == m && n % 10 == last as int - 0x30);
            assert(('0' as int + n % 10) as char == last);
            assert(digits(n) == digits(m).push(last));
            assert(text =~= numeral(zeros, n));
            zeros
        }
    }
}

/// The text spells a number: its digits, with or without zeros and a `+` in front.
pub open spec fn spells(text: Seq<char>, n: nat) -> bool {
    exists|zeros: nat|
        (zeros > 0 || n > 0) && (text == #[trigger] numeral(zeros, n) || text == seq!['+']
            + numeral(zeros, n))
}

/// A text is read as a number where it spells one that is not above the limit, and only there.
pub proof fn law_numbers_are_what_is_spelled(text: Seq<char>, n: nat, max: nat)
    ensures
        parsed_unsigned(text, max) == Some(n) <==> spells(text, n) && n <= max,
        parsed_unsigned(text, max) is None <==> forall|m: nat| m <= max ==> !spells(text, m),
{
    let spelled = unsigned_digits(text);
    if let Some(m) = parsed_unsigned(text, max) {
        let zeros = lemma_digits_are_a_numeral(spelled);
        lemma_digits(m);
        assert(zeros > 0 || m > 0) by {
            if m == 0 && zeros == 0 {
                assert(digits(0) =~= seq![]);
                assert(spelled =~= seq![]);
            }
        }
        if spelled != text {
            assert(text =~= seq!['+'] + numeral(zeros, m));
        }
        assert(spells(text, m));
    }
    assert forall|m: nat| m <= max && #[trigger] spells(text, m) implies parsed_unsigned(text, max)
        == Some(m) by {
        let zeros = choose|zeros: nat|
            (zeros > 0 || m > 0) && (text == #[trigger] numeral(zeros, m) || text == seq!['+']
                + numeral(zeros, m));
        law_numbers_are_read(zeros, m, max);
        lemma_numeral(zeros, m);
        lemma_digits(m);
        let plain = numeral(zeros, m);
        assert(plain.len() > 0 && plain[0] != '+');
        if text != plain {
            assert(text.skip(1) =~= plain);
        }
    }
}

/// Numbers are written in decimal, without zeros in front; zero is written as one.
pub proof fn law_numbers_are_written(n: nat)
    ensures
        n > 0 ==> decimal(n) == digits(n),
        n == 0 ==> decimal(n) == seq!['0'],
    decreases n,
{
    if n >= 10 {
        law_numbers_are_written(n / 10);
    } else if n > 0 {
        assert(n / 10 == 0);
        assert(digits(0) =~= seq![]);
        assert(digits(n) =~= decimal(n));
    }
}

} // verus!
