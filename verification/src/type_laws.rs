//! What holds of the values that the types of fields take.
use crate::field_types::{
    digits_end, fits_type, is_decimal_number, is_exponent, is_float, is_integer,
};
use crate::message_laws::{digits, lemma_digits, lemma_digits_are_a_numeral, lemma_numeral, numeral};
use crate::text::{all_decimal, is_decimal_digit, lowered, number, uppered};
use vstd::prelude::*;

verus! {

/// A type of whole numbers.
pub open spec fn takes_integers(name: Seq<char>) -> bool {
    seq!["INT"@, "LENGTH"@, "NUMINGROUP"@, "SEQNUM"@, "DAYOFMONTH"@].contains(name)
}

/// A type of decimal numbers.
pub open spec fn takes_decimals(name: Seq<char>) -> bool {
    seq!["FLOAT"@, "QTY"@, "PRICE"@, "PRICEOFFSET"@, "AMT"@, "PERCENTAGE"@].contains(name)
}

/// A type of dates, times or months.
pub open spec fn takes_times(name: Seq<char>) -> bool {
    seq!["UTCTIMESTAMP"@, "UTCDATEONLY"@, "UTCTIMEONLY"@, "MONTHYEAR"@].contains(name)
}

/// The value spells a whole number: its digits, with or without zeros and a sign in front.
pub open spec fn spells_integer(value: Seq<char>, n: int) -> bool {
    exists|zeros: nat| #[trigger] spells_with(value, n, zeros)
}

/// The value without its sign.
pub open spec fn magnitude(n: int) -> nat {
    (if n < 0 {
        -n
    } else {
        n
    }) as nat
}

/// The value spells the number with so many zeros in front.
pub open spec fn spells_with(value: Seq<char>, n: int, zeros: nat) -> bool {
    let plain = numeral(zeros, magnitude(n));
    &&& zeros > 0 || n != 0
    &&& (n >= 0 && value == plain) || (n >= 0 && value == seq!['+'] + plain) || (n <= 0 && value
        == seq!['-'] + plain)
}

proof fn lemma_reads_as(value: Seq<char>, n: int)
    requires
        spells_integer(value, n),
    ensures
        is_integer(value) <==> -0x8000_0000_0000_0000 <= n <= 0x7fff_ffff_ffff_ffff,
{
    let size = magnitude(n);
    let zeros = choose|zeros: nat| #[trigger] spells_with(value, n, zeros);
    let plain = numeral(zeros, size);
    lemma_numeral(zeros, size);
    lemma_digits(size);
    assert(plain.len() > 0);
    assert(is_decimal_digit(plain[0]));
    if value == plain {
        assert(value.skip(0) =~= plain);
    } else {
        assert(value.skip(1) =~= plain);
    }
}

proof fn lemma_integer_is_spelled(value: Seq<char>) -> (n: int)
    requires
        is_integer(value),
    ensures
        spells_integer(value, n),
        -0x8000_0000_0000_0000 <= n <= 0x7fff_ffff_ffff_ffff,
{
    let signed = value.len() > 0 && (value[0] == '+' || value[0] == '-');
    let plain = value.skip(
        if signed {
            1
        } else {
            0
        },
    );
    let zeros = lemma_digits_are_a_numeral(plain);
    let size = number(plain);
    lemma_digits(size);
    assert(digits(0) =~= seq![]);
    assert(zeros > 0 || size > 0);
    if signed {
        assert(value =~= seq![value[0]] + plain);
    } else {
        assert(value =~= plain);
    }
    let n = if value[0] == '-' {
        -(size as int)
    } else {
        size as int
    };
    assert(magnitude(n) == size);
    assert(spells_with(value, n, zeros));
    n
}

/// A field of whole numbers takes exactly the texts that spell one of 64 bits.
pub proof fn law_integers_are_taken(value: Seq<char>, field_type: Seq<char>)
    requires
        takes_integers(uppered(field_type)),
    ensures
        fits_type(value, field_type) <==> exists|n: int| #[trigger]
            spells_integer(value, n) && -0x8000_0000_0000_0000 <= n <= 0x7fff_ffff_ffff_ffff,
{
    lemma_type_names(uppered(field_type));
    if is_integer(value) {
        let n = lemma_integer_is_spelled(value);
    }
    if exists|n: int| #[trigger]
        spells_integer(value, n) && -0x8000_0000_0000_0000 <= n <= 0x7fff_ffff_ffff_ffff {
        let n = choose|n: int| #[trigger]
            spells_integer(value, n) && -0x8000_0000_0000_0000 <= n <= 0x7fff_ffff_ffff_ffff;
        lemma_reads_as(value, n);
    }
}

/// Which list a name is in.
proof fn lemma_type_names(name: Seq<char>)
    ensures
        takes_integers(name) <==> crate::field_types::is_integer_type(name),
        takes_decimals(name) <==> crate::field_types::is_float_type(name),
        takes_times(name) <==> name == "UTCTIMESTAMP"@ || name == "UTCDATEONLY"@ || name
            == "UTCTIMEONLY"@ || name == "MONTHYEAR"@,
        takes_integers(name) ==> !takes_decimals(name),
{
    let whole = seq!["INT"@, "LENGTH"@, "NUMINGROUP"@, "SEQNUM"@, "DAYOFMONTH"@];
    let parts = seq!["FLOAT"@, "QTY"@, "PRICE"@, "PRICEOFFSET"@, "AMT"@, "PERCENTAGE"@];
    let times = seq!["UTCTIMESTAMP"@, "UTCDATEONLY"@, "UTCTIMEONLY"@, "MONTHYEAR"@];
    assert(whole[0] == "INT"@ && whole[1] == "LENGTH"@ && whole[2] == "NUMINGROUP"@ && whole[3]
        == "SEQNUM"@ && whole[4] == "DAYOFMONTH"@);
    assert(parts[0] == "FLOAT"@ && parts[1] == "QTY"@ && parts[2] == "PRICE"@ && parts[3]
        == "PRICEOFFSET"@ && parts[4] == "AMT"@ && parts[5] == "PERCENTAGE"@);
    assert(times[0] == "UTCTIMESTAMP"@ && times[1] == "UTCDATEONLY"@ && times[2] == "UTCTIMEONLY"@
        && times[3] == "MONTHYEAR"@);
    lemma_type_words();
}

/// What the words start with.
proof fn lemma_type_words()
    ensures
        "INT"@.len() > 0 && "INT"@[0] == 'I',
        "LENGTH"@.len() > 0 && "LENGTH"@[0] == 'L',
        "NUMINGROUP"@.len() > 0 && "NUMINGROUP"@[0] == 'N',
        "SEQNUM"@.len() > 0 && "SEQNUM"@[0] == 'S',
        "DAYOFMONTH"@.len() > 0 && "DAYOFMONTH"@[0] == 'D',
        "FLOAT"@.len() > 0 && "FLOAT"@[0] == 'F',
        "QTY"@.len() > 0 && "QTY"@[0] == 'Q',
        "PRICE"@.len() > 0 && "PRICE"@[0] == 'P',
        "PRICEOFFSET"@.len() > 0 && "PRICEOFFSET"@[0] == 'P',
        "AMT"@.len() > 0 && "AMT"@[0] == 'A',
        "PERCENTAGE"@.len() > 0 && "PERCENTAGE"@[0] == 'P',
        "BOOLEAN"@.len() > 0 && "BOOLEAN"@[0] == 'B',
        "CHAR"@.len() > 0 && "CHAR"@[0] == 'C',
        "UTCTIMESTAMP"@.len() > 0 && "UTCTIMESTAMP"@[0] == 'U',
        "UTCDATEONLY"@.len() > 0 && "UTCDATEONLY"@[0] == 'U',
        "UTCTIMEONLY"@.len() > 0 && "UTCTIMEONLY"@[0] == 'U',
        "MONTHYEAR"@.len() > 0 && "MONTHYEAR"@[0] == 'M',
{
    reveal_strlit("INT");
    reveal_strlit("LENGTH");
    reveal_strlit("NUMINGROUP");
    reveal_strlit("SEQNUM");
    reveal_strlit("DAYOFMONTH");
    reveal_strlit("FLOAT");
    reveal_strlit("QTY");
    reveal_strlit("PRICE");
    reveal_strlit("PRICEOFFSET");
    reveal_strlit("AMT");
    reveal_strlit("PERCENTAGE");
    reveal_strlit("BOOLEAN");
    reveal_strlit("CHAR");
    reveal_strlit("UTCTIMESTAMP");
    reveal_strlit("UTCDATEONLY");
    reveal_strlit("UTCTIMEONLY");
    reveal_strlit("MONTHYEAR");
}

/// A yes-or-no field takes `Y` and `N` and nothing else, and a character field takes one
/// character, whichever it is. A field of any other type that is not of numbers or times
/// takes everything.
pub proof fn law_flags_and_characters_are_taken(value: Seq<char>, field_type: Seq<char>)
    ensures
        uppered(field_type) == "BOOLEAN"@ ==> (fits_type(value, field_type) <==> value == seq!['Y']
            || value == seq!['N']),
        uppered(field_type) == "CHAR"@ ==> (fits_type(value, field_type) <==> value.len() == 1),
        ({
            let name = uppered(field_type);
            !takes_integers(name) && !takes_decimals(name) && !takes_times(name) && name
                != "BOOLEAN"@ && name != "CHAR"@ ==> fits_type(value, field_type)
        }),
{
    lemma_type_names(uppered(field_type));
    lemma_type_words();
    reveal_strlit("Y");
    reveal_strlit("N");
    assert("Y"@ =~= seq!['Y']);
    assert("N"@ =~= seq!['N']);
}

proof fn lemma_digits_run(text: Seq<char>, from: int, to: int)
    requires
        0 <= from <= to <= text.len(),
        forall|i: int| from <= i < to ==> is_decimal_digit(#[trigger] text[i]),
        to < text.len() ==> !is_decimal_digit(text[to]),
    ensures
        digits_end(text, from) == to,
    decreases to - from,
{
    if from < to {
        lemma_digits_run(text, from + 1, to);
    }
}

/// A field of decimal numbers takes a sign or none, digits, a point or none with digits on
/// either side of it, and an exponent or none.
pub proof fn law_decimals_are_taken(
    sign: Seq<char>,
    whole: Seq<char>,
    part: Seq<char>,
    mark: char,
    exponent_sign: Seq<char>,
    exponent: Seq<char>,
    field_type: Seq<char>,
)
    requires
        takes_decimals(uppered(field_type)),
        sign == seq!['+'] || sign == seq!['-'] || sign.len() == 0,
        exponent_sign == seq!['+'] || exponent_sign == seq!['-'] || exponent_sign.len() == 0,
        all_decimal(whole),
        all_decimal(part),
        all_decimal(exponent),
        whole.len() + part.len() > 0,
        mark == 'e' || mark == 'E',
        exponent.len() > 0,
    ensures
        whole.len() > 0 ==> fits_type(sign + whole, field_type),
        whole.len() > 0 ==> fits_type(
            sign + whole + seq![mark] + exponent_sign + exponent,
            field_type,
        ),
        fits_type(sign + whole + seq!['.'] + part, field_type),
        fits_type(
            sign + whole + seq!['.'] + part + seq![mark] + exponent_sign + exponent,
            field_type,
        ),
{
    lemma_type_names(uppered(field_type));
    let at = sign.len() as int;
    let end = at + whole.len();
    let tail = seq![mark] + exponent_sign + exponent;
    if whole.len() > 0 {
        let text = sign + whole;
        assert forall|i: int| at <= i < end implies is_decimal_digit(#[trigger] text[i]) by {
            assert(text[i] == whole[i - at]);
        }
        assert(is_decimal_digit(whole[0]));
        lemma_digits_run(text, at, end);
        assert(is_float(text));
        let text = sign + whole + seq![mark] + exponent_sign + exponent;
        assert forall|i: int| at <= i < end implies is_decimal_digit(#[trigger] text[i]) by {
            assert(text[i] == whole[i - at]);
        }
        assert(text[at] == whole[0]);
        assert(text[end] == mark);
        lemma_digits_run(text, at, end);
        lemma_exponent(text, sign + whole, mark, exponent_sign, exponent);
        assert(is_float(text));
    }
    let text = sign + whole + seq!['.'] + part;
    let last = end + 1 + part.len();
    assert forall|i: int| at <= i < end implies is_decimal_digit(#[trigger] text[i]) by {
        assert(text[i] == whole[i - at]);
    }
    assert forall|i: int| end < i < last implies is_decimal_digit(#[trigger] text[i]) by {
        assert(text[i] == part[i - end - 1]);
    }
    if whole.len() > 0 {
        assert(is_decimal_digit(whole[0]));
        assert(text[at] == whole[0]);
    }
    assert(text[end] == '.');
    lemma_digits_run(text, at, end);
    lemma_digits_run(text, end + 1, last);
    assert(is_float(text));
    let text = sign + whole + seq!['.'] + part + seq![mark] + exponent_sign + exponent;
    assert forall|i: int| at <= i < end implies is_decimal_digit(#[trigger] text[i]) by {
        assert(text[i] == whole[i - at]);
    }
    assert forall|i: int| end < i < last implies is_decimal_digit(#[trigger] text[i]) by {
        assert(text[i] == part[i - end - 1]);
    }
    if whole.len() > 0 {
        assert(text[at] == whole[0]);
    }
    assert(text[end] == '.');
    assert(text[last] == mark);
    lemma_digits_run(text, at, end);
    lemma_digits_run(text, end + 1, last);
    lemma_exponent(text, sign + whole + seq!['.'] + part, mark, exponent_sign, exponent);
    assert(is_float(text));
}

proof fn lemma_exponent(
    text: Seq<char>,
    head: Seq<char>,
    mark: char,
    sign: Seq<char>,
    exponent: Seq<char>,
)
    requires
        text == head + seq![mark] + sign + exponent,
        mark == 'e' || mark == 'E',
        sign == seq!['+'] || sign == seq!['-'] || sign.len() == 0,
        all_decimal(exponent),
        exponent.len() > 0,
    ensures
        is_exponent(text, head.len() as int),
{
    let at = head.len() as int;
    let from = at + 1 + sign.len();
    assert(text[at] == mark);
    assert forall|i: int| from <= i < text.len() implies is_decimal_digit(#[trigger] text[i]) by {
        assert(text[i] == exponent[i - from]);
    }
    if sign.len() > 0 {
        assert(text[at + 1] == sign[0]);
    } else {
        assert(text[at + 1] == exponent[0]);
    }
    lemma_digits_run(text, from, text.len() as int);
}

proof fn lemma_digits_end(text: Seq<char>, from: int)
    requires
        0 <= from <= text.len(),
    ensures
        from <= digits_end(text, from) <= text.len(),
        forall|i: int|
            from <= i < digits_end(text, from) ==> is_decimal_digit(#[trigger] text[i]),
    decreases text.len() - from,
{
    if from < text.len() && is_decimal_digit(text[from]) {
        lemma_digits_end(text, from + 1);
    }
}

/// A field of decimal numbers takes nothing but digits, signs, a point and the mark of an
/// exponent; and no text without a digit. Left out are `inf`, `infinity` and `nan`.
pub proof fn law_other_decimals_are_refused(value: Seq<char>, field_type: Seq<char>, i: int)
    requires
        takes_decimals(uppered(field_type)),
        !seq!["inf"@, "infinity"@, "nan"@].contains(lowered(value)),
        value.len() > 0 && (value[0] == '+' || value[0] == '-') ==> !seq![
            "inf"@,
            "infinity"@,
            "nan"@,
        ].contains(lowered(value.skip(1))),
    ensures
        0 <= i < value.len() && !('0' <= value[i] <= '9') && !seq!['+', '-', '.', 'e', 'E'].contains(
            value[i],
        ) ==> !fits_type(value, field_type),
        (forall|k: int| 0 <= k < value.len() ==> !('0' <= #[trigger] value[k] <= '9')) ==> !fits_type(
            value,
            field_type,
        ),
        fits_type(value, field_type) && 0 <= i < value.len() && (value[i] == '+' || value[i] == '-')
            ==> i == 0 || value[i - 1] == 'e' || value[i - 1] == 'E',
        fits_type(value, field_type) && 0 <= i < value.len() && value[i] == '.' ==> forall|k: int|
            0 <= k < value.len() && k != i ==> #[trigger] value[k] != '.',
{
    lemma_type_names(uppered(field_type));
    let words = seq!["inf"@, "infinity"@, "nan"@];
    assert(words[0] == "inf"@ && words[1] == "infinity"@ && words[2] == "nan"@);
    reveal_strlit("inf");
    reveal_strlit("infinity");
    reveal_strlit("nan");
    assert(lowered("inf"@) =~= "inf"@);
    assert(lowered("infinity"@) =~= "infinity"@);
    assert(lowered("nan"@) =~= "nan"@);
    let signs = seq!['+', '-', '.', 'e', 'E'];
    assert(signs[0] == '+' && signs[1] == '-' && signs[2] == '.' && signs[3] == 'e' && signs[4]
        == 'E');
    let signed = value.len() > 0 && (value[0] == '+' || value[0] == '-');
    let at: int = if signed {
        1
    } else {
        0
    };
    assert(value.skip(0) =~= value);
    if fits_type(value, field_type) {
        assert(is_decimal_number(value, at));
        lemma_digits_end(value, at);
        let whole = digits_end(value, at);
        let pointed = whole < value.len() && value[whole] == '.';
        if pointed {
            lemma_digits_end(value, whole + 1);
        }
        let mantissa = if pointed {
            digits_end(value, whole + 1)
        } else {
            whole
        };
        if mantissa < value.len() {
            let from = if mantissa + 1 < value.len() && (value[mantissa + 1] == '+'
                || value[mantissa + 1] == '-') {
                mantissa + 2
            } else {
                mantissa + 1
            };
            lemma_digits_end(value, from);
        }
        if whole > at {
            assert(is_decimal_digit(value[at]));
        } else {
            assert(is_decimal_digit(value[whole + 1]));
        }
    }
}

} // verus!
