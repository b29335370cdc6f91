//! What holds of obfuscation as a whole.
use crate::fixparser::FieldPair;
use crate::integrity::{byte_sum, lemma_byte_sum_add};
use crate::message_laws::{
    closed, digits, field_text, law_numbers_are_read, law_numbers_are_written, law_pieces_come_apart,
    lemma_digits, lemma_field_text, lemma_numeral, lemma_split_once, message_text, numeral,
};
use crate::obfuscator::{
    alias_text, bytes_sum, bytes_taken, checksum_fragment, counted, end_of, first_keyed, key_of,
    last_keyed, length_fragment, obfuscated_line, obfuscated_message, obfuscated_spans, passed,
    refreshed, sensitive_field, AliasModel, Pass, Written,
};
use crate::repair_laws::{lemma_encode_add, lemma_encode_soh};
use crate::text::{
    decimal, digit_char, join, lemma_next_char, next_char, number, repeated, right_aligned, split,
    split_from, SOH,
};
use crate::verdict_laws::{lemma_total, three_digits, total};
use vstd::prelude::*;
use vstd::utf8::encode_utf8;

verus! {

/// Every alias of `earlier` is still there in `later`.
pub open spec fn keeps(later: AliasModel, earlier: AliasModel) -> bool {
    forall|tag: u32, value: Seq<char>| #[trigger]
        earlier.knows(tag, value) ==> later.knows(tag, value) && later.of(tag)[value]
            == earlier.of(tag)[value]
}

proof fn lemma_aliased_keeps(state: AliasModel, tag: u32, value: Seq<char>, name: Seq<char>)
    ensures
        keeps(state.aliased(tag, value, name), state),
        state.aliased(tag, value, name).knows(tag, value),
        state.aliased(tag, value, name).of(tag)[value] == state.alias(tag, value, name),
{
    let later = state.aliased(tag, value, name);
    assert forall|t: u32, v: Seq<char>| #[trigger] state.knows(t, v) implies later.knows(t, v)
        && later.of(t)[v] == state.of(t)[v] by {
        if !state.knows(tag, value) && t != tag {
            assert(later.aliases.contains_key(t) == state.aliases.contains_key(t));
        }
    }
}

proof fn lemma_keeps_transitive(a: AliasModel, b: AliasModel, c: AliasModel)
    requires
        keeps(a, b),
        keeps(b, c),
    ensures
        keeps(a, c),
{
    assert forall|tag: u32, value: Seq<char>| #[trigger] c.knows(tag, value) implies a.knows(
        tag,
        value,
    ) && a.of(tag)[value] == c.of(tag)[value] by {
        assert(b.knows(tag, value));
    }
}

proof fn lemma_passed_keeps(
    pieces: Seq<Seq<char>>,
    tags: Map<u32, Seq<char>>,
    state: AliasModel,
)
    ensures
        keeps(passed(pieces, tags, state).state, state),
    decreases pieces.len(),
{
    if pieces.len() > 0 {
        let before = passed(pieces.drop_last(), tags, state);
        lemma_passed_keeps(pieces.drop_last(), tags, state);
        if let Some((tag, value)) = sensitive_field(pieces.last(), tags) {
            lemma_aliased_keeps(before.state, tag, value, tags[tag]);
            lemma_keeps_transitive(
                before.state.aliased(tag, value, tags[tag]),
                before.state,
                state,
            );
        }
    }
}

/// Pieces whose aliases are all given come out the same, and give no new ones.
proof fn lemma_passed_again(
    pieces: Seq<Seq<char>>,
    tags: Map<u32, Seq<char>>,
    state: AliasModel,
    later: AliasModel,
)
    requires
        keeps(later, passed(pieces, tags, state).state),
    ensures
        passed(pieces, tags, later) == (Pass { state: later, ..passed(pieces, tags, state) }),
    decreases pieces.len(),
{
    if pieces.len() > 0 {
        let before = passed(pieces.drop_last(), tags, state);
        if let Some((tag, value)) = sensitive_field(pieces.last(), tags) {
            if pieces.last().len() > 0 {
                let after = before.state.aliased(tag, value, tags[tag]);
                lemma_aliased_keeps(before.state, tag, value, tags[tag]);
                lemma_keeps_transitive(later, after, before.state);
                assert(after.knows(tag, value));
                assert(later.knows(tag, value));
            }
        }
        lemma_passed_again(pieces.drop_last(), tags, state, later);
    }
}

proof fn lemma_message_again(
    msg: Seq<char>,
    tags: Map<u32, Seq<char>>,
    state: AliasModel,
    later: AliasModel,
)
    requires
        keeps(later, obfuscated_message(msg, tags, state).state),
    ensures
        obfuscated_message(msg, tags, later) == (Written {
            state: later,
            ..obfuscated_message(msg, tags, state)
        }),
        keeps(obfuscated_message(msg, tags, state).state, state),
{
    lemma_passed_again(split(msg, SOH), tags, state, later);
    lemma_passed_keeps(split(msg, SOH), tags, state);
}

proof fn lemma_spans_again(
    line: Seq<char>,
    spans: Seq<(usize, usize)>,
    n: int,
    tags: Map<u32, Seq<char>>,
    state: AliasModel,
    later: AliasModel,
)
    requires
        keeps(later, obfuscated_spans(line, spans, n, tags, state).state),
    ensures
        obfuscated_spans(line, spans, n, tags, later) == (Written {
            state: later,
            ..obfuscated_spans(line, spans, n, tags, state)
        }),
    decreases n,
{
    if 0 < n <= spans.len() {
        let before = obfuscated_spans(line, spans, n - 1, tags, state);
        let (start, end) = spans[n - 1];
        let msg = line.subrange(start as int, end as int);
        let message = obfuscated_message(msg, tags, before.state);
        lemma_message_again(msg, tags, before.state, later);
        lemma_keeps_transitive(later, message.state, before.state);
        lemma_spans_again(line, spans, n - 1, tags, state, later);
    }
}

/// Aliases are stable: a line that comes again, with any lines between, is written the
/// same, and gives no new aliases. `later` is any state that still has the aliases of the
/// line's first time.
pub proof fn law_aliases_are_stable(
    line: Seq<char>,
    spans: Seq<(usize, usize)>,
    tags: Map<u32, Seq<char>>,
    state: AliasModel,
    later: AliasModel,
)
    requires
        keeps(later, obfuscated_line(line, spans, tags, state).state),
    ensures
        obfuscated_line(line, spans, tags, later) == (Written {
            state: later,
            ..obfuscated_line(line, spans, tags, state)
        }),
{
    let n = spans.len() as int;
    let messages = obfuscated_spans(line, spans, n, tags, state);
    if end_of(spans, n) > 0 {
        lemma_spans_again(line, spans, n, tags, state, later);
    } else {
        lemma_message_again(line, tags, messages.state, later);
        lemma_keeps_transitive(
            later,
            obfuscated_message(line, tags, messages.state).state,
            messages.state,
        );
        lemma_spans_again(line, spans, n, tags, state, later);
    }
}

proof fn lemma_spans_keep(
    line: Seq<char>,
    spans: Seq<(usize, usize)>,
    n: int,
    tags: Map<u32, Seq<char>>,
    state: AliasModel,
)
    ensures
        keeps(obfuscated_spans(line, spans, n, tags, state).state, state),
    decreases n,
{
    if 0 < n <= spans.len() {
        let before = obfuscated_spans(line, spans, n - 1, tags, state);
        let (start, end) = spans[n - 1];
        let msg = line.subrange(start as int, end as int);
        lemma_spans_keep(line, spans, n - 1, tags, state);
        lemma_passed_keeps(split(msg, SOH), tags, before.state);
        lemma_keeps_transitive(
            obfuscated_message(msg, tags, before.state).state,
            before.state,
            state,
        );
    }
}

/// No line takes an alias away.
pub proof fn law_lines_keep_aliases(
    line: Seq<char>,
    spans: Seq<(usize, usize)>,
    tags: Map<u32, Seq<char>>,
    state: AliasModel,
)
    ensures
        keeps(obfuscated_line(line, spans, tags, state).state, state),
{
    let n = spans.len() as int;
    let messages = obfuscated_spans(line, spans, n, tags, state);
    lemma_spans_keep(line, spans, n, tags, state);
    if end_of(spans, n) <= 0 {
        lemma_passed_keeps(split(line, SOH), tags, messages.state);
        lemma_keeps_transitive(
            obfuscated_message(line, tags, messages.state).state,
            messages.state,
            state,
        );
    }
}

proof fn lemma_decimal_number(n: nat)
    ensures
        number(decimal(n)) == n,
    decreases n,
{
    assert(digit_char(n % 10) as nat - '0' as nat == n % 10);
    if n >= 10 {
        lemma_decimal_number(n / 10);
        assert(decimal(n).drop_last() =~= decimal(n / 10));
    } else {
        assert(decimal(n).drop_last() =~= seq![]);
        assert(number(decimal(n).drop_last()) == 0);
    }
}

proof fn lemma_leading_zeros(zeros: nat, digits: Seq<char>)
    ensures
        number(repeated('0', zeros) + digits) == number(digits),
    decreases digits.len(), zeros,
{
    let text = repeated('0', zeros) + digits;
    if digits.len() > 0 {
        assert(text.drop_last() =~= repeated('0', zeros) + digits.drop_last());
        lemma_leading_zeros(zeros, digits.drop_last());
    } else if zeros > 0 {
        assert(text.drop_last() =~= repeated('0', (zeros - 1) as nat) + digits);
        lemma_leading_zeros((zeros - 1) as nat, digits);
    }
}

proof fn lemma_alias_text_injective(name: Seq<char>, a: u32, b: u32)
    requires
        alias_text(name, a) == alias_text(name, b),
    ensures
        a == b,
{
    let x = right_aligned(decimal(a as nat), 4, '0');
    let y = right_aligned(decimal(b as nat), 4, '0');
    assert(alias_text(name, a).skip(name.len() as int) =~= x);
    assert(alias_text(name, b).skip(name.len() as int) =~= y);
    lemma_decimal_number(a as nat);
    lemma_decimal_number(b as nat);
    if decimal(a as nat).len() < 4 {
        lemma_leading_zeros((4 - decimal(a as nat).len()) as nat, decimal(a as nat));
    }
    if decimal(b as nat).len() < 4 {
        lemma_leading_zeros((4 - decimal(b as nat).len()) as nat, decimal(b as nat));
    }
}

/// The alias of every value is one of its tag's first numbered ones, and no two values of a
/// tag share one.
pub open spec fn distinct_aliases(state: AliasModel, tags: Map<u32, Seq<char>>) -> bool {
    &&& forall|tag: u32, value: Seq<char>| #[trigger]
        state.knows(tag, value) ==> exists|n: u32|
            1 <= n <= state.count(tag) && state.of(tag)[value] == #[trigger] alias_text(
                tags[tag],
                n,
            )
    &&& forall|tag: u32, a: Seq<char>, b: Seq<char>| #[trigger]
        state.knows(tag, a) && #[trigger] state.knows(tag, b) && a != b ==> state.of(tag)[a]
            != state.of(tag)[b]
}

/// Aliases tell values apart: from the start, and with each alias given, no two values of a
/// tag have the same one. Left out is the alias behind the largest number, where the count
/// starts over.
pub proof fn law_aliases_are_distinct(
    state: AliasModel,
    tags: Map<u32, Seq<char>>,
    tag: u32,
    value: Seq<char>,
)
    requires
        distinct_aliases(state, tags),
        state.count(tag) < u32::MAX,
    ensures
        distinct_aliases(AliasModel::fresh(), tags),
        distinct_aliases(state.aliased(tag, value, tags[tag]), tags),
{
    let later = state.aliased(tag, value, tags[tag]);
    if !state.knows(tag, value) {
        let fresh = counted(state.count(tag));
        let alias = alias_text(tags[tag], fresh);
        assert forall|t: u32, v: Seq<char>| #[trigger] later.knows(t, v) implies exists|n: u32|
            1 <= n <= later.count(t) && later.of(t)[v] == #[trigger] alias_text(tags[t], n) by {
            if t == tag && v == value {
                assert(later.of(t)[v] == alias_text(tags[t], fresh));
            } else {
                assert(state.knows(t, v));
                assert(later.of(t)[v] == state.of(t)[v]);
                let n = choose|n: u32|
                    1 <= n <= state.count(t) && state.of(t)[v] == #[trigger] alias_text(
                        tags[t],
                        n,
                    );
                assert(n <= later.count(t));
            }
        }
        assert forall|v: Seq<char>| #[trigger] state.knows(tag, v) implies state.of(tag)[v]
            != alias by {
            let n = choose|n: u32|
                1 <= n <= state.count(tag) && state.of(tag)[v] == #[trigger] alias_text(
                    tags[tag],
                    n,
                );
            if state.of(tag)[v] == alias {
                lemma_alias_text_injective(tags[tag], n, fresh);
            }
        }
        assert forall|t: u32, a: Seq<char>, b: Seq<char>| #[trigger] later.knows(t, a)
            && #[trigger] later.knows(t, b) && a != b implies later.of(t)[a] != later.of(t)[b] by {
            if t == tag {
                if a == value {
                    assert(state.knows(t, b));
                } else if b == value {
                    assert(state.knows(t, a));
                } else {
                    assert(state.knows(t, a) && state.knows(t, b));
                }
            } else {
                assert(state.knows(t, a) && state.knows(t, b));
            }
        }
    }
}

/// The state once each value, with its tag, has asked for its alias, from the start.
pub open spec fn after_requests(requests: Seq<(u32, Seq<char>)>, tags: Map<u32, Seq<char>>) -> AliasModel
    decreases requests.len(),
{
    if requests.len() == 0 {
        AliasModel::fresh()
    } else {
        let (tag, value) = requests.last();
        after_requests(requests.drop_last(), tags).aliased(tag, value, tags[tag])
    }
}

/// The values of a tag in the order in which they first asked.
pub open spec fn first_values(requests: Seq<(u32, Seq<char>)>, tag: u32) -> Seq<Seq<char>>
    decreases requests.len(),
{
    if requests.len() == 0 {
        seq![]
    } else {
        let before = first_values(requests.drop_last(), tag);
        let (last_tag, value) = requests.last();
        if last_tag == tag && !before.contains(value) {
            before.push(value)
        } else {
            before
        }
    }
}

/// Aliases are numbered: the values of a tag get, in the order in which they first ask, the
/// name of the tag with 1, 2 and so on in at least four digits, for each tag on its own. Two
/// values have one alias only where they are the same. That holds up to the largest number,
/// behind which the count starts over.
pub proof fn law_aliases_are_numbered(
    requests: Seq<(u32, Seq<char>)>,
    tags: Map<u32, Seq<char>>,
    tag: u32,
)
    requires
        first_values(requests, tag).len() <= u32::MAX,
    ensures
        ({
            let state = after_requests(requests, tags);
            let values = first_values(requests, tag);
            &&& state.count(tag) == values.len()
            &&& forall|value: Seq<char>| #[trigger]
                state.knows(tag, value) <==> values.contains(value)
            &&& forall|k: int|
                0 <= k < values.len() ==> state.of(tag)[#[trigger] values[k]] == alias_text(
                    tags[tag],
                    (k + 1) as u32,
                )
            &&& forall|a: Seq<char>, b: Seq<char>| #[trigger]
                state.knows(tag, a) && #[trigger] state.knows(tag, b) && state.of(tag)[a]
                    == state.of(tag)[b] ==> a == b
        }),
    decreases requests.len(),
{
    let state = after_requests(requests, tags);
    let values = first_values(requests, tag);
    if requests.len() > 0 {
        let earlier = first_values(requests.drop_last(), tag);
        let before = after_requests(requests.drop_last(), tags);
        let (last_tag, value) = requests.last();
        law_aliases_are_numbered(requests.drop_last(), tags, tag);
        if last_tag == tag && !earlier.contains(value) {
            assert(!before.knows(tag, value));
            assert(counted(before.count(tag)) == values.len());
            assert(state.of(tag) == before.of(tag).insert(
                value,
                alias_text(tags[tag], values.len() as u32),
            ));
            assert forall|v: Seq<char>| #[trigger] state.knows(tag, v) == values.contains(v) by {
                assert(before.knows(tag, v) == earlier.contains(v));
                if earlier.contains(v) {
                    let j = earlier.index_of(v);
                    assert(values[j] == v);
                }
                if v == value {
                    assert(values[values.len() - 1] == v);
                }
                if values.contains(v) {
                    let j = values.index_of(v);
                    if j < earlier.len() {
                        assert(earlier[j] == v);
                    }
                }
            }
            assert forall|k: int| 0 <= k < values.len() implies state.of(tag)[#[trigger] values[k]]
                == alias_text(tags[tag], (k + 1) as u32) by {
                if k < earlier.len() {
                    assert(earlier[k] == values[k]);
                    assert(earlier.contains(values[k]));
                }
            }
        } else {
            assert(state.of(tag) == before.of(tag)) by {
                if last_tag == tag {
                    assert(before.knows(tag, value));
                }
            }
            assert(state.count(tag) == before.count(tag));
            assert forall|v: Seq<char>| #[trigger] state.knows(tag, v) == values.contains(v) by {
                assert(before.knows(tag, v) == earlier.contains(v));
            }
        }
    }
    assert forall|a: Seq<char>, b: Seq<char>| #[trigger] state.knows(tag, a) && #[trigger] state.knows(
        tag,
        b,
    ) && state.of(tag)[a] == state.of(tag)[b] implies a == b by {
        let i = values.index_of(a);
        let j = values.index_of(b);
        assert(values[i] == a && values[j] == b);
        lemma_alias_text_injective(tags[tag], (i + 1) as u32, (j + 1) as u32);
    }
}

/// The alias that the request at `i` is given.
pub open spec fn given(
    requests: Seq<(u32, Seq<char>)>,
    tags: Map<u32, Seq<char>>,
    i: int,
) -> Seq<char> {
    let (tag, value) = requests[i];
    after_requests(requests.take(i), tags).alias(tag, value, tags[tag])
}

/// What is given is still there after all requests.
proof fn lemma_given_is_kept(
    requests: Seq<(u32, Seq<char>)>,
    tags: Map<u32, Seq<char>>,
    i: int,
)
    requires
        0 <= i < requests.len(),
    ensures
        after_requests(requests, tags).knows(requests[i].0, requests[i].1),
        after_requests(requests, tags).of(requests[i].0)[requests[i].1] == given(requests, tags, i),
    decreases requests.len(),
{
    let shorter = requests.drop_last();
    let (tag, value) = requests.last();
    lemma_aliased_keeps(after_requests(shorter, tags), tag, value, tags[tag]);
    if i < shorter.len() {
        lemma_given_is_kept(shorter, tags, i);
        assert(shorter.take(i) =~= requests.take(i));
        assert(shorter[i] == requests[i]);
    } else {
        assert(requests.take(i) =~= shorter);
    }
}

/// Aliases stand for values: of two requests for one tag, both are given the same alias where
/// their values are the same, and only there. The alias is the name of the tag with the place
/// of the value among those that asked, from 1 on and in at least four digits. That holds up
/// to the largest number, behind which the count starts over.
pub proof fn law_aliases_stand_for_values(
    requests: Seq<(u32, Seq<char>)>,
    tags: Map<u32, Seq<char>>,
    i: int,
    j: int,
)
    requires
        0 <= i < requests.len(),
        0 <= j < requests.len(),
        requests[i].0 == requests[j].0,
        first_values(requests, requests[i].0).len() <= u32::MAX,
    ensures
        given(requests, tags, i) == given(requests, tags, j) <==> requests[i].1 == requests[j].1,
        ({
            let tag = requests[i].0;
            let values = first_values(requests, tag);
            &&& values.contains(requests[i].1)
            &&& given(requests, tags, i) == alias_text(
                tags[tag],
                (values.index_of(requests[i].1) + 1) as u32,
            )
        }),
{
    let tag = requests[i].0;
    let values = first_values(requests, tag);
    law_aliases_are_numbered(requests, tags, tag);
    lemma_given_is_kept(requests, tags, i);
    lemma_given_is_kept(requests, tags, j);
    assert(values.contains(requests[i].1));
    assert(values[values.index_of(requests[i].1)] == requests[i].1);
}

/// The number of an alias is written behind the name, in four digits or more.
pub proof fn law_aliases_are_written(name: Seq<char>, n: u32)
    ensures
        n > 0 ==> alias_text(name, n) == name + numeral(
            if n < 10 {
                3
            } else if n < 100 {
                2
            } else if n < 1000 {
                1
            } else {
                0
            },
            n as nat,
        ),
{
    law_numbers_are_written(n as nat);
    reveal_with_fuel(digits, 5);
    if n > 0 {
        lemma_digits(n as nat / 10);
        lemma_digits(n as nat / 100);
        lemma_digits(n as nat / 1000);
        assert(n as nat / 10 / 10 == n as nat / 100);
        assert(n as nat / 10 / 10 / 10 == n as nat / 1000);
        assert(alias_text(name, n) =~= name + numeral(
            if n < 10 {
                3
            } else if n < 100 {
                2
            } else if n < 1000 {
                1
            } else {
                0
            },
            n as nat,
        ));
    }
}

/// The fields as they are written, each a piece of the message.
pub open spec fn written_pieces(fields: Seq<FieldPair>) -> Seq<Seq<char>> {
    Seq::new(
        fields.len(),
        |i: int|
            field_text(
                if fields[i].0 == 0 {
                    1
                } else {
                    0
                },
                fields[i],
            ),
    )
}

/// No value holds the delimiter.
pub open spec fn plain_values(fields: Seq<FieldPair>) -> bool {
    forall|i: int| 0 <= i < fields.len() ==> !(#[trigger] fields[i]).1.contains(SOH)
}

proof fn lemma_closed_last(pieces: Seq<Seq<char>>)
    requires
        pieces.len() > 0,
    ensures
        closed(pieces) == closed(pieces.drop_last()) + pieces.last() + seq![SOH],
    decreases pieces.len(),
{
    if pieces.len() == 1 {
        assert(pieces.skip(1) =~= seq![]);
        assert(pieces.drop_last() =~= seq![]);
        assert(closed(seq![]) =~= seq![]);
        assert(closed(pieces) =~= closed(pieces.drop_last()) + pieces.last() + seq![SOH]);
    } else {
        let rest = pieces.skip(1);
        lemma_closed_last(rest);
        assert(rest.drop_last() =~= pieces.drop_last().skip(1));
        assert(rest.last() == pieces.last());
        assert(closed(pieces) =~= closed(pieces.drop_last()) + pieces.last() + seq![SOH]);
    }
}

proof fn lemma_message_pieces(fields: Seq<FieldPair>)
    ensures
        message_text(fields) == closed(written_pieces(fields)),
    decreases fields.len(),
{
    if fields.len() > 0 {
        lemma_message_pieces(fields.skip(1));
        assert(written_pieces(fields).skip(1) =~= written_pieces(fields.skip(1)));
    }
}

proof fn lemma_joined_pieces(pieces: Seq<Seq<char>>)
    requires
        pieces.len() > 0,
    ensures
        join(pieces, seq![SOH]).push(SOH) == closed(pieces),
    decreases pieces.len(),
{
    lemma_closed_last(pieces);
    if pieces.len() == 1 {
        assert(pieces.drop_last() =~= seq![]);
        assert(closed(seq![]) =~= seq![]);
    } else {
        lemma_joined_pieces(pieces.drop_last());
    }
    assert(join(pieces, seq![SOH]).push(SOH) =~= closed(pieces));
}

proof fn lemma_pieces_measured(pieces: Seq<Seq<char>>)
    ensures
        bytes_taken(pieces) == encode_utf8(closed(pieces)).len(),
        bytes_sum(pieces) == byte_sum(encode_utf8(closed(pieces))),
    decreases pieces.len(),
{
    if pieces.len() == 0 {
        assert(encode_utf8(closed(pieces)) =~= seq![]);
    } else {
        let before = closed(pieces.drop_last());
        lemma_pieces_measured(pieces.drop_last());
        lemma_closed_last(pieces);
        lemma_encode_add(before + pieces.last(), seq![SOH]);
        lemma_encode_add(before, pieces.last());
        lemma_encode_soh();
        lemma_byte_sum_add(encode_utf8(before) + encode_utf8(pieces.last()), seq![1u8]);
        lemma_byte_sum_add(encode_utf8(before), encode_utf8(pieces.last()));
        assert(seq![1u8].drop_last() =~= seq![]);
        assert(byte_sum(seq![]) == 0);
        assert(byte_sum(seq![1u8]) == 1);
    }
}

proof fn lemma_field_piece(zeros: nat, field: FieldPair, tags: Map<u32, Seq<char>>)
    requires
        zeros > 0 || field.0 > 0,
    ensures
        sensitive_field(field_text(zeros, field), tags) == if tags.contains_key(field.0) {
            Some(field)
        } else {
            None
        },
        key_of(field_text(zeros, field)) == Some(numeral(zeros, field.0 as nat)),
        field_text(zeros, field).len() > 0,
{
    let tag = numeral(zeros, field.0 as nat);
    lemma_numeral(zeros, field.0 as nat);
    law_numbers_are_read(zeros, field.0 as nat, u32::MAX as nat);
    assert(!tag.contains('='));
    lemma_split_once(tag, field.1, '=');
}

proof fn lemma_known_keys(zeros: nat, n: nat)
    requires
        (zeros == 0 && n > 0) || (zeros == 1 && n == 0),
    ensures
        numeral(zeros, n) == "9"@ <==> n == 9,
        numeral(zeros, n) == "10"@ <==> n == 10,
{
    lemma_numeral(zeros, n);
    lemma_numeral(0, 9);
    lemma_numeral(0, 10);
    reveal_strlit("9");
    reveal_strlit("10");
    reveal_with_fuel(digits, 3);
    assert(digits(0) =~= seq![]);
    assert(digits(1) =~= seq!['1']);
    assert(numeral(0, 9) =~= "9"@);
    assert(numeral(0, 10) =~= "10"@);
}

/// Whether a field's value is to be replaced.
pub open spec fn asks(tags: Map<u32, Seq<char>>) -> spec_fn(FieldPair) -> bool {
    |field: FieldPair| tags.contains_key(field.0)
}

/// The fields with the aliases of `state` for the values of sensitive tags.
spec fn masked(fields: Seq<FieldPair>, tags: Map<u32, Seq<char>>, state: AliasModel) -> Seq<
    FieldPair,
> {
    Seq::new(
        fields.len(),
        |i: int|
            (
                fields[i].0,
                if tags.contains_key(fields[i].0) {
                    state.of(fields[i].0)[fields[i].1]
                } else {
                    fields[i].1
                },
            ),
    )
}

proof fn lemma_passed_fields(
    fields: Seq<FieldPair>,
    tags: Map<u32, Seq<char>>,
    requests: Seq<(u32, Seq<char>)>,
    later: AliasModel,
)
    requires
        keeps(
            later,
            passed(written_pieces(fields), tags, after_requests(requests, tags)).state,
        ),
    ensures
        ({
            let pass = passed(written_pieces(fields), tags, after_requests(requests, tags));
            &&& pass.state == after_requests(requests + fields.filter(asks(tags)), tags)
            &&& pass.fragments == written_pieces(masked(fields, tags, later))
            &&& pass.changed == exists|i: int|
                0 <= i < fields.len() && tags.contains_key((#[trigger] fields[i]).0)
        }),
    decreases fields.len(),
{
    reveal(Seq::filter);
    let start = after_requests(requests, tags);
    let pieces = written_pieces(fields);
    let pass = passed(pieces, tags, start);
    if fields.len() == 0 {
        assert(requests + fields.filter(asks(tags)) =~= requests);
        assert(pass.fragments =~= written_pieces(masked(fields, tags, later)));
    } else {
        let shorter = fields.drop_last();
        let field = fields.last();
        let zeros: nat = if field.0 == 0 {
            1
        } else {
            0
        };
        assert(pieces.drop_last() =~= written_pieces(shorter));
        assert(pieces.last() == field_text(zeros, field));
        lemma_field_piece(zeros, field, tags);
        let before = passed(written_pieces(shorter), tags, start);
        if tags.contains_key(field.0) {
            lemma_aliased_keeps(before.state, field.0, field.1, tags[field.0]);
            lemma_keeps_transitive(later, pass.state, before.state);
            assert(pass.state.knows(field.0, field.1));
            law_numbers_are_written(field.0 as nat);
            reveal_strlit("=");
            assert(digits(0) =~= seq![]);
            assert(numeral(zeros, field.0 as nat) =~= decimal(field.0 as nat));
            assert("="@ =~= seq!['=']);
            assert((requests + fields.filter(asks(tags))).drop_last() =~= requests + shorter.filter(
                asks(tags),
            ));
            assert((requests + fields.filter(asks(tags))).last() == field);
            assert(tags.contains_key(fields[fields.len() - 1].0));
        }
        lemma_passed_fields(shorter, tags, requests, later);
        assert(masked(shorter, tags, later) =~= masked(fields, tags, later).drop_last());
        assert(written_pieces(masked(fields, tags, later)) =~= written_pieces(
            masked(shorter, tags, later),
        ).push(
            field_text(zeros, masked(fields, tags, later).last()),
        ));
        assert(pass.fragments =~= written_pieces(masked(fields, tags, later)));
        assert(before.changed ==> pass.changed);
        if exists|i: int| 0 <= i < fields.len() && tags.contains_key((#[trigger] fields[i]).0) {
            let i = choose|i: int|
                0 <= i < fields.len() && tags.contains_key((#[trigger] fields[i]).0);
            if i < shorter.len() {
                assert(shorter[i] == fields[i]);
            }
        }
        if before.changed {
            let i = choose|i: int|
                0 <= i < shorter.len() && tags.contains_key((#[trigger] shorter[i]).0);
            assert(shorter[i] == fields[i]);
        }
    }
}

/// The first field of the tag.
pub open spec fn leads(fields: Seq<FieldPair>, i: int, tag: u32) -> bool {
    &&& 0 <= i < fields.len()
    &&& fields[i].0 == tag
    &&& forall|j: int| 0 <= j < i ==> (#[trigger] fields[j]).0 != tag
}

/// The last field of the tag.
pub open spec fn trails(fields: Seq<FieldPair>, i: int, tag: u32) -> bool {
    &&& 0 <= i < fields.len()
    &&& fields[i].0 == tag
    &&& forall|j: int| i < j < fields.len() ==> (#[trigger] fields[j]).0 != tag
}

proof fn lemma_piece_keys(fields: Seq<FieldPair>, i: int)
    requires
        0 <= i < fields.len(),
    ensures
        key_of(written_pieces(fields)[i]) == Some("9"@) <==> fields[i].0 == 9,
        key_of(written_pieces(fields)[i]) == Some("10"@) <==> fields[i].0 == 10,
{
    let zeros: nat = if fields[i].0 == 0 {
        1
    } else {
        0
    };
    lemma_field_piece(zeros, fields[i], Map::empty());
    lemma_known_keys(zeros, fields[i].0 as nat);
}

proof fn lemma_first_length(fields: Seq<FieldPair>, from: int)
    requires
        0 <= from <= fields.len(),
    ensures
        ({
            let at = first_keyed(written_pieces(fields), from, "9"@);
            &&& from <= at <= fields.len()
            &&& at < fields.len() ==> fields[at].0 == 9
            &&& forall|j: int| from <= j < at ==> (#[trigger] fields[j]).0 != 9
        }),
    decreases fields.len() - from,
{
    if from < fields.len() {
        lemma_piece_keys(fields, from);
        if fields[from].0 != 9 {
            lemma_first_length(fields, from + 1);
        }
    }
}

proof fn lemma_last_checksum(fields: Seq<FieldPair>, n: int)
    requires
        0 <= n <= fields.len(),
    ensures
        ({
            let at = last_keyed(written_pieces(fields), n, "10"@);
            &&& -1 <= at < n || (n == 0 && at == -1)
            &&& at >= 0 ==> fields[at].0 == 10
            &&& forall|j: int| at < j < n ==> (#[trigger] fields[j]).0 != 10
        }),
    decreases n,
{
    if n > 0 {
        lemma_piece_keys(fields, n - 1);
        if fields[n - 1].0 != 10 {
            lemma_last_checksum(fields, n - 1);
        }
    }
}

/// A number as it is written: its digits, or a single zero.
pub open spec fn plain_numeral(n: nat) -> Seq<char> {
    numeral(
        if n == 0 {
            1
        } else {
            0
        },
        n,
    )
}

proof fn lemma_refreshed_fields(fields: Seq<FieldPair>) -> (shown: Seq<FieldPair>)
    ensures
        refreshed(written_pieces(fields)) == written_pieces(shown),
        shown.len() == fields.len(),
        forall|i: int|
            0 <= i < fields.len() ==> (#[trigger] shown[i]).0 == fields[i].0 && (fields[i].0 != 9
                && fields[i].0 != 10 ==> shown[i] == fields[i]),
        forall|b: int, e: int| #[trigger]
            leads(fields, b, 9) && #[trigger] trails(fields, e, 10) && b < e ==> shown[b].1
                == plain_numeral(encode_utf8(message_text(shown.subrange(b + 1, e))).len())
                && three_digits(
                shown[e].1,
                total(encode_utf8(message_text(shown.take(e)))) % 256,
            ),
        forall|i: int|
            0 <= i < fields.len() && !(exists|b: int, e: int| #[trigger]
                leads(fields, b, 9) && #[trigger] trails(fields, e, 10) && b < e && (i == b || i
                    == e)) ==> #[trigger] shown[i] == fields[i],
{
    let pieces = written_pieces(fields);
    let body = first_keyed(pieces, 0, "9"@);
    let end = last_keyed(pieces, pieces.len() as int, "10"@);
    lemma_first_length(fields, 0);
    lemma_last_checksum(fields, fields.len() as int);
    if body >= fields.len() || end <= body {
        assert forall|b: int, e: int| #[trigger] leads(fields, b, 9) && #[trigger] trails(
            fields,
            e,
            10,
        ) && b < e implies false by {
            assert(b == body) by {
                if body < b {
                    assert(fields[body].0 != 9);
                }
            }
            assert(e == end) by {
                if end > e {
                    assert(fields[end].0 != 10);
                }
            }
        }
        fields
    } else {
        assert(leads(fields, body, 9));
        assert(trails(fields, end, 10));
        let length = bytes_taken(pieces.subrange(body + 1, end));
        let sized = fields.update(body, (9u32, plain_numeral(length)));
        law_numbers_are_written(length);
        reveal_strlit("9=");
        reveal_strlit("10=");
        reveal_strlit("9");
        reveal_strlit("10");
        assert(digits(0) =~= seq![]);
        assert(plain_numeral(length) =~= decimal(length));
        lemma_known_keys(0, 9);
        lemma_known_keys(0, 10);
        assert(length_fragment(length) =~= field_text(0, sized[body]));
        let sized_pieces = pieces.update(body, length_fragment(length));
        assert(sized_pieces =~= written_pieces(sized));
        let sum = bytes_sum(sized_pieces.take(end));
        let digits3 = right_aligned(decimal(sum % 256), 3, '0');
        let shown = sized.update(end, (10u32, digits3));
        assert(checksum_fragment(sum) =~= field_text(0, shown[end]));
        assert(refreshed(pieces) =~= written_pieces(shown));
        assert(written_pieces(shown).subrange(body + 1, end) =~= written_pieces(
            shown.subrange(body + 1, end),
        ));
        assert(pieces.subrange(body + 1, end) =~= written_pieces(shown.subrange(body + 1, end)));
        assert(sized_pieces.take(end) =~= written_pieces(shown.take(end)));
        lemma_pieces_measured(pieces.subrange(body + 1, end));
        lemma_pieces_measured(sized_pieces.take(end));
        lemma_message_pieces(shown.subrange(body + 1, end));
        lemma_message_pieces(shown.take(end));
        lemma_total(encode_utf8(message_text(shown.take(end))));
        let n = sum % 256;
        assert(three_digits(digits3, n as int)) by {
            reveal_with_fuel(decimal, 4);
            assert(digits3 =~= seq![
                ('0' as int + n / 100) as char,
                ('0' as int + n / 10 % 10) as char,
                ('0' as int + n % 10) as char,
            ]);
        }
        assert forall|b: int, e: int| #[trigger] leads(fields, b, 9) && #[trigger] trails(
            fields,
            e,
            10,
        ) && b < e implies b == body && e == end by {
            if body < b {
                assert(fields[body].0 != 9);
            }
            if b < body {
                assert(fields[b].0 != 9);
            }
            if end > e {
                assert(fields[end].0 != 10);
            }
            if e > end {
                assert(fields[e].0 != 10);
            }
        }
        shown
    }
}

/// A message keeps its fields: their tags, their order and the values of all but sensitive
/// tags. The value of a sensitive tag becomes its alias. Where a body length is followed by a
/// checksum, the first of the one and the last of the other are set right: the bytes between
/// them, and the sum of all bytes ahead modulo 256 in three digits. A message without
/// sensitive tags stays as it is. Each sensitive field asks for its alias in turn.
pub proof fn law_sensitive_values_get_aliases(
    fields: Seq<FieldPair>,
    tags: Map<u32, Seq<char>>,
    requests: Seq<(u32, Seq<char>)>,
) -> (shown: Seq<FieldPair>)
    requires
        plain_values(fields),
    ensures
        ({
            let before = after_requests(requests, tags);
            let after = after_requests(requests + fields.filter(asks(tags)), tags);
            let written = obfuscated_message(message_text(fields), tags, before);
            &&& written.state == after
            &&& written.text == message_text(shown)
            &&& (forall|i: int|
                0 <= i < fields.len() ==> !tags.contains_key((#[trigger] fields[i]).0)) ==> shown
                == fields
            &&& shown.len() == fields.len()
            &&& forall|i: int| 0 <= i < fields.len() ==> (#[trigger] shown[i]).0 == fields[i].0
            &&& forall|i: int|
                0 <= i < fields.len() && fields[i].0 != 9 && fields[i].0 != 10 ==> (
                #[trigger] shown[i]).1 == if tags.contains_key(fields[i].0) {
                    after.of(fields[i].0)[fields[i].1]
                } else {
                    fields[i].1
                }
            &&& forall|k: int, b: int, e: int|
                0 <= k < fields.len() && tags.contains_key((#[trigger] fields[k]).0)
                    && #[trigger] leads(fields, b, 9) && #[trigger] trails(fields, e, 10) && b < e
                    ==> shown[b].1 == plain_numeral(
                    encode_utf8(message_text(shown.subrange(b + 1, e))).len(),
                ) && three_digits(
                    shown[e].1,
                    total(encode_utf8(message_text(shown.take(e)))) % 256,
                )
        }),
{
    let before = after_requests(requests, tags);
    let after = after_requests(requests + fields.filter(asks(tags)), tags);
    let pieces = written_pieces(fields);
    let msg = message_text(fields);
    lemma_message_pieces(fields);
    assert forall|i: int| 0 <= i < pieces.len() implies !(#[trigger] pieces[i]).contains(SOH) by {
        lemma_field_text(
            if fields[i].0 == 0 {
                1
            } else {
                0
            },
            fields[i],
        );
    }
    law_pieces_come_apart(pieces);
    let pass = passed(pieces, tags, before);
    assert(pieces.push(seq![]).drop_last() =~= pieces);
    assert(pieces.push(seq![]).last() =~= seq![]);
    assert(passed(pieces.push(seq![]), tags, before) == pass);
    assert(keeps(pass.state, pass.state));
    lemma_passed_fields(fields, tags, requests, pass.state);
    if pass.changed {
        let mid = masked(fields, tags, after);
        let shown = lemma_refreshed_fields(mid);
        assert(fields.len() > 0);
        lemma_joined_pieces(written_pieces(shown));
        lemma_message_pieces(shown);
        lemma_closed_last(pieces);
        assert(msg.last() == SOH);
        assert forall|i: int, tag: u32| #[trigger] leads(fields, i, tag) implies leads(
            mid,
            i,
            tag,
        ) by {
            assert forall|j: int| 0 <= j < i implies (#[trigger] mid[j]).0 != tag by {
                assert(fields[j].0 != tag);
            }
        }
        assert forall|i: int, tag: u32| #[trigger] trails(fields, i, tag) implies trails(
            mid,
            i,
            tag,
        ) by {
            assert forall|j: int| i < j < mid.len() implies (#[trigger] mid[j]).0 != tag by {
                assert(fields[j].0 != tag);
            }
        }
        assert forall|i: int| 0 <= i < fields.len() && fields[i].0 != 9 && fields[i].0 != 10 implies (
        #[trigger] shown[i]).1 == (if tags.contains_key(fields[i].0) {
            after.of(fields[i].0)[fields[i].1]
        } else {
            fields[i].1
        }) by {
            assert(mid[i].0 == fields[i].0);
            assert(shown[i] == mid[i]);
        }
        assert forall|i: int| 0 <= i < fields.len() implies (#[trigger] shown[i]).0
            == fields[i].0 by {
            assert(mid[i].0 == fields[i].0);
        }
        shown
    } else {
        fields
    }
}

proof fn lemma_next_with_end(text: Seq<char>, from: int, c: char)
    requires
        0 <= from <= text.len(),
    ensures
        next_char(text.push(c), from, c) == next_char(text, from, c),
    decreases text.len() - from,
{
    if from < text.len() && text[from] != c {
        lemma_next_with_end(text, from + 1, c);
    }
}

proof fn lemma_split_with_end(text: Seq<char>, from: int, c: char)
    requires
        0 <= from <= text.len(),
    ensures
        split_from(text.push(c), from, c) == split_from(text, from, c).push(seq![]),
    decreases text.len() - from,
{
    let longer = text.push(c);
    let at = next_char(text, from, c);
    lemma_next_with_end(text, from, c);
    lemma_next_char(text, from, c);
    if at >= text.len() {
        lemma_next_char(longer, at + 1, c);
        assert(longer.subrange(from, at) =~= text.subrange(from, text.len() as int));
        assert(longer.subrange(at + 1, longer.len() as int) =~= seq![]);
        assert(split_from(longer, at + 1, c) =~= seq![Seq::<char>::empty()]);
        assert(split_from(longer, from, c) =~= split_from(text, from, c).push(seq![]));
    } else {
        lemma_split_with_end(text, at + 1, c);
        assert(longer.subrange(from, at) =~= text.subrange(from, at));
        assert(split_from(longer, from, c) =~= split_from(text, from, c).push(seq![]));
    }
}

/// The delimiter at the end of a message stays there, or stays out.
pub proof fn law_last_delimiter_stays(
    msg: Seq<char>,
    tags: Map<u32, Seq<char>>,
    state: AliasModel,
)
    requires
        msg.len() > 0,
        msg.last() != SOH,
    ensures
        obfuscated_message(msg.push(SOH), tags, state).text == obfuscated_message(
            msg,
            tags,
            state,
        ).text.push(SOH),
        obfuscated_message(msg.push(SOH), tags, state).state == obfuscated_message(
            msg,
            tags,
            state,
        ).state,
{
    let pieces = split(msg, SOH);
    lemma_split_with_end(msg, 0, SOH);
    assert(pieces.push(seq![]).drop_last() =~= pieces);
    assert(pieces.push(seq![]).last() =~= seq![]);
    assert(passed(pieces.push(seq![]), tags, state) == passed(pieces, tags, state));
}

/// A message in a line, and what stands between it and the one before.
pub struct Stretch {
    pub gap: Seq<char>,
    pub msg: Seq<char>,
}

/// The stretches one behind the other.
pub open spec fn stretched(parts: Seq<Stretch>) -> Seq<char>
    decreases parts.len(),
{
    if parts.len() == 0 {
        seq![]
    } else {
        stretched(parts.drop_last()) + parts.last().gap + parts.last().msg
    }
}

/// Where the messages of the stretches stand.
pub open spec fn stand(spans: Seq<(usize, usize)>, parts: Seq<Stretch>) -> bool {
    &&& spans.len() == parts.len()
    &&& forall|i: int|
        0 <= i < parts.len() ==> (#[trigger] spans[i]).0 == (stretched(parts.take(i))
            + parts[i].gap).len() && spans[i].1 == stretched(parts.take(i + 1)).len()
}

proof fn lemma_stretches(parts: Seq<Stretch>, n: int, spans: Seq<(usize, usize)>)
    requires
        stand(spans, parts),
        0 <= n <= parts.len(),
    ensures
        end_of(spans, n) == stretched(parts.take(n)).len(),
        stretched(parts.take(n)).len() <= stretched(parts).len(),
        stretched(parts).take(stretched(parts.take(n)).len() as int) == stretched(parts.take(n)),
    decreases parts.len() - n,
{
    if n == parts.len() {
        assert(parts.take(n) =~= parts);
        assert(stretched(parts).take(stretched(parts).len() as int) =~= stretched(parts));
        if n > 0 {
            assert(spans[n - 1].1 == stretched(parts.take(n)).len());
        }
    } else {
        lemma_stretches(parts, n + 1, spans);
        assert(parts.take(n + 1).drop_last() =~= parts.take(n));
        assert(parts.take(n + 1).last() == parts[n]);
        let here = stretched(parts.take(n));
        let next = stretched(parts.take(n + 1));
        assert(next.take(here.len() as int) =~= here);
        assert(stretched(parts).take(here.len() as int) =~= stretched(parts).take(
            next.len() as int,
        ).take(here.len() as int));
        if n > 0 {
            assert(spans[n - 1].1 == here.len());
        }
    }
}

/// A line is written stretch by stretch: what stands between its messages stays, each message
/// is obfuscated, with the aliases of those before it, and what follows the last one stays. A
/// line without messages is obfuscated as one.
pub proof fn law_lines_are_written_stretch_by_stretch(
    parts: Seq<Stretch>,
    gap: Seq<char>,
    msg: Seq<char>,
    tail: Seq<char>,
    spans: Seq<(usize, usize)>,
    tags: Map<u32, Seq<char>>,
    state: AliasModel,
)
    requires
        stand(spans, parts.push(Stretch { gap, msg })),
        msg.len() > 0,
    ensures
        ({
            let shorter = stretched(parts);
            let before = if parts.len() == 0 {
                Written { text: seq![], state }
            } else {
                obfuscated_line(shorter, spans.drop_last(), tags, state)
            };
            let here = obfuscated_message(msg, tags, before.state);
            let whole = obfuscated_line(shorter + gap + msg + tail, spans, tags, state);
            &&& parts.len() > 0 && parts.last().msg.len() > 0 ==> whole == (Written {
                text: before.text + gap + here.text + tail,
                state: here.state,
            })
            &&& parts.len() == 0 ==> whole == (Written {
                text: gap + here.text + tail,
                state: here.state,
            })
        }),
        obfuscated_line(tail, seq![], tags, state) == obfuscated_message(tail, tags, state),
{
    let all = parts.push(Stretch { gap, msg });
    let shorter = stretched(parts);
    let line = shorter + gap + msg + tail;
    let n = parts.len() as int;
    let few = spans.drop_last();
    assert(all.drop_last() =~= parts);
    assert(all.take(n) =~= parts);
    assert(all.take(n + 1) =~= all);
    assert(spans[n].1 == stretched(all).len());
    assert(spans[n].0 == (stretched(all.take(n)) + all[n].gap).len());
    lemma_stretches(all, n, spans);
    assert forall|i: int| 0 <= i < parts.len() implies (#[trigger] few[i]).0 == (stretched(
        parts.take(i),
    ) + parts[i].gap).len() && few[i].1 == stretched(parts.take(i + 1)).len() by {
        assert(few[i] == spans[i]);
        assert(all.take(i) =~= parts.take(i));
        assert(all.take(i + 1) =~= parts.take(i + 1));
        assert(all[i] == parts[i]);
    }
    lemma_stretches(parts, n, few);
    assert(line.take(shorter.len() as int) =~= shorter);
    lemma_spans_of_longer(parts, n, line, spans, few, tags, state);
    assert(line.subrange(spans[n].0 as int, spans[n].1 as int) =~= msg);
    assert(line.subrange(shorter.len() as int, spans[n].0 as int) =~= gap);
    assert(line.skip(spans[n].1 as int) =~= tail);
    assert(shorter.skip(shorter.len() as int) =~= seq![]);
    let earlier = obfuscated_spans(line, spans, n, tags, state);
    if n > 0 {
        assert(parts.take(n) =~= parts);
        assert(earlier.text + shorter.skip(shorter.len() as int) =~= earlier.text);
    } else {
        assert(shorter =~= seq![]);
        assert(earlier.text + gap =~= gap);
    }
    assert(obfuscated_spans(tail, seq![], 0, tags, state).state == state);
}

proof fn lemma_spans_of_longer(
    parts: Seq<Stretch>,
    n: int,
    line: Seq<char>,
    spans: Seq<(usize, usize)>,
    few: Seq<(usize, usize)>,
    tags: Map<u32, Seq<char>>,
    state: AliasModel,
)
    requires
        stand(few, parts),
        0 <= n <= parts.len(),
        few == spans.drop_last(),
        spans.len() > 0,
        line.len() >= stretched(parts).len(),
        line.take(stretched(parts).len() as int) == stretched(parts),
    ensures
        obfuscated_spans(line, spans, n, tags, state) == obfuscated_spans(
            stretched(parts),
            few,
            n,
            tags,
            state,
        ),
    decreases n,
{
    if n > 0 {
        lemma_spans_of_longer(parts, n - 1, line, spans, few, tags, state);
        lemma_stretches(parts, n, few);
        lemma_stretches(parts, n - 1, few);
        assert(spans[n - 1] == few[n - 1]);
        assert(parts.take(n).drop_last() =~= parts.take(n - 1));
        let (start, end) = few[n - 1];
        let from = end_of(few, n - 1);
        assert(end_of(spans, n - 1) == from) by {
            if n - 1 > 0 {
                assert(spans[n - 2] == few[n - 2]);
            }
        }
        let whole = stretched(parts);
        assert(from <= start <= end <= whole.len());
        assert(line.subrange(start as int, end as int) =~= line.take(whole.len() as int).subrange(
            start as int,
            end as int,
        ));
        assert(line.subrange(from, start as int) =~= line.take(whole.len() as int).subrange(
            from,
            start as int,
        ));
    }
}

} // verus!
