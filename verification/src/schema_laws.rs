//! Which version of FIX a message is read with.
use crate::dictionaries::{
    appl_ver_schema, combo_key, detected_key, resolved, tag_value, value_in, without_char, xml_id,
    Lookups,
};
use crate::log_lines::ContextModel;
use crate::message_laws::{closed, law_pieces_come_apart, lemma_split_once};
use crate::sessions::session_of;
use crate::tag_lookup::FallbackKind;
use crate::text::{split_once_at, SOH};
use vstd::prelude::*;

verus! {

/// The fields of a message, each written as its tag, `=` and its value.
pub open spec fn pieces_of(fields: Seq<(Seq<char>, Seq<char>)>) -> Seq<Seq<char>> {
    fields.map_values(|f: (Seq<char>, Seq<char>)| f.0 + seq!['='] + f.1)
}

/// No tag holds `=`, and no field the delimiter.
pub open spec fn writable(fields: Seq<(Seq<char>, Seq<char>)>) -> bool {
    forall|i: int|
        0 <= i < fields.len() ==> !(#[trigger] fields[i]).0.contains('=') && !fields[i].0.contains(
            SOH,
        ) && !fields[i].1.contains(SOH)
}

/// The field at `i` is the first with the tag.
pub open spec fn is_first(fields: Seq<(Seq<char>, Seq<char>)>, i: int, tag: Seq<char>) -> bool {
    &&& 0 <= i < fields.len()
    &&& fields[i].0 == tag
    &&& forall|j: int| 0 <= j < i ==> (#[trigger] fields[j]).0 != tag
}

/// No field has the tag.
pub open spec fn lacks(fields: Seq<(Seq<char>, Seq<char>)>, tag: Seq<char>) -> bool {
    forall|j: int| 0 <= j < fields.len() ==> (#[trigger] fields[j]).0 != tag
}

proof fn lemma_value_in(fields: Seq<(Seq<char>, Seq<char>)>, tag: Seq<char>)
    requires
        writable(fields),
    ensures
        forall|i: int|
            #[trigger] is_first(fields, i, tag) ==> value_in(
                pieces_of(fields).push(seq![]),
                tag,
            ) == Some(fields[i].1),
        lacks(fields, tag) ==> value_in(pieces_of(fields).push(seq![]), tag) is None,
    decreases fields.len(),
{
    let pieces = pieces_of(fields).push(seq![]);
    if fields.len() == 0 {
        assert(pieces =~= seq![Seq::<char>::empty()]);
        assert(pieces[0] == Seq::<char>::empty());
        assert(split_once_at(pieces[0], '=') is None);
        assert(pieces.skip(1) =~= seq![]);
        assert(value_in(pieces.skip(1), tag) is None);
    } else {
        let rest = fields.skip(1);
        assert(pieces[0] == fields[0].0 + seq!['='] + fields[0].1);
        assert(pieces.skip(1) =~= pieces_of(rest).push(seq![]));
        lemma_split_once(fields[0].0, fields[0].1, '=');
        assert forall|i: int| 0 <= i < rest.len() implies !(#[trigger] rest[i]).0.contains('=')
            && !rest[i].0.contains(SOH) && !rest[i].1.contains(SOH) by {
            assert(rest[i] == fields[i + 1]);
        }
        lemma_value_in(rest, tag);
        assert forall|i: int| #[trigger] is_first(fields, i, tag) implies value_in(pieces, tag)
            == Some(fields[i].1) by {
            if i > 0 {
                assert(fields[0].0 != tag);
                assert forall|j: int| 0 <= j < i - 1 implies (#[trigger] rest[j]).0 != tag by {
                    assert(rest[j] == fields[j + 1]);
                }
                assert(is_first(rest, i - 1, tag));
            }
        }
        if lacks(fields, tag) {
            assert(fields[0].0 != tag);
            assert forall|j: int| 0 <= j < rest.len() implies (#[trigger] rest[j]).0 != tag by {
                assert(rest[j] == fields[j + 1]);
            }
        }
    }
}

/// The value of a tag is that of the first field with it; without such a field there is none.
pub proof fn law_first_field_gives_the_value(
    fields: Seq<(Seq<char>, Seq<char>)>,
    tag: Seq<char>,
    i: int,
)
    requires
        writable(fields),
    ensures
        is_first(fields, i, tag) ==> tag_value(closed(pieces_of(fields)), tag) == Some(fields[i].1),
        lacks(fields, tag) ==> tag_value(closed(pieces_of(fields)), tag) is None,
{
    let pieces = pieces_of(fields);
    assert forall|k: int| 0 <= k < pieces.len() implies !(#[trigger] pieces[k]).contains(SOH) by {
        let f = fields[k];
        assert forall|m: int| 0 <= m < pieces[k].len() implies pieces[k][m] != SOH by {
            if m < f.0.len() {
                assert(pieces[k][m] == f.0[m]);
                assert(f.0.contains(f.0[m]));
            } else if m > f.0.len() {
                assert(pieces[k][m] == f.1[m - f.0.len() - 1]);
                assert(f.1.contains(f.1[m - f.0.len() - 1]));
            }
        }
    }
    law_pieces_come_apart(pieces);
    lemma_value_in(fields, tag);
}

/// The schemas of the application versions, each at the place of its number.
pub open spec fn version_schemas() -> Seq<Seq<char>> {
    seq![
        "FIX27"@,
        "FIX30"@,
        "FIX40"@,
        "FIX41"@,
        "FIX42"@,
        "FIX43"@,
        "FIX44"@,
        "FIX50"@,
        "FIX50SP1"@,
        "FIX50SP2"@,
    ]
}

/// The text is the number of an application version.
pub open spec fn is_version(text: Seq<char>) -> bool {
    text.len() == 1 && '0' <= text[0] <= '9'
}

/// The schema of an application version.
pub open spec fn version_schema(text: Seq<char>) -> Seq<char> {
    version_schemas()[text[0] as int - '0' as int]
}

proof fn lemma_one_char(text: Seq<char>, literal: Seq<char>, c: char)
    requires
        literal.len() == 1,
        literal[0] == c,
    ensures
        text == literal <==> text.len() == 1 && text[0] == c,
{
    if text.len() == 1 && text[0] == c {
        assert(text =~= literal);
    }
}

/// The one digit of an application version gives its schema; no other text gives one.
pub proof fn law_versions_give_their_schemas(text: Seq<char>)
    ensures
        is_version(text) ==> appl_ver_schema(text) == Some(version_schema(text)),
        !is_version(text) ==> appl_ver_schema(text) is None,
{
    reveal_strlit("0");
    reveal_strlit("1");
    reveal_strlit("2");
    reveal_strlit("3");
    reveal_strlit("4");
    reveal_strlit("5");
    reveal_strlit("6");
    reveal_strlit("7");
    reveal_strlit("8");
    reveal_strlit("9");
    lemma_one_char(text, "0"@, '0');
    lemma_one_char(text, "1"@, '1');
    lemma_one_char(text, "2"@, '2');
    lemma_one_char(text, "3"@, '3');
    lemma_one_char(text, "4"@, '4');
    lemma_one_char(text, "5"@, '5');
    lemma_one_char(text, "6"@, '6');
    lemma_one_char(text, "7"@, '7');
    lemma_one_char(text, "8"@, '8');
    lemma_one_char(text, "9"@, '9');
}

proof fn lemma_without_char(text: Seq<char>, c: char)
    ensures
        without_char(text, c) == text.filter(|x: char| x != c),
    decreases text.len(),
{
    reveal(Seq::filter);
    let kept = |x: char| x != c;
    if text.len() > 0 {
        lemma_without_char(text.drop_last(), c);
        if text.last() != c {
            assert(text.filter(kept) =~= text.drop_last().filter(kept).push(text.last()));
        }
    }
}

/// The version that a message of the FIX 5.0 family names goes before that of its session,
/// whatever that is: its own application version, else the default that it gives itself.
/// Only where it names none that is known, the session's counts, and FIX 5.0 without one. A
/// field that is there but holds no known version is not made up for by the other one.
pub proof fn law_named_version_goes_first(
    fields: Seq<(Seq<char>, Seq<char>)>,
    session_default: Option<Seq<char>>,
    begin: int,
    named: int,
)
    requires
        writable(fields),
        is_first(fields, begin, "8"@),
        fields[begin].1 == "FIXT.1.1"@,
    ensures
        ({
            let key = detected_key(closed(pieces_of(fields)), session_default);
            let names = is_first(fields, named, "1128"@) || (lacks(fields, "1128"@) && is_first(
                fields,
                named,
                "1137"@,
            ));
            let otherwise = match session_default {
                Some(schema) => schema,
                None => "FIX50"@,
            };
            &&& names && is_version(fields[named].1) ==> key == version_schema(fields[named].1)
            &&& names && !is_version(fields[named].1) ==> key == otherwise
            &&& lacks(fields, "1128"@) && lacks(fields, "1137"@) ==> key == otherwise
        }),
{
    law_first_field_gives_the_value(fields, "8"@, begin);
    law_first_field_gives_the_value(fields, "1128"@, named);
    law_first_field_gives_the_value(fields, "1137"@, named);
    if 0 <= named < fields.len() {
        law_versions_give_their_schemas(fields[named].1);
    }
}

/// A message of any other version is read with the one that its first field names, without
/// the dots, whatever its session and its other fields say; one that names none with FIX 4.4.
pub proof fn law_begin_string_names_the_schema(
    fields: Seq<(Seq<char>, Seq<char>)>,
    session_default: Option<Seq<char>>,
    begin: int,
)
    requires
        writable(fields),
    ensures
        is_first(fields, begin, "8"@) && fields[begin].1 != "FIXT.1.1"@ ==> detected_key(
            closed(pieces_of(fields)),
            session_default,
        ) == fields[begin].1.filter(|c: char| c != '.'),
        lacks(fields, "8"@) ==> detected_key(closed(pieces_of(fields)), session_default)
            == "FIX44"@,
{
    law_first_field_gives_the_value(fields, "8"@, begin);
    if 0 <= begin < fields.len() {
        lemma_without_char(fields[begin].1, '.');
    }
}

/// A message is decoded with the dictionary of its schema where there is one, and with FIX 4.4
/// where there is none.
pub proof fn law_detected_dictionary_decodes(
    lookups: Lookups,
    msg: Seq<char>,
    session_default: Option<Seq<char>>,
)
    ensures
        ({
            let found = resolved(lookups, msg, None, session_default);
            let key = detected_key(msg, session_default);
            &&& !found.missed
            &&& lookups.known.contains_key(key) ==> found.lookup == Some(lookups.known[key])
                && found.lookups == lookups
            &&& !lookups.known.contains_key(key) && xml_id(key) is None
                && lookups.known.contains_key("FIX44"@) ==> found.lookup == Some(
                lookups.known["FIX44"@],
            )
        }),
{
}

/// A dictionary that is asked for decodes with its own names, values, types and layouts first,
/// and with those of the dictionary that the message names behind them. Where it is the one
/// that the message names, it decodes alone. Where it is not there, that is told, and the one
/// that the message names decodes.
pub proof fn law_dictionary_asked_for_goes_first(
    lookups: Lookups,
    msg: Seq<char>,
    asked: Seq<char>,
    session_default: Option<Seq<char>>,
)
    requires
        lookups.known.contains_key(detected_key(msg, session_default)),
        !lookups.known.contains_key(combo_key(asked, detected_key(msg, session_default))),
    ensures
        ({
            let found = resolved(lookups, msg, Some(asked), session_default);
            let key = detected_key(msg, session_default);
            let named = lookups.known[key];
            &&& lookups.known.contains_key(asked) && asked != key ==> {
                &&& !found.missed
                &&& found.lookup matches Some(lookup) && {
                    let own = lookups.known[asked];
                    &&& lookup.key == own.key
                    &&& lookup.names == own.names
                    &&& lookup.enums == own.enums
                    &&& lookup.types == own.types
                    &&& lookup.messages == own.messages
                    &&& lookup.fallback == Some(Box::new(named))
                    &&& lookup.role == Some(FallbackKind::DetectedOverride)
                }
            }
            &&& asked == key ==> !found.missed && found.lookup == Some(named)
            &&& !lookups.known.contains_key(asked) && xml_id(asked) is None ==> found.missed
                && found.lookup == Some(named)
        }),
{
}

/// A logon that names a default version sets it for its session: the next message of the
/// session, whichever side sends it, is read with that version where it names none itself. A
/// message that names none leaves the defaults as they are, and so does one of no session.
pub proof fn law_logon_sets_the_session_default(
    ctx: ContextModel,
    logon: Seq<char>,
    next: Seq<char>,
    version: Seq<char>,
)
    requires
        tag_value(logon, "1137"@) == Some(version),
        is_version(version),
        session_of(logon) is Some,
        session_of(next) == session_of(logon),
    ensures
        ctx.resolving(logon).0.session_default(next) == Some(version_schema(version)),
        tag_value(next, "1137"@) is None ==> ctx.resolving(next).0.defaults == ctx.defaults,
        tag_value(next, "8"@) == Some("FIXT.1.1"@) && tag_value(next, "1128"@) is None
            && tag_value(next, "1137"@) is None ==> detected_key(
            next,
            ctx.resolving(logon).0.session_default(next),
        ) == version_schema(version),
{
    law_versions_give_their_schemas(version);
}

/// A session is that of both its sides: only messages of the FIX 5.0 family that name sender
/// and target have one, and it tells apart every two sides, by their identifiers and by those
/// of their parts and places.
pub proof fn law_sessions_tell_sides_apart(a: Seq<char>, b: Seq<char>)
    requires
        session_of(a) is Some,
        session_of(a) == session_of(b),
    ensures
        tag_value(a, "8"@) == Some("FIXT.1.1"@),
        tag_value(a, "49"@) is Some,
        tag_value(a, "56"@) is Some,
        same_sides(a, b, "49"@, "50"@, "142"@, "49"@, "50"@, "142"@) && same_sides(
            a,
            b,
            "56"@,
            "57"@,
            "143"@,
            "56"@,
            "57"@,
            "143"@,
        ) || same_sides(a, b, "49"@, "50"@, "142"@, "56"@, "57"@, "143"@) && same_sides(
            a,
            b,
            "56"@,
            "57"@,
            "143"@,
            "49"@,
            "50"@,
            "142"@,
        ),
{
}

/// A side of one message is a side of another: three fields of the one have the values of
/// three fields of the other.
pub open spec fn same_sides(
    a: Seq<char>,
    b: Seq<char>,
    a_comp: Seq<char>,
    a_sub: Seq<char>,
    a_place: Seq<char>,
    b_comp: Seq<char>,
    b_sub: Seq<char>,
    b_place: Seq<char>,
) -> bool {
    &&& tag_value(a, a_comp) == tag_value(b, b_comp)
    &&& tag_value(a, a_sub) == tag_value(b, b_sub)
    &&& tag_value(a, a_place) == tag_value(b, b_place)
}

} // verus!
