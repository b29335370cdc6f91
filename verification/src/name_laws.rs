//! What holds of the names of copies and of the keys of dictionaries.
use crate::catalogue::{fix_key, key_of, selected_key};
use crate::dictionaries::{needs_session, without_char};
use crate::paths::{last_at, marked_name};
use crate::schema::DictionaryView;
use crate::text::{is_space, lowered, trimmed, trimmed_end, trimmed_start, uppered};
use vstd::prelude::*;

verus! {

proof fn lemma_last_at(text: Seq<char>, c: char, end: int, at: int)
    requires
        0 <= at < end <= text.len(),
        text[at] == c,
        forall|i: int| at < i < end ==> text[i] != c,
    ensures
        last_at(text, c, end) == Some(at),
    decreases end,
{
    if at < end - 1 {
        lemma_last_at(text, c, end - 1, at);
    }
}

proof fn lemma_nowhere(text: Seq<char>, c: char, end: int)
    requires
        0 <= end <= text.len(),
        !text.contains(c),
    ensures
        last_at(text, c, end) is None,
    decreases end,
{
    if end > 0 {
        assert(text.contains(text[end - 1]));
        lemma_nowhere(text, c, end - 1);
    }
}

/// The mark of a copy goes ahead of the last part of its name, or behind a name that has no
/// parts.
pub proof fn law_copies_are_marked(stem: Seq<char>, ending: Seq<char>, mark: Seq<char>)
    requires
        stem.len() > 0,
        ending.len() > 0,
        !ending.contains('.'),
    ensures
        marked_name(stem + seq!['.'] + ending, mark) == stem + seq!['.'] + mark + seq!['.']
            + ending,
        marked_name(ending, mark) == ending + seq!['.'] + mark,
{
    let name = stem + seq!['.'] + ending;
    let dot = stem.len() as int;
    reveal_strlit(".");
    assert("."@ =~= seq!['.']);
    assert forall|i: int| dot < i < name.len() implies name[i] != '.' by {
        assert(name[i] == ending[i - dot - 1]);
        assert(ending.contains(ending[i - dot - 1]));
    }
    lemma_last_at(name, '.', name.len() as int, dot);
    assert(name.take(dot) =~= stem);
    assert(name.skip(dot + 1) =~= ending);
    lemma_nowhere(ending, '.', ending.len() as int);
}

proof fn lemma_without(text: Seq<char>)
    ensures
        without_char(text, '.') == text.filter(|c: char| c != '.'),
    decreases text.len(),
{
    reveal(Seq::filter);
    if text.len() > 0 {
        lemma_without(text.drop_last());
    }
}

/// A version may be written with or without dots, in any case, and with or without `FIX` ahead;
/// a blank one stands for FIX 4.4.
pub proof fn law_versions_are_written_freely(version: Seq<char>)
    requires
        version.len() > 0,
        !is_space(version[0]),
        !is_space(version.last()),
    ensures
        ({
            let clean = uppered(version.filter(|c: char| c != '.'));
            let mark = seq!['F', 'I', 'X'];
            let key = if clean.len() >= 3 && clean.take(3) == mark {
                clean
            } else {
                mark + clean
            };
            fix_key(version) == Some(key) && selected_key(version) == key
        }),
        fix_key(seq![]) is None,
        selected_key(seq![]) == "FIX44"@,
{
    lemma_without(version);
    reveal_strlit("FIX");
    assert("FIX"@ =~= seq!['F', 'I', 'X']);
    assert(trimmed_start(version) == version);
    assert(trimmed_end(version) == version);
    let clean = uppered(version.filter(|c: char| c != '.'));
    if clean.len() >= 3 {
        assert(clean.subrange(0, 3) =~= clean.take(3));
    }
    let empty = Seq::<char>::empty();
    assert(trimmed(empty) == empty);
}

/// The key of a dictionary is its family, its version and, where it has one, its service pack.
pub proof fn law_keys_name_the_version(dict: DictionaryView)
    requires
        uppered(dict.major) == dict.major,
        uppered(dict.minor) == dict.minor,
    ensures
        ({
            let family = if lowered(dict.typ) == seq!['f', 'i', 'x', 't'] {
                seq!['F', 'I', 'X', 'T']
            } else {
                seq!['F', 'I', 'X']
            };
            let version = family + dict.major + dict.minor;
            &&& dict.service_pack is None ==> key_of(dict) == version
            &&& dict.service_pack == Some(seq!['0']) ==> key_of(dict) == version
            &&& (dict.service_pack matches Some(pack) && pack.len() > 0 && pack != seq!['0'])
                ==> key_of(dict) == version + seq!['S', 'P'] + uppered(
                uppered(dict.service_pack->0),
            )
        }),
{
    reveal_strlit("FIX");
    reveal_strlit("FIXT");
    reveal_strlit("SP");
    reveal_strlit("0");
    assert(lowered("FIXT"@) =~= seq!['f', 'i', 'x', 't']);
    assert("0"@ =~= seq!['0']);
    let family = if lowered(dict.typ) == seq!['f', 'i', 'x', 't'] {
        seq!['F', 'I', 'X', 'T']
    } else {
        seq!['F', 'I', 'X']
    };
    assert("FIX"@ =~= seq!['F', 'I', 'X']);
    assert("FIXT"@ =~= seq!['F', 'I', 'X', 'T']);
    assert("SP"@ =~= seq!['S', 'P']);
    let version = family + dict.major + dict.minor;
    assert(uppered(family) =~= family);
    assert(uppered(seq!['S', 'P']) =~= seq!['S', 'P']);
    assert(uppered(version) =~= uppered(family) + uppered(dict.major) + uppered(dict.minor));
    if let Some(pack) = dict.service_pack {
        assert(uppered(version + seq!['S', 'P'] + uppered(pack)) =~= uppered(version) + uppered(
            seq!['S', 'P'],
        ) + uppered(uppered(pack)));
    }
}

/// The versions of FIX 5.0, and only those, leave their session layer to another dictionary.
pub proof fn law_later_versions_need_the_session_layer(key: Seq<char>)
    ensures
        needs_session(key) <==> seq!["FIX50"@, "FIX50SP1"@, "FIX50SP2"@].contains(key),
{
    let keys = seq!["FIX50"@, "FIX50SP1"@, "FIX50SP2"@];
    assert(keys[0] == "FIX50"@ && keys[1] == "FIX50SP1"@ && keys[2] == "FIX50SP2"@);
}

} // verus!
