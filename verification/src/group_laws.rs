//! What validation says of repeating groups.
use crate::fixparser::{fields_of, FieldPair};
use crate::groups::{group_at, has_group, lemma_group_at, GroupModel};
use crate::message_laws::{law_numbers_are_what_is_spelled, spells};
use crate::report::Finding;
use crate::tag_lookup::{LookupModel, MessageModel};
use crate::text::{decimal, parsed_unsigned};
use crate::validator::{
    announced, entries_findings, entry_findings, findings, group_findings, grouping_findings,
    layout, of_entry, remaining,
};
use vstd::prelude::*;

verus! {

/// A piece of a message: a field, or a count field with the entries that it counts.
pub enum Piece {
    Field(FieldPair),
    Group(FieldPair, Seq<Seq<Piece>>),
}

impl Piece {
    /// The tag that the piece begins with.
    pub open spec fn tag(self) -> u32 {
        match self {
            Piece::Field(field) => field.0,
            Piece::Group(count, _) => count.0,
        }
    }
}

/// The fields of a piece, one after the other.
pub open spec fn piece_fields(piece: Piece) -> Seq<FieldPair>
    decreases piece,
{
    match piece {
        Piece::Field(field) => seq![field],
        Piece::Group(count, entries) => seq![count] + entries_fields(entries),
    }
}

/// The fields of pieces, one after the other.
pub open spec fn run_fields(run: Seq<Piece>) -> Seq<FieldPair>
    decreases run,
{
    if run.len() == 0 {
        seq![]
    } else {
        piece_fields(run[0]) + run_fields(run.skip(1))
    }
}

/// The fields of entries, one after the other.
pub open spec fn entries_fields(entries: Seq<Seq<Piece>>) -> Seq<FieldPair>
    decreases entries,
{
    if entries.len() == 0 {
        seq![]
    } else {
        run_fields(entries[0]) + entries_fields(entries.skip(1))
    }
}

/// The value of a count field says that there are `n` entries.
pub open spec fn counts(value: Seq<char>, n: nat) -> bool {
    spells(value, n) && n <= usize::MAX
}

/// The group inside another one that is counted by a tag.
pub open spec fn inner(spec: GroupModel, tag: u32) -> GroupModel {
    spec.nested[group_at(spec.nested, tag)]
}

/// A piece of an entry is as it should be: a field of the entry, or a group inside it that has
/// as many entries as its count field says.
pub open spec fn tidy_piece(piece: Piece, spec: GroupModel) -> bool
    decreases piece,
{
    match piece {
        Piece::Field(field) => spec.entry_order.contains(field.0) && !has_group(
            spec.nested,
            field.0,
        ),
        Piece::Group(count, entries) => has_group(spec.nested, count.0) && counts(
            count.1,
            entries.len(),
        ) && tidy_entries(entries, inner(spec, count.0)),
    }
}

/// The fields of an entry stand in the order of the group.
pub open spec fn in_entry_order(entry: Seq<Piece>, spec: GroupModel) -> bool {
    forall|i: int, j: int|
        0 <= i < j < entry.len() && (#[trigger] entry[i]) is Field && (#[trigger] entry[j]) is Field
            ==> spec.entry_order.index_of(entry[i].tag()) <= spec.entry_order.index_of(
            entry[j].tag(),
        )
}

/// An entry is as it should be: the delimiter opens it and comes only once, and its pieces are
/// those of the group, in its order.
pub open spec fn tidy_entry(entry: Seq<Piece>, spec: GroupModel) -> bool
    decreases entry,
{
    &&& entry.len() > 0
    &&& entry[0].tag() == spec.delim
    &&& forall|i: int| 1 <= i < entry.len() ==> (#[trigger] entry[i]).tag() != spec.delim
    &&& forall|i: int| 0 <= i < entry.len() ==> tidy_piece(#[trigger] entry[i], spec)
    &&& in_entry_order(entry, spec)
}

pub open spec fn tidy_entries(entries: Seq<Seq<Piece>>, spec: GroupModel) -> bool
    decreases entries,
{
    forall|i: int| 0 <= i < entries.len() ==> tidy_entry(#[trigger] entries[i], spec)
}

/// A tag that ends a group: it belongs to no entry of it, nor of a group inside it.
pub open spec fn closes(spec: GroupModel, tag: u32) -> bool
    decreases spec,
{
    !spec.entry_order.contains(tag) && closes_all(spec.nested, tag)
}

pub open spec fn closes_all(nested: Seq<GroupModel>, tag: u32) -> bool
    decreases nested,
{
    forall|i: int|
        0 <= i < nested.len() ==> (#[trigger] nested[i]).count_tag != tag && closes(nested[i], tag)
}

/// A group can be told from what stands around it: its delimiter is a field of its entries,
/// and no tag of an entry belongs to a group inside it as well.
pub open spec fn sound(spec: GroupModel) -> bool
    decreases spec,
{
    &&& spec.entry_order.contains(spec.delim)
    &&& !has_group(spec.nested, spec.delim)
    &&& sound_all(spec.nested, spec.entry_order)
}

pub open spec fn sound_all(nested: Seq<GroupModel>, outer: Seq<u32>) -> bool
    decreases nested,
{
    forall|i: int|
        0 <= i < nested.len() ==> sound(#[trigger] nested[i]) && outer.contains(nested[i].count_tag)
            && forall|tag: u32| #[trigger] outer.contains(tag) ==> closes(nested[i], tag)
}

proof fn lemma_one_piece(piece: Piece, rest: Seq<Piece>)
    ensures
        run_fields(seq![piece] + rest) == piece_fields(piece) + run_fields(rest),
{
    let all = seq![piece] + rest;
    assert(all.skip(1) =~= rest);
}

pub proof fn lemma_piece_head(piece: Piece)
    ensures
        piece_fields(piece).len() > 0,
        piece_fields(piece)[0].0 == piece.tag(),
{
}

pub proof fn lemma_count(value: Seq<char>, n: nat)
    ensures
        counts(value, n) <==> parsed_unsigned(value, usize::MAX as nat) == Some(n),
{
    law_numbers_are_what_is_spelled(value, n, usize::MAX as nat);
}

/// The walk through a tidy entry ends where the entry ends and finds nothing wrong.
proof fn lemma_tidy_entry(
    fields: Seq<FieldPair>,
    start: int,
    idx: int,
    entry: Seq<Piece>,
    k: int,
    spec: GroupModel,
    membership: Map<u32, u32>,
    dict: LookupModel,
    last: int,
)
    requires
        sound(spec),
        tidy_entry(entry, spec),
        0 <= k <= entry.len(),
        0 <= start <= idx,
        idx == start <==> k == 0,
        idx + run_fields(entry.skip(k)).len() <= fields.len(),
        fields.subrange(idx, idx + run_fields(entry.skip(k)).len()) == run_fields(entry.skip(k)),
        forall|j: int|
            k <= j < entry.len() && (#[trigger] entry[j]) is Field ==> last
                <= spec.entry_order.index_of(entry[j].tag()),
        ({
            let e = idx + run_fields(entry.skip(k)).len();
            e == fields.len() || fields[e].0 == spec.delim || closes(spec, fields[e].0)
        }),
    ensures
        ({
            let walk = entry_findings(fields, start, idx, spec, membership, dict, last);
            walk.next == idx + run_fields(entry.skip(k)).len() && walk.found.len() == 0
        }),
    decreases spec, 0int, remaining(fields, idx), 0int,
{
    let rest = entry.skip(k);
    if k == entry.len() {
        assert(run_fields(rest).len() == 0);
        if idx < fields.len() {
            let tag = fields[idx].0;
            lemma_group_at(spec.nested, tag);
            assert(!of_entry(spec, tag, idx == start));
        }
    } else {
        let piece = entry[k];
        let later = entry.skip(k + 1);
        let e = idx + run_fields(rest).len();
        assert(rest[0] == piece);
        assert(rest.skip(1) =~= later);
        assert(run_fields(rest) == piece_fields(piece) + run_fields(later));
        lemma_piece_head(piece);
        let here = piece_fields(piece).len() as int;
        assert(fields.subrange(idx, e)[0] == piece_fields(piece)[0]);
        assert(fields[idx].0 == piece.tag());
        assert(tidy_piece(piece, spec));
        let tag = piece.tag();
        assert(tag != spec.delim || idx == start) by {
            if k > 0 {
                assert(entry[k].tag() != spec.delim);
            }
        }
        lemma_group_at(spec.nested, tag);
        assert(fields.subrange(idx + here, e) =~= run_fields(later)) by {
            assert(fields.subrange(idx + here, e) =~= fields.subrange(idx, e).skip(here));
            assert(run_fields(rest).skip(here) =~= run_fields(later));
        }
        assert(of_entry(spec, tag, idx == start));
        match piece {
            Piece::Field(field) => {
                let position = spec.entry_order.index_of(tag);
                assert(last <= position);
                assert forall|j: int|
                    k + 1 <= j < entry.len() && (#[trigger] entry[j]) is Field implies position
                    <= spec.entry_order.index_of(entry[j].tag()) by {
                    assert(entry[k] is Field);
                }
                lemma_tidy_entry(
                    fields,
                    start,
                    idx + 1,
                    entry,
                    k + 1,
                    spec,
                    membership,
                    dict,
                    position,
                );
            },
            Piece::Group(count, entries) => {
                let at = group_at(spec.nested, tag);
                assert(decreases_to!(spec => spec.nested));
                assert(decreases_to!(spec.nested => spec.nested[at]));
                let nested = spec.nested[at];
                let next = idx + here;
                assert(fields.subrange(idx, next) =~= piece_fields(piece)) by {
                    assert(fields.subrange(idx, next) =~= fields.subrange(idx, e).take(here));
                    assert(run_fields(rest).take(here) =~= piece_fields(piece));
                }
                assert(next == fields.len() || closes(nested, fields[next].0)) by {
                    if next < fields.len() {
                        let follower = fields[next].0;
                        if k + 1 < entry.len() {
                            assert(later[0] == entry[k + 1]);
                            lemma_piece_head(entry[k + 1]);
                            assert(run_fields(later) == piece_fields(entry[k + 1]) + run_fields(
                                later.skip(1),
                            ));
                            assert(fields.subrange(next, e)[0] == piece_fields(entry[k + 1])[0]);
                            assert(follower == entry[k + 1].tag());
                            assert(tidy_piece(entry[k + 1], spec));
                            lemma_group_at(spec.nested, follower);
                            assert(spec.entry_order.contains(follower));
                        } else {
                            assert(run_fields(later).len() == 0);
                            assert(next == e);
                            if follower != spec.delim {
                                assert(closes(spec, follower));
                            }
                        }
                    }
                }
                lemma_tidy_group(fields, idx, entries, nested, membership, dict);
                lemma_tidy_entry(
                    fields,
                    start,
                    next,
                    entry,
                    k + 1,
                    spec,
                    membership,
                    dict,
                    last,
                );
            },
        }
    }
}

proof fn lemma_tidy_entries(
    fields: Seq<FieldPair>,
    idx: int,
    entries: Seq<Seq<Piece>>,
    k: int,
    spec: GroupModel,
    membership: Map<u32, u32>,
    dict: LookupModel,
    count: nat,
)
    requires
        sound(spec),
        tidy_entries(entries, spec),
        0 <= k <= entries.len() <= count,
        0 <= idx,
        idx + entries_fields(entries.skip(k)).len() <= fields.len(),
        fields.subrange(idx, idx + entries_fields(entries.skip(k)).len()) == entries_fields(
            entries.skip(k),
        ),
        ({
            let e = idx + entries_fields(entries.skip(k)).len();
            e == fields.len() || (closes(spec, fields[e].0) && (count > entries.len() ==> !(
            membership.contains_key(fields[e].0) && membership[fields[e].0] == spec.count_tag)))
        }),
    ensures
        ({
            let walk = entries_findings(fields, idx, spec, membership, dict, count, k as nat);
            &&& walk.next == idx + entries_fields(entries.skip(k)).len()
            &&& walk.entries == entries.len()
            &&& walk.found.len() == 0
        }),
    decreases spec, 1int, count - k, remaining(fields, idx),
{
    let rest = entries.skip(k);
    if k == entries.len() {
        assert(entries_fields(rest).len() == 0);
    } else {
        let entry = entries[k];
        let later = entries.skip(k + 1);
        let e = idx + entries_fields(rest).len();
        let here = run_fields(entry).len() as int;
        assert(rest[0] == entry);
        assert(rest.skip(1) =~= later);
        assert(entries_fields(rest) == run_fields(entry) + entries_fields(later));
        assert(tidy_entry(entry, spec));
        lemma_piece_head(entry[0]);
        assert(run_fields(entry) == piece_fields(entry[0]) + run_fields(entry.skip(1)));
        assert(fields.subrange(idx, e)[0] == piece_fields(entry[0])[0]);
        assert(fields[idx].0 == spec.delim);
        assert(entry.skip(0) =~= entry);
        assert(fields.subrange(idx, idx + here) =~= run_fields(entry)) by {
            assert(fields.subrange(idx, idx + here) =~= fields.subrange(idx, e).take(here));
            assert(entries_fields(rest).take(here) =~= run_fields(entry));
        }
        assert(fields.subrange(idx + here, e) =~= entries_fields(later)) by {
            assert(fields.subrange(idx + here, e) =~= fields.subrange(idx, e).skip(here));
            assert(entries_fields(rest).skip(here) =~= entries_fields(later));
        }
        let next = idx + here;
        assert(next == fields.len() || fields[next].0 == spec.delim || closes(
            spec,
            fields[next].0,
        )) by {
            if k + 1 < entries.len() {
                let follower = entries[k + 1];
                assert(later[0] == follower);
                assert(tidy_entry(follower, spec));
                lemma_piece_head(follower[0]);
                assert(run_fields(follower) == piece_fields(follower[0]) + run_fields(
                    follower.skip(1),
                ));
                assert(entries_fields(later) == run_fields(follower) + entries_fields(
                    later.skip(1),
                ));
                assert(fields.subrange(next, e)[0] == piece_fields(follower[0])[0]);
            } else {
                assert(entries_fields(later).len() == 0);
            }
        }
        assert forall|j: int| 0 <= j < entry.len() && (#[trigger] entry[j]) is Field implies -1
            <= spec.entry_order.index_of(entry[j].tag()) by {
            assert(tidy_piece(entry[j], spec));
        }
        lemma_tidy_entry(fields, idx, idx, entry, 0, spec, membership, dict, -1);
        lemma_tidy_entries(fields, next, entries, k + 1, spec, membership, dict, count);
    }
}

/// The finding that a group has another number of entries than its count field says.
pub open spec fn miscounted(count_tag: u32, declared: nat, entries: nat) -> Finding {
    Finding {
        tag: Some(count_tag),
        text: "NumInGroup "@ + decimal(count_tag as nat) + " declared "@ + decimal(declared)
            + ", but "@ + decimal(entries) + " instance(s) found"@,
    }
}

/// A group whose entries are tidy, and as many as announced, is passed without a finding.
proof fn lemma_tidy_group(
    fields: Seq<FieldPair>,
    start: int,
    entries: Seq<Seq<Piece>>,
    spec: GroupModel,
    membership: Map<u32, u32>,
    dict: LookupModel,
)
    requires
        sound(spec),
        tidy_entries(entries, spec),
        0 <= start < fields.len(),
        counts(fields[start].1, entries.len()),
        start + 1 + entries_fields(entries).len() <= fields.len(),
        fields.subrange(start, start + 1 + entries_fields(entries).len()) == seq![fields[start]]
            + entries_fields(entries),
        ({
            let e = start + 1 + entries_fields(entries).len();
            e == fields.len() || closes(spec, fields[e].0)
        }),
    ensures
        ({
            let walk = group_findings(fields, start, spec, membership, dict);
            walk.next == start + 1 + entries_fields(entries).len() && walk.found.len() == 0
        }),
    decreases spec, 2int, 0int, 0int,
{
    let n = entries_fields(entries).len() as int;
    let whole = fields.subrange(start, start + 1 + n);
    lemma_count(fields[start].1, entries.len());
    assert(entries.skip(0) =~= entries);
    assert(fields.subrange(start + 1, start + 1 + n) =~= whole.skip(1));
    assert((seq![fields[start]] + entries_fields(entries)).skip(1) =~= entries_fields(entries));
    lemma_tidy_entries(
        fields,
        start + 1,
        entries,
        0,
        spec,
        membership,
        dict,
        entries.len(),
    );
}

/// A group with the entries that its count field announces, each opened by the delimiter and
/// in the order of the group, has no finding, whatever groups stand inside its entries. Where
/// more are announced than there are, that is the one finding, under the tag that counts.
pub proof fn law_entries_are_counted(
    fields: Seq<FieldPair>,
    start: int,
    entries: Seq<Seq<Piece>>,
    declared: nat,
    spec: GroupModel,
    membership: Map<u32, u32>,
    dict: LookupModel,
)
    requires
        sound(spec),
        tidy_entries(entries, spec),
        0 <= start < fields.len(),
        counts(fields[start].1, declared),
        entries.len() <= declared,
        start + 1 + entries_fields(entries).len() <= fields.len(),
        fields.subrange(start + 1, start + 1 + entries_fields(entries).len()) == entries_fields(
            entries,
        ),
        ({
            let e = start + 1 + entries_fields(entries).len();
            e == fields.len() || (closes(spec, fields[e].0) && !(membership.contains_key(
                fields[e].0,
            ) && membership[fields[e].0] == spec.count_tag))
        }),
    ensures
        ({
            let walk = group_findings(fields, start, spec, membership, dict);
            &&& walk.next == start + 1 + entries_fields(entries).len()
            &&& walk.found == if entries.len() == declared {
                seq![]
            } else {
                seq![miscounted(spec.count_tag, declared, entries.len())]
            }
        }),
{
    lemma_count(fields[start].1, declared);
    assert(entries.skip(0) =~= entries);
    lemma_tidy_entries(fields, start + 1, entries, 0, spec, membership, dict, declared);
    let walk = group_findings(fields, start, spec, membership, dict);
    if entries.len() == declared {
        assert(walk.found =~= seq![]);
    } else {
        assert(walk.found =~= seq![miscounted(spec.count_tag, declared, entries.len())]);
    }
}

/// What an entry without findings is made of.
proof fn lemma_clean_entry(
    fields: Seq<FieldPair>,
    start: int,
    idx: int,
    spec: GroupModel,
    membership: Map<u32, u32>,
    dict: LookupModel,
    last: int,
) -> (run: Seq<Piece>)
    requires
        sound(spec),
        0 <= start <= idx <= fields.len(),
        entry_findings(fields, start, idx, spec, membership, dict, last).found.len() == 0,
    ensures
        ({
            let walk = entry_findings(fields, start, idx, spec, membership, dict, last);
            &&& idx <= walk.next <= fields.len()
            &&& fields.subrange(idx, walk.next) == run_fields(run)
        }),
        forall|i: int| 0 <= i < run.len() ==> tidy_piece(#[trigger] run[i], spec),
        forall|i: int|
            0 <= i < run.len() && (i > 0 || idx > start) ==> (#[trigger] run[i]).tag()
                != spec.delim,
        in_entry_order(run, spec),
        forall|i: int|
            0 <= i < run.len() && (#[trigger] run[i]) is Field ==> last
                <= spec.entry_order.index_of(run[i].tag()),
        idx < fields.len() && of_entry(spec, fields[idx].0, idx == start) ==> run.len() > 0
            && run[0].tag() == fields[idx].0,
    decreases spec, 0int, remaining(fields, idx), 0int,
{
    if idx >= fields.len() || !of_entry(spec, fields[idx].0, idx == start) {
        assert(fields.subrange(idx, idx) =~= seq![]);
        seq![]
    } else {
        let tag = fields[idx].0;
        lemma_group_at(spec.nested, tag);
        let walk = entry_findings(fields, start, idx, spec, membership, dict, last);
        if has_group(spec.nested, tag) {
            let at = group_at(spec.nested, tag);
            assert(decreases_to!(spec => spec.nested));
            assert(decreases_to!(spec.nested => spec.nested[at]));
            let inside = group_findings(fields, idx, spec.nested[at], membership, dict);
            let entries = lemma_clean_group(fields, idx, spec.nested[at], membership, dict);
            let rest = lemma_clean_entry(
                fields,
                start,
                inside.next,
                spec,
                membership,
                dict,
                last,
            );
            let piece = Piece::Group(fields[idx], entries);
            let run = seq![piece] + rest;
            lemma_one_piece(piece, rest);
            assert(fields.subrange(idx, walk.next) =~= fields.subrange(idx, inside.next)
                + fields.subrange(inside.next, walk.next));
            assert(tidy_piece(piece, spec));
            lemma_prepended(run, piece, rest, spec, last);
            run
        } else {
            let position = spec.entry_order.index_of(tag);
            let rest = lemma_clean_entry(
                fields,
                start,
                idx + 1,
                spec,
                membership,
                dict,
                position,
            );
            let piece = Piece::Field(fields[idx]);
            let run = seq![piece] + rest;
            lemma_one_piece(piece, rest);
            assert(fields.subrange(idx, walk.next) =~= seq![fields[idx]] + fields.subrange(
                idx + 1,
                walk.next,
            ));
            assert(position >= last);
            lemma_prepended(run, piece, rest, spec, last);
            run
        }
    }
}

proof fn lemma_prepended(
    run: Seq<Piece>,
    piece: Piece,
    rest: Seq<Piece>,
    spec: GroupModel,
    last: int,
)
    requires
        run == seq![piece] + rest,
        tidy_piece(piece, spec),
        forall|i: int| 0 <= i < rest.len() ==> tidy_piece(#[trigger] rest[i], spec),
        in_entry_order(rest, spec),
        piece is Field ==> last <= spec.entry_order.index_of(piece.tag()) && forall|i: int|
            0 <= i < rest.len() && (#[trigger] rest[i]) is Field ==> spec.entry_order.index_of(
                piece.tag(),
            ) <= spec.entry_order.index_of(rest[i].tag()),
        piece is Group ==> forall|i: int|
            0 <= i < rest.len() && (#[trigger] rest[i]) is Field ==> last
                <= spec.entry_order.index_of(rest[i].tag()),
        forall|i: int| 0 <= i < rest.len() ==> (#[trigger] rest[i]).tag() != spec.delim,
    ensures
        forall|i: int| 0 <= i < run.len() ==> tidy_piece(#[trigger] run[i], spec),
        in_entry_order(run, spec),
        forall|i: int|
            0 <= i < run.len() && (#[trigger] run[i]) is Field ==> last
                <= spec.entry_order.index_of(run[i].tag()),
        forall|i: int| 1 <= i < run.len() ==> (#[trigger] run[i]).tag() != spec.delim,
        run[0] == piece,
{
    assert forall|i: int| 0 <= i < run.len() implies run[i] == (if i == 0 {
        piece
    } else {
        rest[i - 1]
    }) by {}
    assert forall|i: int| 0 <= i < run.len() implies tidy_piece(#[trigger] run[i], spec) by {
        if i > 0 {
            assert(run[i] == rest[i - 1]);
        }
    }
    assert forall|i: int, j: int|
        0 <= i < j < run.len() && (#[trigger] run[i]) is Field && (
        #[trigger] run[j]) is Field implies spec.entry_order.index_of(run[i].tag())
        <= spec.entry_order.index_of(run[j].tag()) by {
        assert(run[j] == rest[j - 1]);
        if i > 0 {
            assert(run[i] == rest[i - 1]);
        }
    }
    assert forall|i: int| 0 <= i < run.len() && (#[trigger] run[i]) is Field implies last
        <= spec.entry_order.index_of(run[i].tag()) by {
        if i > 0 {
            assert(run[i] == rest[i - 1]);
        }
    }
    assert forall|i: int| 1 <= i < run.len() implies (#[trigger] run[i]).tag() != spec.delim by {
        assert(run[i] == rest[i - 1]);
    }
}

/// What entries without findings are made of.
proof fn lemma_clean_entries(
    fields: Seq<FieldPair>,
    idx: int,
    spec: GroupModel,
    membership: Map<u32, u32>,
    dict: LookupModel,
    count: nat,
    done: nat,
) -> (entries: Seq<Seq<Piece>>)
    requires
        sound(spec),
        0 <= idx <= fields.len(),
        entries_findings(fields, idx, spec, membership, dict, count, done).found.len() == 0,
    ensures
        ({
            let walk = entries_findings(fields, idx, spec, membership, dict, count, done);
            &&& idx <= walk.next <= fields.len()
            &&& fields.subrange(idx, walk.next) == entries_fields(entries)
            &&& walk.entries == done + entries.len()
        }),
        tidy_entries(entries, spec),
    decreases spec, 1int, count - done, remaining(fields, idx),
{
    let walk = entries_findings(fields, idx, spec, membership, dict, count, done);
    if idx < fields.len() && done < count && fields[idx].0 == spec.delim {
        let entry = entry_findings(fields, idx, idx, spec, membership, dict, -1);
        let rest = entries_findings(
            fields,
            entry.next,
            spec,
            membership,
            dict,
            count,
            done + 1,
        );
        assert(walk.found == entry.found + rest.found);
        let first = lemma_clean_entry(fields, idx, idx, spec, membership, dict, -1);
        let later = lemma_clean_entries(
            fields,
            entry.next,
            spec,
            membership,
            dict,
            count,
            done + 1,
        );
        let entries = seq![first] + later;
        assert(entries.skip(1) =~= later);
        assert(fields.subrange(idx, walk.next) =~= fields.subrange(idx, entry.next)
            + fields.subrange(entry.next, walk.next));
        assert(tidy_entry(first, spec));
        assert forall|i: int| 0 <= i < entries.len() implies tidy_entry(
            #[trigger] entries[i],
            spec,
        ) by {
            if i > 0 {
                assert(entries[i] == later[i - 1]);
            }
        }
        entries
    } else {
        assert(fields.subrange(idx, idx) =~= seq![]);
        let entries: Seq<Seq<Piece>> = seq![];
        assert(entries_fields(entries) =~= seq![]);
        entries
    }
}

/// What a group without findings is made of: tidy entries, as many as its count field says.
proof fn lemma_clean_group(
    fields: Seq<FieldPair>,
    start: int,
    spec: GroupModel,
    membership: Map<u32, u32>,
    dict: LookupModel,
) -> (entries: Seq<Seq<Piece>>)
    requires
        sound(spec),
        0 <= start < fields.len(),
        group_findings(fields, start, spec, membership, dict).found.len() == 0,
    ensures
        ({
            let walk = group_findings(fields, start, spec, membership, dict);
            &&& start < walk.next <= fields.len()
            &&& fields.subrange(start, walk.next) == seq![fields[start]] + entries_fields(entries)
        }),
        tidy_entries(entries, spec),
        counts(fields[start].1, entries.len()),
    decreases spec, 2int, 0int, 0int,
{
    let value = fields[start].1;
    let count = announced(value);
    let walk = entries_findings(fields, start + 1, spec, membership, dict, count, 0);
    let whole = group_findings(fields, start, spec, membership, dict);
    assert(parsed_unsigned(value, usize::MAX as nat) is Some);
    assert(walk.found.len() == 0);
    assert(walk.entries == count);
    let entries = lemma_clean_entries(fields, start + 1, spec, membership, dict, count, 0);
    lemma_count(value, entries.len());
    assert(fields.subrange(start, walk.next) =~= seq![fields[start]] + fields.subrange(
        start + 1,
        walk.next,
    ));
    entries
}

/// A piece of a message stands where it may: a field that belongs to no group, or a group that
/// has as many entries as its count field says.
pub open spec fn placed_piece(piece: Piece, def: MessageModel) -> bool {
    match piece {
        Piece::Field(field) => !has_group(def.groups, field.0) && !def.membership.contains_key(
            field.0,
        ),
        Piece::Group(count, entries) => has_group(def.groups, count.0) && counts(
            count.1,
            entries.len(),
        ) && tidy_entries(entries, def.groups[group_at(def.groups, count.0)]),
    }
}

/// The groups of a layout can each be told from what stands around them.
pub open spec fn sound_groups(def: MessageModel) -> bool {
    forall|i: int| 0 <= i < def.groups.len() ==> sound(#[trigger] def.groups[i])
}

proof fn lemma_clean_groups(
    fields: Seq<FieldPair>,
    idx: int,
    def: MessageModel,
    dict: LookupModel,
) -> (run: Seq<Piece>)
    requires
        sound_groups(def),
        0 <= idx <= fields.len(),
        grouping_findings(fields, idx, def, dict).len() == 0,
    ensures
        fields.subrange(idx, fields.len() as int) == run_fields(run),
        forall|i: int| 0 <= i < run.len() ==> placed_piece(#[trigger] run[i], def),
    decreases remaining(fields, idx),
{
    let n = fields.len() as int;
    if idx == n {
        assert(fields.subrange(idx, n) =~= seq![]);
        seq![]
    } else {
        let tag = fields[idx].0;
        lemma_group_at(def.groups, tag);
        if has_group(def.groups, tag) {
            let spec = def.groups[group_at(def.groups, tag)];
            let walk = group_findings(fields, idx, spec, def.membership, dict);
            let entries = lemma_clean_group(fields, idx, spec, def.membership, dict);
            let rest = lemma_clean_groups(fields, walk.next, def, dict);
            let piece = Piece::Group(fields[idx], entries);
            let run = seq![piece] + rest;
            lemma_one_piece(piece, rest);
            assert(fields.subrange(idx, n) =~= fields.subrange(idx, walk.next) + fields.subrange(
                walk.next,
                n,
            ));
            assert forall|i: int| 0 <= i < run.len() implies placed_piece(
                #[trigger] run[i],
                def,
            ) by {
                if i > 0 {
                    assert(run[i] == rest[i - 1]);
                }
            }
            run
        } else {
            let rest = lemma_clean_groups(fields, idx + 1, def, dict);
            let piece = Piece::Field(fields[idx]);
            let run = seq![piece] + rest;
            lemma_one_piece(piece, rest);
            assert(fields.subrange(idx, n) =~= seq![fields[idx]] + fields.subrange(idx + 1, n));
            assert forall|i: int| 0 <= i < run.len() implies placed_piece(
                #[trigger] run[i],
                def,
            ) by {
                if i > 0 {
                    assert(run[i] == rest[i - 1]);
                }
            }
            run
        }
    }
}

/// A message without findings has, in each of its groups and in every group inside an entry,
/// exactly as many entries as the count field says, each opened by its delimiter and with its
/// fields in the order of the group; and no field of a group stands outside of it.
pub proof fn law_clean_messages_have_their_entries(
    msg: Seq<char>,
    dict: LookupModel,
    def: MessageModel,
) -> (run: Seq<Piece>)
    requires
        findings(msg, dict).len() == 0,
        layout(fields_of(msg), dict) == Some(def),
        sound_groups(def),
    ensures
        run_fields(run) == fields_of(msg),
        forall|i: int| 0 <= i < run.len() ==> placed_piece(#[trigger] run[i], def),
{
    let fields = fields_of(msg);
    assert(grouping_findings(fields, 0, def, dict).len() == 0);
    let run = lemma_clean_groups(fields, 0, def, dict);
    assert(fields.subrange(0, fields.len() as int) =~= fields);
    run
}

proof fn lemma_plain_fields(
    fields: Seq<FieldPair>,
    idx: int,
    start: int,
    def: MessageModel,
    dict: LookupModel,
)
    requires
        0 <= idx <= start <= fields.len(),
        forall|i: int| idx <= i < start ==> !has_group(def.groups, (#[trigger] fields[i]).0),
    ensures
        forall|f: Finding|
            grouping_findings(fields, start, def, dict).contains(f)
                ==> #[trigger] grouping_findings(fields, idx, def, dict).contains(f),
    decreases start - idx,
{
    if idx < start {
        lemma_plain_fields(fields, idx + 1, start, def, dict);
        let later = grouping_findings(fields, idx + 1, def, dict);
        let all = grouping_findings(fields, idx, def, dict);
        let here = all.len() - later.len();
        assert(all.skip(here) =~= later);
        assert forall|f: Finding| later.contains(f) implies #[trigger] all.contains(f) by {
            let i = later.index_of(f);
            assert(all[here + i] == later[i]);
        }
    }
}

/// A message in which a group has fewer entries than its count field announces is reported:
/// under the tag that counts, with the number that is announced and the number that is there.
pub proof fn law_missing_entries_are_reported(
    msg: Seq<char>,
    dict: LookupModel,
    def: MessageModel,
    start: int,
    entries: Seq<Seq<Piece>>,
    declared: nat,
)
    requires
        layout(fields_of(msg), dict) == Some(def),
        0 <= start < fields_of(msg).len(),
        forall|i: int|
            0 <= i < start ==> !has_group(def.groups, (#[trigger] fields_of(msg)[i]).0),
        has_group(def.groups, fields_of(msg)[start].0),
        ({
            let fields = fields_of(msg);
            let spec = def.groups[group_at(def.groups, fields[start].0)];
            let e = start + 1 + entries_fields(entries).len();
            &&& sound(spec)
            &&& tidy_entries(entries, spec)
            &&& counts(fields[start].1, declared)
            &&& entries.len() < declared
            &&& e <= fields.len()
            &&& fields.subrange(start + 1, e) == entries_fields(entries)
            &&& e == fields.len() || (closes(spec, fields[e].0) && !(def.membership.contains_key(
                fields[e].0,
            ) && def.membership[fields[e].0] == fields[start].0))
        }),
    ensures
        findings(msg, dict).contains(
            miscounted(fields_of(msg)[start].0, declared, entries.len()),
        ),
{
    let fields = fields_of(msg);
    let tag = fields[start].0;
    lemma_group_at(def.groups, tag);
    let spec = def.groups[group_at(def.groups, tag)];
    law_entries_are_counted(fields, start, entries, declared, spec, def.membership, dict);
    let finding = miscounted(tag, declared, entries.len());
    let here = grouping_findings(fields, start, def, dict);
    assert(here[0] == finding);
    assert(here.contains(finding));
    lemma_plain_fields(fields, 0, start, def, dict);
    let groups = grouping_findings(fields, 0, def, dict);
    assert(groups.contains(finding));
    let i = groups.index_of(finding);
    assert(groups[i] == finding);
    lemma_groups_are_found(msg, dict, def, i);
}

/// What is found in the groups is found in the message.
pub proof fn lemma_groups_are_found(
    msg: Seq<char>,
    dict: LookupModel,
    def: MessageModel,
    i: int,
)
    requires
        layout(fields_of(msg), dict) == Some(def),
        0 <= i < grouping_findings(fields_of(msg), 0, def, dict).len(),
    ensures
        findings(msg, dict).contains(grouping_findings(fields_of(msg), 0, def, dict)[i]),
{
    let fields = fields_of(msg);
    let groups = grouping_findings(fields, 0, def, dict);
    let last = crate::validator::checksum_findings(msg, fields);
    let all = findings(msg, dict);
    let at = all.len() - last.len() - groups.len() + i;
    assert(all[at] == groups[i]);
}

proof fn lemma_placed_groups(
    fields: Seq<FieldPair>,
    idx: int,
    run: Seq<Piece>,
    k: int,
    def: MessageModel,
    dict: LookupModel,
)
    requires
        sound_groups(def),
        0 <= k <= run.len(),
        0 <= idx <= fields.len(),
        fields.subrange(idx, fields.len() as int) == run_fields(run.skip(k)),
        forall|i: int| 0 <= i < run.len() ==> placed_piece(#[trigger] run[i], def),
        forall|i: int, j: int|
            0 <= i && j == i + 1 && j < run.len() && (#[trigger] run[i]) is Group ==> closes(
                def.groups[group_at(def.groups, run[i].tag())],
                (#[trigger] run[j]).tag(),
            ),
    ensures
        grouping_findings(fields, idx, def, dict).len() == 0,
    decreases remaining(fields, idx),
{
    let n = fields.len() as int;
    let rest = run.skip(k);
    if k == run.len() {
        assert(run_fields(rest).len() == 0);
        assert(fields.subrange(idx, n).len() == 0);
    } else {
        let piece = run[k];
        let later = run.skip(k + 1);
        assert(rest[0] == piece);
        assert(rest.skip(1) =~= later);
        assert(run_fields(rest) == piece_fields(piece) + run_fields(later));
        lemma_piece_head(piece);
        let here = piece_fields(piece).len() as int;
        let whole = fields.subrange(idx, n);
        assert(whole[0] == piece_fields(piece)[0]);
        let tag = piece.tag();
        assert(fields[idx].0 == tag);
        assert(placed_piece(piece, def));
        lemma_group_at(def.groups, tag);
        assert(fields.subrange(idx + here, n) =~= run_fields(later)) by {
            assert(fields.subrange(idx + here, n) =~= whole.skip(here));
            assert(run_fields(rest).skip(here) =~= run_fields(later));
        }
        match piece {
            Piece::Field(_) => {
                lemma_placed_groups(fields, idx + 1, run, k + 1, def, dict);
            },
            Piece::Group(count, entries) => {
                let spec = def.groups[group_at(def.groups, tag)];
                let next = idx + here;
                assert(fields.subrange(idx, next) =~= piece_fields(piece)) by {
                    assert(fields.subrange(idx, next) =~= whole.take(here));
                    assert(run_fields(rest).take(here) =~= piece_fields(piece));
                }
                assert(fields[idx] == count);
                assert(next == n || closes(spec, fields[next].0)) by {
                    if k + 1 < run.len() {
                        assert(later[0] == run[k + 1]);
                        lemma_piece_head(run[k + 1]);
                        assert(run_fields(later) == piece_fields(run[k + 1]) + run_fields(
                            later.skip(1),
                        ));
                        assert(fields.subrange(next, n)[0] == piece_fields(run[k + 1])[0]);
                        assert(run[k] is Group);
                    } else {
                        assert(run_fields(later).len() == 0);
                    }
                }
                lemma_tidy_group(fields, idx, entries, spec, def.membership, dict);
                lemma_placed_groups(fields, next, run, k + 1, def, dict);
            },
        }
    }
}

/// A message that is made of fields that belong to no group, and of groups with as many
/// entries as announced, has no finding on its groups.
pub proof fn law_counted_groups_are_clean(
    fields: Seq<FieldPair>,
    run: Seq<Piece>,
    def: MessageModel,
    dict: LookupModel,
)
    requires
        sound_groups(def),
        fields == run_fields(run),
        forall|i: int| 0 <= i < run.len() ==> placed_piece(#[trigger] run[i], def),
        forall|i: int, j: int|
            0 <= i && j == i + 1 && j < run.len() && (#[trigger] run[i]) is Group ==> closes(
                def.groups[group_at(def.groups, run[i].tag())],
                (#[trigger] run[j]).tag(),
            ),
    ensures
        grouping_findings(fields, 0, def, dict).len() == 0,
{
    assert(run.skip(0) =~= run);
    assert(fields.subrange(0, fields.len() as int) =~= fields);
    lemma_placed_groups(fields, 0, run, 0, def, dict);
}

} // verus!
