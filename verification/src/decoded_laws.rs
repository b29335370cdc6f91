//! What a decoded message shows.
use crate::colours::{ColourPalette, BASE_INDENT, ENTRY_FIELD_INDENT};
use crate::decoded::{
    decoded_line, entries_shown, entry_shown, entry_title, fields_shown, first_value, group_shown,
    is_unnamed, miscount_line, miscount_text, missing_line, missing_lines, noted_line, notes_for,
    prettified, tags_passed, DecodeEnv, Notes,
};
use crate::display::deeper;
use crate::fixparser::{fields_of, FieldPair};
use crate::group_laws::{
    closes, counts, entries_fields, inner, lemma_count, lemma_piece_head, piece_fields, run_fields,
    sound, tidy_entries, tidy_entry, tidy_piece, Piece,
};
use crate::groups::{group_at, has_group, lemma_group_at, GroupModel};
use crate::message_laws::{digits, law_numbers_are_written};
use crate::sorting::{ascending_numbers, increasing};
use crate::tag_lookup::MessageModel;
use crate::text::{join, repeated, right_aligned};
use crate::validator::{announced, of_entry, remaining};
use vstd::prelude::*;

verus! {

/// A line of a decoded message.
pub enum ShownLine {
    /// The line of the next field, with that many spaces in front.
    Field(usize),
    /// A line that belongs to no field: the title of an entry, or a remark.
    Aside(Seq<char>),
}

/// A line that belongs to no field is the title of an entry, the remark that a group has
/// another number of entries than announced, or a remark on a tag.
pub open spec fn is_aside(line: Seq<char>, env: DecodeEnv) -> bool {
    ||| exists|name: Seq<char>, number: nat, level: usize|
        line == #[trigger] entry_title(name, number, level, env.colours)
    ||| exists|spec: GroupModel, expected: nat, entries: nat, level: usize|
        line == #[trigger] miscount_line(spec, expected, entries, level, env.colours)
    ||| exists|tag: u32, errs: Seq<Seq<char>>|
        line == #[trigger] missing_line(tag, errs, env.dict, env.colours)
}

/// How many of the lines are those of fields.
pub open spec fn field_lines(lines: Seq<ShownLine>) -> nat
    decreases lines.len(),
{
    if lines.len() == 0 {
        0
    } else {
        field_lines(lines.skip(1)) + if lines[0] is Field {
            1nat
        } else {
            0
        }
    }
}

/// The text of the lines, the field lines being those of the fields in their order.
pub open spec fn spelled(lines: Seq<ShownLine>, fields: Seq<FieldPair>, env: DecodeEnv) -> Seq<char>
    decreases lines.len(),
{
    if lines.len() == 0 {
        seq![]
    } else {
        match lines[0] {
            ShownLine::Field(level) => decoded_line(fields[0], level, env) + spelled(
                lines.skip(1),
                fields.skip(1),
                env,
            ),
            ShownLine::Aside(text) => text + spelled(lines.skip(1), fields, env),
        }
    }
}

/// The lines are one for each field, and some that belong to none.
pub open spec fn lines_for(lines: Seq<ShownLine>, fields: Seq<FieldPair>, env: DecodeEnv) -> bool {
    &&& field_lines(lines) == fields.len()
    &&& forall|i: int|
        0 <= i < lines.len() ==> ((#[trigger] lines[i]) matches ShownLine::Aside(text) ==> is_aside(
            text,
            env,
        ))
}

/// The text shows the fields: each on a line of its own, in order, none twice and none left
/// out.
pub open spec fn shows(text: Seq<char>, fields: Seq<FieldPair>, env: DecodeEnv) -> bool {
    exists|lines: Seq<ShownLine>|
        #[trigger] lines_for(lines, fields, env) && text == spelled(lines, fields, env)
}

proof fn lemma_lines_add(
    a: Seq<ShownLine>,
    b: Seq<ShownLine>,
    x: Seq<FieldPair>,
    y: Seq<FieldPair>,
    env: DecodeEnv,
)
    requires
        field_lines(a) == x.len(),
    ensures
        field_lines(a + b) == field_lines(a) + field_lines(b),
        spelled(a + b, x + y, env) == spelled(a, x, env) + spelled(b, y, env),
    decreases a.len(),
{
    if a.len() == 0 {
        assert(a + b =~= b);
        assert(x + y =~= y);
        assert(spelled(a, x, env) + spelled(b, y, env) =~= spelled(b, y, env));
    } else {
        let rest = a.skip(1);
        assert((a + b).skip(1) =~= rest + b);
        assert((a + b)[0] == a[0]);
        match a[0] {
            ShownLine::Field(level) => {
                assert((x + y).skip(1) =~= x.skip(1) + y);
                assert((x + y)[0] == x[0]);
                lemma_lines_add(rest, b, x.skip(1), y, env);
                assert(spelled(a + b, x + y, env) =~= spelled(a, x, env) + spelled(b, y, env));
            },
            ShownLine::Aside(text) => {
                lemma_lines_add(rest, b, x, y, env);
                assert(spelled(a + b, x + y, env) =~= spelled(a, x, env) + spelled(b, y, env));
            },
        }
    }
}

proof fn lemma_shows_add(
    s: Seq<char>,
    t: Seq<char>,
    x: Seq<FieldPair>,
    y: Seq<FieldPair>,
    env: DecodeEnv,
)
    requires
        shows(s, x, env),
        shows(t, y, env),
    ensures
        shows(s + t, x + y, env),
{
    let a = choose|lines: Seq<ShownLine>|
        #[trigger] lines_for(lines, x, env) && s == spelled(lines, x, env);
    let b = choose|lines: Seq<ShownLine>|
        #[trigger] lines_for(lines, y, env) && t == spelled(lines, y, env);
    lemma_lines_add(a, b, x, y, env);
    let all = a + b;
    assert forall|i: int| 0 <= i < all.len() implies ((
    #[trigger] all[i]) matches ShownLine::Aside(text) ==> is_aside(text, env)) by {
        if i < a.len() {
            assert(all[i] == a[i]);
        } else {
            assert(all[i] == b[i - a.len()]);
        }
    }
    assert(lines_for(all, x + y, env));
}

proof fn lemma_shows_nothing(env: DecodeEnv)
    ensures
        shows(seq![], seq![], env),
{
    let lines: Seq<ShownLine> = seq![];
    assert(lines_for(lines, seq![], env));
    assert(spelled(lines, seq![], env) == Seq::<char>::empty());
}

proof fn lemma_shows_aside(line: Seq<char>, env: DecodeEnv)
    requires
        is_aside(line, env),
    ensures
        shows(line, seq![], env),
{
    let lines = seq![ShownLine::Aside(line)];
    assert(lines.skip(1) =~= seq![]);
    assert(field_lines(lines.skip(1)) == 0);
    assert(lines_for(lines, seq![], env));
    assert(spelled(lines.skip(1), seq![], env) == Seq::<char>::empty());
    assert(spelled(lines, seq![], env) =~= line);
}

proof fn lemma_shows_field(field: FieldPair, level: usize, env: DecodeEnv)
    ensures
        shows(decoded_line(field, level, env), seq![field], env),
{
    let lines = seq![ShownLine::Field(level)];
    let fields = seq![field];
    assert(lines.skip(1) =~= seq![]);
    assert(field_lines(lines.skip(1)) == 0);
    assert(lines_for(lines, fields, env));
    assert(spelled(lines.skip(1), fields.skip(1), env) == Seq::<char>::empty());
    assert(spelled(lines, fields, env) =~= decoded_line(field, level, env));
}

proof fn lemma_shows_note(tag: u32, env: DecodeEnv)
    ensures
        shows(noted_line(tag, env), seq![], env),
{
    if let Some(errs) = notes_for(env.notes, tag) {
        if errs.len() > 0 {
            let line = missing_line(tag, errs, env.dict, env.colours);
            lemma_shows_aside(line, env);
        } else {
            lemma_shows_nothing(env);
        }
    } else {
        lemma_shows_nothing(env);
    }
}

proof fn lemma_shows_miscount(
    spec: GroupModel,
    expected: nat,
    entries: nat,
    level: usize,
    env: DecodeEnv,
)
    ensures
        shows(miscount_text(spec, expected, entries, level, env), seq![], env),
{
    lemma_shows_nothing(env);
    lemma_shows_note(spec.count_tag, env);
    lemma_shows_aside(miscount_line(spec, expected, entries, level, env.colours), env);
}

/// Two runs of fields, one behind the other, are shown one behind the other.
proof fn lemma_shows_run(
    fields: Seq<FieldPair>,
    a: int,
    b: int,
    c: int,
    s: Seq<char>,
    t: Seq<char>,
    env: DecodeEnv,
)
    requires
        0 <= a <= b <= c <= fields.len(),
        shows(s, fields.subrange(a, b), env),
        shows(t, fields.subrange(b, c), env),
    ensures
        shows(s + t, fields.subrange(a, c), env),
{
    lemma_shows_add(s, t, fields.subrange(a, b), fields.subrange(b, c), env);
    assert(fields.subrange(a, b) + fields.subrange(b, c) =~= fields.subrange(a, c));
}

/// A remark in front of a run of fields does not change what is shown.
proof fn lemma_shows_behind(
    remark: Seq<char>,
    text: Seq<char>,
    fields: Seq<FieldPair>,
    env: DecodeEnv,
)
    requires
        shows(remark, seq![], env),
        shows(text, fields, env),
    ensures
        shows(remark + text, fields, env),
        shows(text + remark, fields, env),
{
    lemma_shows_add(remark, text, seq![], fields, env);
    lemma_shows_add(text, remark, fields, seq![], env);
    assert(Seq::<FieldPair>::empty() + fields =~= fields);
    assert(fields + Seq::<FieldPair>::empty() =~= fields);
}

proof fn lemma_group_shows(
    fields: Seq<FieldPair>,
    start: int,
    spec: GroupModel,
    membership: Map<u32, u32>,
    level: usize,
    env: DecodeEnv,
)
    requires
        0 <= start < fields.len(),
    ensures
        ({
            let walk = group_shown(fields, start, spec, membership, level, env);
            start < walk.next <= fields.len() && shows(
                walk.text,
                fields.subrange(start, walk.next),
                env,
            )
        }),
    decreases spec, 2int, 0int, 0int,
{
    let expected = announced(fields[start].1);
    let walk = entries_shown(fields, start + 1, spec, membership, level, env, expected, 0);
    let line = decoded_line(fields[start], level, env);
    lemma_entries_show(fields, start + 1, spec, membership, level, env, expected, 0);
    lemma_shows_field(fields[start], level, env);
    assert(fields.subrange(start, start + 1) =~= seq![fields[start]]);
    lemma_shows_run(fields, start, start + 1, walk.next, line, walk.text, env);
    lemma_shows_miscount(spec, expected, walk.entries, level, env);
    lemma_shows_behind(
        miscount_text(spec, expected, walk.entries, level, env),
        line + walk.text,
        fields.subrange(start, walk.next),
        env,
    );
}

proof fn lemma_entries_show(
    fields: Seq<FieldPair>,
    idx: int,
    spec: GroupModel,
    membership: Map<u32, u32>,
    level: usize,
    env: DecodeEnv,
    expected: nat,
    entries: nat,
)
    requires
        0 <= idx <= fields.len(),
    ensures
        ({
            let walk = entries_shown(fields, idx, spec, membership, level, env, expected, entries);
            idx <= walk.next <= fields.len() && shows(
                walk.text,
                fields.subrange(idx, walk.next),
                env,
            )
        }),
    decreases spec, 1int, expected - entries, remaining(fields, idx),
{
    lemma_shows_nothing(env);
    assert(fields.subrange(idx, idx) =~= seq![]);
    if idx < fields.len() && entries < expected {
        let tag = fields[idx].0;
        let member = membership.contains_key(tag) && membership[tag] == spec.count_tag;
        if tag == spec.delim || (member && entries == 0) {
            let title = entry_title(spec.name, entries + 1, level, env.colours);
            let entry = entry_shown(fields, idx, idx, spec, membership, level, env, -1);
            lemma_entry_shows(fields, idx, idx, spec, membership, level, env, -1);
            lemma_shows_aside(title, env);
            lemma_shows_behind(title, entry.text, fields.subrange(idx, entry.next), env);
            lemma_entries_show(
                fields,
                entry.next,
                spec,
                membership,
                level,
                env,
                expected,
                entries + 1,
            );
            let rest = entries_shown(
                fields,
                entry.next,
                spec,
                membership,
                level,
                env,
                expected,
                entries + 1,
            );
            lemma_shows_run(
                fields,
                idx,
                entry.next,
                rest.next,
                title + entry.text,
                rest.text,
                env,
            );
        } else if member {
            let inner = deeper(level, ENTRY_FIELD_INDENT);
            let rest = entries_shown(
                fields,
                idx + 1,
                spec,
                membership,
                level,
                env,
                expected,
                entries,
            );
            lemma_entries_show(fields, idx + 1, spec, membership, level, env, expected, entries);
            lemma_shows_field(fields[idx], inner, env);
            assert(fields.subrange(idx, idx + 1) =~= seq![fields[idx]]);
            lemma_shows_run(
                fields,
                idx,
                idx + 1,
                rest.next,
                decoded_line(fields[idx], inner, env),
                rest.text,
                env,
            );
        }
    }
}

proof fn lemma_entry_shows(
    fields: Seq<FieldPair>,
    start: int,
    idx: int,
    spec: GroupModel,
    membership: Map<u32, u32>,
    level: usize,
    env: DecodeEnv,
    last: int,
)
    requires
        0 <= idx <= fields.len(),
    ensures
        ({
            let walk = entry_shown(fields, start, idx, spec, membership, level, env, last);
            idx <= walk.next <= fields.len() && shows(
                walk.text,
                fields.subrange(idx, walk.next),
                env,
            )
        }),
    decreases spec, 0int, remaining(fields, idx), 0int,
{
    lemma_shows_nothing(env);
    assert(fields.subrange(idx, idx) =~= seq![]);
    if idx < fields.len() && of_entry(spec, fields[idx].0, idx == start) {
        let tag = fields[idx].0;
        let deep = deeper(level, ENTRY_FIELD_INDENT);
        if has_group(spec.nested, tag) {
            let at = group_at(spec.nested, tag);
            lemma_group_at(spec.nested, tag);
            assert(decreases_to!(spec => spec.nested));
            assert(decreases_to!(spec.nested => spec.nested[at]));
            let inner = group_shown(fields, idx, spec.nested[at], membership, deep, env);
            lemma_group_shows(fields, idx, spec.nested[at], membership, deep, env);
            lemma_entry_shows(
                fields,
                start,
                inner.next,
                spec,
                membership,
                level,
                env,
                last,
            );
            let rest = entry_shown(
                fields,
                start,
                inner.next,
                spec,
                membership,
                level,
                env,
                last,
            );
            lemma_shows_run(fields, idx, inner.next, rest.next, inner.text, rest.text, env);
        } else {
            let position = spec.entry_order.index_of(tag);
            let note = if position < last {
                noted_line(tag, env)
            } else {
                seq![]
            };
            let rest = entry_shown(
                fields,
                start,
                idx + 1,
                spec,
                membership,
                level,
                env,
                position,
            );
            let line = decoded_line(fields[idx], deep, env);
            lemma_entry_shows(
                fields,
                start,
                idx + 1,
                spec,
                membership,
                level,
                env,
                position,
            );
            lemma_shows_note(tag, env);
            lemma_shows_field(fields[idx], deep, env);
            assert(fields.subrange(idx, idx + 1) =~= seq![fields[idx]]);
            lemma_shows_behind(note, line, fields.subrange(idx, idx + 1), env);
            lemma_shows_run(fields, idx, idx + 1, rest.next, note + line, rest.text, env);
        }
    }
}

proof fn lemma_fields_show(
    fields: Seq<FieldPair>,
    idx: int,
    def: Option<MessageModel>,
    env: DecodeEnv,
)
    requires
        0 <= idx <= fields.len(),
    ensures
        shows(
            fields_shown(fields, idx, def, env),
            fields.subrange(idx, fields.len() as int),
            env,
        ),
    decreases remaining(fields, idx),
{
    let n = fields.len() as int;
    if idx >= n {
        lemma_shows_nothing(env);
        assert(fields.subrange(idx, n) =~= seq![]);
    } else {
        let tag = fields[idx].0;
        let plain = decoded_line(fields[idx], BASE_INDENT, env);
        lemma_shows_field(fields[idx], BASE_INDENT, env);
        assert(fields.subrange(idx, idx + 1) =~= seq![fields[idx]]);
        lemma_fields_show(fields, idx + 1, def, env);
        lemma_shows_run(
            fields,
            idx,
            idx + 1,
            n,
            plain,
            fields_shown(fields, idx + 1, def, env),
            env,
        );
        if let Some(model) = def {
            if has_group(model.groups, tag) {
                let spec = model.groups[group_at(model.groups, tag)];
                let walk = group_shown(fields, idx, spec, model.membership, BASE_INDENT, env);
                lemma_group_shows(fields, idx, spec, model.membership, BASE_INDENT, env);
                lemma_fields_show(fields, walk.next, def, env);
                lemma_shows_run(
                    fields,
                    idx,
                    walk.next,
                    n,
                    walk.text,
                    fields_shown(fields, walk.next, def, env),
                    env,
                );
            }
        }
    }
}

proof fn lemma_missing_show(tags: Seq<u32>, n: int, seen: Set<u32>, env: DecodeEnv)
    ensures
        shows(missing_lines(tags, n, seen, env), seq![], env),
    decreases n,
{
    if n <= 0 || n > tags.len() {
        lemma_shows_nothing(env);
    } else {
        lemma_missing_show(tags, n - 1, seen, env);
        lemma_shows_note(tags[n - 1], env);
        lemma_shows_behind(
            missing_lines(tags, n - 1, seen, env),
            noted_line(tags[n - 1], env),
            seq![],
            env,
        );
    }
}

/// Every field of a message has its line in the decoded text: one line for each field, in the
/// order of the fields, inside groups and in groups inside groups too, and no line of a field
/// that is not there. All that stands between them are the titles of entries and remarks.
pub proof fn law_every_field_has_its_line(msg: Seq<char>, env: DecodeEnv)
    ensures
        shows(prettified(msg, env), fields_of(msg), env),
{
    let fields = fields_of(msg);
    let def = match first_value(fields, 0, 35) {
        Some(msg_type) => env.dict.message_def(msg_type),
        None => None,
    };
    lemma_fields_show(fields, 0, def, env);
    assert(fields.subrange(0, fields.len() as int) =~= fields);
    if let Some(notes) = env.notes {
        let tags = ascending_numbers(notes.dom());
        let seen = tags_passed(fields, 0, def, env, Set::empty());
        lemma_missing_show(tags, tags.len() as int, seen, env);
        lemma_shows_behind(
            missing_lines(tags, tags.len() as int, seen, env),
            fields_shown(fields, 0, def, env),
            fields,
            env,
        );
    }
}

/// The text of a piece of an entry: the line of a field, or a group that stands further in.
pub open spec fn piece_text(piece: Piece, spec: GroupModel, level: usize, env: DecodeEnv) -> Seq<
    char,
>
    decreases piece,
{
    let deep = deeper(level, ENTRY_FIELD_INDENT);
    match piece {
        Piece::Field(field) => decoded_line(field, deep, env),
        Piece::Group(count, entries) => decoded_line(count, deep, env) + entries_text(
            entries,
            1,
            inner(spec, count.0),
            deep,
            env,
        ),
    }
}

/// The text of the pieces of an entry, one after the other.
pub open spec fn run_text(run: Seq<Piece>, spec: GroupModel, level: usize, env: DecodeEnv) -> Seq<
    char,
>
    decreases run,
{
    if run.len() == 0 {
        seq![]
    } else {
        piece_text(run[0], spec, level, env) + run_text(run.skip(1), spec, level, env)
    }
}

/// The text of entries: each under its title, numbered from `number` on.
pub open spec fn entries_text(
    entries: Seq<Seq<Piece>>,
    number: nat,
    spec: GroupModel,
    level: usize,
    env: DecodeEnv,
) -> Seq<char>
    decreases entries,
{
    if entries.len() == 0 {
        seq![]
    } else {
        entry_title(spec.name, number, level, env.colours) + run_text(
            entries[0],
            spec,
            level,
            env,
        ) + entries_text(entries.skip(1), number + 1, spec, level, env)
    }
}

/// The walk through a tidy entry ends where the entry ends and shows its pieces.
proof fn lemma_entry_text(
    fields: Seq<FieldPair>,
    start: int,
    idx: int,
    entry: Seq<Piece>,
    k: int,
    spec: GroupModel,
    membership: Map<u32, u32>,
    level: usize,
    env: DecodeEnv,
    last: int,
)
    requires
        sound(spec),
        tidy_entry(entry, spec),
        0 <= k <= entry.len(),
        0 <= start <= idx,
        idx == start <==> k == 0,
        idx + run_fields(entry.skip(k)).len() <= fields.len(),
        fields.subrange(idx, idx + run_fields(entry.skip(k)).len()) == run_fields(entry.skip(k)),
        forall|j: int|
            k <= j < entry.len() && (#[trigger] entry[j]) is Field ==> last
                <= spec.entry_order.index_of(entry[j].tag()),
        ({
            let e = idx + run_fields(entry.skip(k)).len();
            e == fields.len() || fields[e].0 == spec.delim || closes(spec, fields[e].0)
        }),
    ensures
        ({
            let walk = entry_shown(fields, start, idx, spec, membership, level, env, last);
            walk.next == idx + run_fields(entry.skip(k)).len() && walk.text == run_text(
                entry.skip(k),
                spec,
                level,
                env,
            )
        }),
    decreases spec, 0int, remaining(fields, idx), 0int,
{
    let rest = entry.skip(k);
    if k == entry.len() {
        assert(run_fields(rest).len() == 0);
        assert(run_text(rest, spec, level, env) =~= seq![]);
        if idx < fields.len() {
            let tag = fields[idx].0;
            lemma_group_at(spec.nested, tag);
            assert(!of_entry(spec, tag, idx == start));
        }
    } else {
        let piece = entry[k];
        let deep = deeper(level, ENTRY_FIELD_INDENT);
        let later = entry.skip(k + 1);
        let e = idx + run_fields(rest).len();
        assert(rest[0] == piece);
        assert(rest.skip(1) =~= later);
        assert(run_fields(rest) == piece_fields(piece) + run_fields(later));
        assert(run_text(rest, spec, level, env) == piece_text(piece, spec, level, env) + run_text(
            later,
            spec,
            level,
            env,
        ));
        lemma_piece_head(piece);
        let here = piece_fields(piece).len() as int;
        assert(fields.subrange(idx, e)[0] == piece_fields(piece)[0]);
        assert(fields[idx].0 == piece.tag());
        assert(tidy_piece(piece, spec));
        let tag = piece.tag();
        assert(tag != spec.delim || idx == start) by {
            if k > 0 {
                assert(entry[k].tag() != spec.delim);
            }
        }
        lemma_group_at(spec.nested, tag);
        assert(fields.subrange(idx + here, e) =~= run_fields(later)) by {
            assert(fields.subrange(idx + here, e) =~= fields.subrange(idx, e).skip(here));
            assert(run_fields(rest).skip(here) =~= run_fields(later));
        }
        assert(of_entry(spec, tag, idx == start));
        match piece {
            Piece::Field(field) => {
                let position = spec.entry_order.index_of(tag);
                assert(last <= position);
                assert forall|j: int|
                    k + 1 <= j < entry.len() && (#[trigger] entry[j]) is Field implies position
                    <= spec.entry_order.index_of(entry[j].tag()) by {
                    assert(entry[k] is Field);
                }
                lemma_entry_text(
                    fields,
                    start,
                    idx + 1,
                    entry,
                    k + 1,
                    spec,
                    membership,
                    level,
                    env,
                    position,
                );
                let walk = entry_shown(fields, start, idx, spec, membership, level, env, last);
                assert(fields[idx] == field);
                assert(walk.text =~= run_text(rest, spec, level, env));
            },
            Piece::Group(count, entries) => {
                let at = group_at(spec.nested, tag);
                assert(decreases_to!(spec => spec.nested));
                assert(decreases_to!(spec.nested => spec.nested[at]));
                let nested = spec.nested[at];
                let next = idx + here;
                assert(fields.subrange(idx, next) =~= piece_fields(piece)) by {
                    assert(fields.subrange(idx, next) =~= fields.subrange(idx, e).take(here));
                    assert(run_fields(rest).take(here) =~= piece_fields(piece));
                }
                assert(next == fields.len() || closes(nested, fields[next].0)) by {
                    if next < fields.len() {
                        let follower = fields[next].0;
                        if k + 1 < entry.len() {
                            assert(later[0] == entry[k + 1]);
                            lemma_piece_head(entry[k + 1]);
                            assert(run_fields(later) == piece_fields(entry[k + 1]) + run_fields(
                                later.skip(1),
                            ));
                            assert(fields.subrange(next, e)[0] == piece_fields(entry[k + 1])[0]);
                            assert(follower == entry[k + 1].tag());
                            assert(tidy_piece(entry[k + 1], spec));
                            lemma_group_at(spec.nested, follower);
                            assert(spec.entry_order.contains(follower));
                        } else {
                            assert(run_fields(later).len() == 0);
                            assert(next == e);
                            if follower != spec.delim {
                                assert(closes(spec, follower));
                            }
                        }
                    }
                }
                lemma_group_text(fields, idx, entries, nested, membership, deep, env);
                lemma_entry_text(
                    fields,
                    start,
                    next,
                    entry,
                    k + 1,
                    spec,
                    membership,
                    level,
                    env,
                    last,
                );
            },
        }
    }
}

proof fn lemma_entries_text(
    fields: Seq<FieldPair>,
    idx: int,
    entries: Seq<Seq<Piece>>,
    k: int,
    spec: GroupModel,
    membership: Map<u32, u32>,
    level: usize,
    env: DecodeEnv,
    count: nat,
)
    requires
        sound(spec),
        tidy_entries(entries, spec),
        0 <= k <= entries.len() <= count,
        0 <= idx,
        idx + entries_fields(entries.skip(k)).len() <= fields.len(),
        fields.subrange(idx, idx + entries_fields(entries.skip(k)).len()) == entries_fields(
            entries.skip(k),
        ),
        ({
            let e = idx + entries_fields(entries.skip(k)).len();
            e == fields.len() || (closes(spec, fields[e].0) && (count > entries.len() ==> !(
            membership.contains_key(fields[e].0) && membership[fields[e].0] == spec.count_tag)))
        }),
    ensures
        ({
            let walk = entries_shown(fields, idx, spec, membership, level, env, count, k as nat);
            &&& walk.next == idx + entries_fields(entries.skip(k)).len()
            &&& walk.entries == entries.len()
            &&& walk.text == entries_text(entries.skip(k), (k + 1) as nat, spec, level, env)
        }),
    decreases spec, 1int, count - k, remaining(fields, idx),
{
    let rest = entries.skip(k);
    if k == entries.len() {
        assert(entries_fields(rest).len() == 0);
        assert(entries_text(rest, (k + 1) as nat, spec, level, env) =~= seq![]);
    } else {
        let entry = entries[k];
        let later = entries.skip(k + 1);
        let e = idx + entries_fields(rest).len();
        let here = run_fields(entry).len() as int;
        assert(rest[0] == entry);
        assert(rest.skip(1) =~= later);
        assert(entries_fields(rest) == run_fields(entry) + entries_fields(later));
        assert(tidy_entry(entry, spec));
        lemma_piece_head(entry[0]);
        assert(run_fields(entry) == piece_fields(entry[0]) + run_fields(entry.skip(1)));
        assert(fields.subrange(idx, e)[0] == piece_fields(entry[0])[0]);
        assert(fields[idx].0 == spec.delim);
        assert(entry.skip(0) =~= entry);
        assert(fields.subrange(idx, idx + here) =~= run_fields(entry)) by {
            assert(fields.subrange(idx, idx + here) =~= fields.subrange(idx, e).take(here));
            assert(entries_fields(rest).take(here) =~= run_fields(entry));
        }
        assert(fields.subrange(idx + here, e) =~= entries_fields(later)) by {
            assert(fields.subrange(idx + here, e) =~= fields.subrange(idx, e).skip(here));
            assert(entries_fields(rest).skip(here) =~= entries_fields(later));
        }
        let next = idx + here;
        assert(next == fields.len() || fields[next].0 == spec.delim || closes(
            spec,
            fields[next].0,
        )) by {
            if k + 1 < entries.len() {
                let follower = entries[k + 1];
                assert(later[0] == follower);
                assert(tidy_entry(follower, spec));
                lemma_piece_head(follower[0]);
                assert(run_fields(follower) == piece_fields(follower[0]) + run_fields(
                    follower.skip(1),
                ));
                assert(entries_fields(later) == run_fields(follower) + entries_fields(
                    later.skip(1),
                ));
                assert(fields.subrange(next, e)[0] == piece_fields(follower[0])[0]);
            } else {
                assert(entries_fields(later).len() == 0);
            }
        }
        assert forall|j: int| 0 <= j < entry.len() && (#[trigger] entry[j]) is Field implies -1
            <= spec.entry_order.index_of(entry[j].tag()) by {
            assert(tidy_piece(entry[j], spec));
        }
        lemma_entry_text(fields, idx, idx, entry, 0, spec, membership, level, env, -1);
        lemma_entries_text(fields, next, entries, k + 1, spec, membership, level, env, count);
        let walk = entries_shown(fields, idx, spec, membership, level, env, count, k as nat);
        assert(walk.text =~= entries_text(rest, (k + 1) as nat, spec, level, env));
    }
}

proof fn lemma_group_text(
    fields: Seq<FieldPair>,
    start: int,
    entries: Seq<Seq<Piece>>,
    spec: GroupModel,
    membership: Map<u32, u32>,
    level: usize,
    env: DecodeEnv,
)
    requires
        sound(spec),
        tidy_entries(entries, spec),
        0 <= start < fields.len(),
        counts(fields[start].1, entries.len()),
        start + 1 + entries_fields(entries).len() <= fields.len(),
        fields.subrange(start, start + 1 + entries_fields(entries).len()) == seq![fields[start]]
            + entries_fields(entries),
        ({
            let e = start + 1 + entries_fields(entries).len();
            e == fields.len() || closes(spec, fields[e].0)
        }),
    ensures
        ({
            let walk = group_shown(fields, start, spec, membership, level, env);
            &&& walk.next == start + 1 + entries_fields(entries).len()
            &&& walk.text == decoded_line(fields[start], level, env) + entries_text(
                entries,
                1,
                spec,
                level,
                env,
            )
        }),
    decreases spec, 2int, 0int, 0int,
{
    let n = entries_fields(entries).len() as int;
    let whole = fields.subrange(start, start + 1 + n);
    lemma_count(fields[start].1, entries.len());
    assert(entries.skip(0) =~= entries);
    assert(fields.subrange(start + 1, start + 1 + n) =~= whole.skip(1));
    assert((seq![fields[start]] + entries_fields(entries)).skip(1) =~= entries_fields(entries));
    lemma_entries_text(
        fields,
        start + 1,
        entries,
        0,
        spec,
        membership,
        level,
        env,
        entries.len(),
    );
    let walk = group_shown(fields, start, spec, membership, level, env);
    assert(walk.text =~= decoded_line(fields[start], level, env) + entries_text(
        entries,
        1,
        spec,
        level,
        env,
    ));
}

/// A group is shown entry by entry: the line of its count field, then every entry under its
/// title, numbered from one on, with its fields further in, and the groups inside an entry
/// likewise at their place. Nothing else is shown of a group that has the entries that are
/// announced.
pub proof fn law_groups_are_shown_entry_by_entry(
    fields: Seq<FieldPair>,
    start: int,
    entries: Seq<Seq<Piece>>,
    spec: GroupModel,
    membership: Map<u32, u32>,
    level: usize,
    env: DecodeEnv,
)
    requires
        sound(spec),
        tidy_entries(entries, spec),
        0 <= start < fields.len(),
        counts(fields[start].1, entries.len()),
        start + 1 + entries_fields(entries).len() <= fields.len(),
        fields.subrange(start, start + 1 + entries_fields(entries).len()) == seq![fields[start]]
            + entries_fields(entries),
        ({
            let e = start + 1 + entries_fields(entries).len();
            e == fields.len() || closes(spec, fields[e].0)
        }),
    ensures
        group_shown(fields, start, spec, membership, level, env).text == decoded_line(
            fields[start],
            level,
            env,
        ) + entries_text(entries, 1, spec, level, env),
{
    lemma_group_text(fields, start, entries, spec, membership, level, env);
}

/// The palette of output without colours.
pub open spec fn is_colourless(c: ColourPalette) -> bool {
    &&& c.reset@.len() == 0
    &&& c.tag@.len() == 0
    &&& c.name@.len() == 0
    &&& c.value@.len() == 0
    &&& c.enumeration@.len() == 0
    &&& c.error@.len() == 0
}

/// What stands behind a value: its description, if the dictionary has one.
pub open spec fn description(field: FieldPair, env: DecodeEnv) -> Seq<char> {
    match env.dict.enum_description(field.0, field.1) {
        Some(text) => seq![' ', '('] + text + seq![')'],
        None => seq![],
    }
}

/// The line of a field shows its tag in four columns, its name, its value, the description of
/// the value and the errors under its tag. So it stands there without colours; with colours
/// the same parts stand in the same order.
pub proof fn law_lines_show_their_fields(
    field: FieldPair,
    level: usize,
    env: DecodeEnv,
    tag: Seq<char>,
)
    requires
        field.0 > 0,
        tag == digits(field.0 as nat),
    ensures
        is_colourless(env.colours) && (env.notes matches Some(notes) ==> !notes.contains_key(
            field.0,
        )) ==> decoded_line(field, level, env) == Seq::new(level as nat, |i: int| ' ') + Seq::new(
            if tag.len() < 4 {
                (4 - tag.len()) as nat
            } else {
                0
            },
            |i: int| ' ',
        ) + tag + seq![' ', '('] + env.dict.field_name(field.0) + seq![')', ':', ' '] + field.1
            + description(field, env) + seq!['\n'],
        exists|a: Seq<char>, b: Seq<char>, c: Seq<char>, d: Seq<char>|
            #[trigger] in_order(
                decoded_line(field, level, env),
                tag,
                env.dict.field_name(field.0),
                field.1,
                a,
                b,
                c,
                d,
            ) && (env.dict.enum_description(field.0, field.1) matches Some(text) ==> stands_in(
                text,
                d,
            )),
        env.notes matches Some(notes) && notes.contains_key(field.0) ==> stands_in(
            join(env.notes->0[field.0], seq![',', ' ']),
            decoded_line(field, level, env),
        ),
{
    reveal_strlit(", ");
    assert(", "@ =~= seq![',', ' ']);
    let line = decoded_line(field, level, env);
    let name = env.dict.field_name(field.0);
    let before = line_start(field, level, env, tag);
    let middle = name_start(field, env);
    let gap = value_start(env);
    let after = line_end(field, env);
    lemma_line_parts(field, level, env, tag);
    assert(in_order(line, tag, name, field.1, before, middle, gap, after));
    let head = before + tag + middle + name + gap + field.1;
    if let Some(text) = env.dict.enum_description(field.0, field.1) {
        lemma_line_end(field, env);
    }
    if let Some(list) = notes_for(env.notes, field.0) {
        lemma_line_end(field, env);
        let part = join(list, ", "@);
        let i = choose|i: int|
            0 <= i <= after.len() - part.len() && #[trigger] after.subrange(i, i + part.len())
                == part;
        assert(line =~= head + after);
        assert(line.subrange(head.len() + i, head.len() + i + part.len()) =~= after.subrange(
            i,
            i + part.len(),
        ));
    }
    if is_colourless(env.colours) && notes_for(env.notes, field.0) is None {
        lemma_colourless(field, level, env, tag);
    }
}

/// What stands ahead of the tag in the line of a field.
spec fn line_start(field: FieldPair, level: usize, env: DecodeEnv, tag: Seq<char>) -> Seq<char> {
    repeated(' ', level as nat) + (if notes_for(env.notes, field.0) is Some {
        env.colours.error@
    } else {
        env.colours.tag@
    }) + repeated(
        ' ',
        if tag.len() < 4 {
            (4 - tag.len()) as nat
        } else {
            0
        },
    )
}

/// What stands between the tag and the name.
spec fn name_start(field: FieldPair, env: DecodeEnv) -> Seq<char> {
    env.colours.reset@ + " "@ + env.colours.name@ + "("@ + (if is_unnamed(
        env.dict.field_name(field.0),
        field.0,
    ) {
        env.colours.error@
    } else {
        env.colours.name@
    })
}

/// What stands between the name and the value.
spec fn value_start(env: DecodeEnv) -> Seq<char> {
    let c = env.colours;
    c.reset@ + ")"@ + c.reset@ + ": "@ + c.value@
}

/// The description behind a value, with its colours.
spec fn described(field: FieldPair, env: DecodeEnv) -> Seq<char> {
    match env.dict.enum_description(field.0, field.1) {
        Some(text) => " ("@ + env.colours.enumeration@ + text + env.colours.reset@ + ")"@,
        None => seq![],
    }
}

/// The errors at the end of a line, with their colours.
spec fn remarks(field: FieldPair, env: DecodeEnv) -> Seq<char> {
    match notes_for(env.notes, field.0) {
        Some(list) => "  "@ + env.colours.error@ + join(list, ", "@) + env.colours.reset@,
        None => seq![],
    }
}

/// What stands behind the value.
spec fn line_end(field: FieldPair, env: DecodeEnv) -> Seq<char> {
    env.colours.reset@ + described(field, env) + remarks(field, env) + "\n"@
}

#[verifier::rlimit(60)]
proof fn lemma_line_parts(field: FieldPair, level: usize, env: DecodeEnv, tag: Seq<char>)
    requires
        field.0 > 0,
        tag == digits(field.0 as nat),
    ensures
        decoded_line(field, level, env) == line_start(field, level, env, tag) + tag + name_start(
            field,
            env,
        ) + env.dict.field_name(field.0) + value_start(env) + field.1 + line_end(field, env),
{
    law_numbers_are_written(field.0 as nat);
    let c = env.colours;
    let name = env.dict.field_name(field.0);
    let errs = notes_for(env.notes, field.0);
    let lead = repeated(' ', level as nat) + (if errs is Some {
        c.error@
    } else {
        c.tag@
    }) + right_aligned(tag, 4, ' ');
    assert(lead =~= line_start(field, level, env, tag) + tag);
    let named = if is_unnamed(name, field.0) {
        c.error@
    } else {
        c.name@
    };
    let a = lead + c.reset@ + " "@ + c.name@ + "("@ + named;
    assert(a =~= lead + name_start(field, env));
    let b = a + name + c.reset@ + ")"@ + c.reset@ + ": "@ + c.value@;
    assert(b =~= a + name + value_start(env));
    let head = b + field.1 + c.reset@;
    let end = line_end(field, env);
    let text = match env.dict.enum_description(field.0, field.1) {
        Some(text) => head + " ("@ + c.enumeration@ + text + c.reset@ + ")"@,
        None => head,
    };
    assert(text =~= head + described(field, env));
    let noted = match errs {
        Some(list) => text + "  "@ + c.error@ + join(list, ", "@) + c.reset@,
        None => text,
    };
    assert(noted =~= text + remarks(field, env));
    assert(decoded_line(field, level, env) == noted + "\n"@);
    assert(noted + "\n"@ =~= b + field.1 + end);
}

#[verifier::rlimit(30)]
proof fn lemma_line_end(field: FieldPair, env: DecodeEnv)
    ensures
        env.dict.enum_description(field.0, field.1) matches Some(text) ==> stands_in(
            text,
            line_end(field, env),
        ),
        notes_for(env.notes, field.0) matches Some(list) ==> stands_in(
            join(list, ", "@),
            line_end(field, env),
        ),
{
    let c = env.colours;
    let end = line_end(field, env);
    if let Some(text) = env.dict.enum_description(field.0, field.1) {
        let e = c.reset@ + " ("@ + c.enumeration@;
        let f = c.reset@ + ")"@ + remarks(field, env) + "\n"@;
        assert(end =~= e + text + f);
        assert(end.subrange(e.len() as int, e.len() as int + text.len()) =~= text);
    }
    if let Some(list) = notes_for(env.notes, field.0) {
        let part = join(list, ", "@);
        let e = c.reset@ + described(field, env) + "  "@ + c.error@;
        let f = c.reset@ + "\n"@;
        assert(end =~= e + part + f);
        assert(end.subrange(e.len() as int, e.len() as int + part.len()) =~= part);
    }
}

#[verifier::rlimit(60)]
proof fn lemma_colourless(field: FieldPair, level: usize, env: DecodeEnv, tag: Seq<char>)
    requires
        field.0 > 0,
        tag == digits(field.0 as nat),
        is_colourless(env.colours),
        notes_for(env.notes, field.0) is None,
    ensures
        decoded_line(field, level, env) == Seq::new(level as nat, |i: int| ' ') + Seq::new(
            if tag.len() < 4 {
                (4 - tag.len()) as nat
            } else {
                0
            },
            |i: int| ' ',
        ) + tag + seq![' ', '('] + env.dict.field_name(field.0) + seq![')', ':', ' '] + field.1
            + description(field, env) + seq!['\n'],
{
    reveal_strlit(" ");
    reveal_strlit("(");
    reveal_strlit(")");
    reveal_strlit(": ");
    reveal_strlit(" (");
    reveal_strlit("\n");
    let name = env.dict.field_name(field.0);
    lemma_line_parts(field, level, env, tag);
    assert(name_start(field, env) =~= seq![' ', '(']);
    assert(value_start(env) =~= seq![')', ':', ' ']);
    assert(described(field, env) =~= description(field, env));
    assert(remarks(field, env) =~= seq![]);
    assert(line_end(field, env) =~= description(field, env) + seq!['\n']);
    let start = Seq::new(level as nat, |i: int| ' ') + Seq::new(
        if tag.len() < 4 {
            (4 - tag.len()) as nat
        } else {
            0
        },
        |i: int| ' ',
    );
    assert(line_start(field, level, env, tag) =~= start);
    let head = start + tag + seq![' ', '('] + name + seq![')', ':', ' '] + field.1;
    assert(head + (description(field, env) + seq!['\n']) =~= head + description(field, env)
        + seq!['\n']);
}

/// A part stands somewhere in a text.
pub open spec fn stands_in(part: Seq<char>, text: Seq<char>) -> bool {
    exists|i: int|
        0 <= i <= text.len() - part.len() && #[trigger] text.subrange(i, i + part.len()) == part
}

/// The three parts stand in a text, in this order.
pub open spec fn in_order(
    text: Seq<char>,
    x: Seq<char>,
    y: Seq<char>,
    z: Seq<char>,
    a: Seq<char>,
    b: Seq<char>,
    c: Seq<char>,
    d: Seq<char>,
) -> bool {
    text == a + x + b + y + c + z + d
}

/// A message as its pieces are shown: fields line by line, groups entry by entry.
pub open spec fn pieces_text(run: Seq<Piece>, def: MessageModel, env: DecodeEnv) -> Seq<char>
    decreases run.len(),
{
    if run.len() == 0 {
        seq![]
    } else {
        (match run[0] {
            Piece::Field(field) => decoded_line(field, BASE_INDENT, env),
            Piece::Group(count, entries) => decoded_line(count, BASE_INDENT, env) + entries_text(
                entries,
                1,
                def.groups[group_at(def.groups, count.0)],
                BASE_INDENT,
                env,
            ),
        }) + pieces_text(run.skip(1), def, env)
    }
}

/// A piece of a message as it can be shown: a field that counts no group, or a group of the
/// layout with the entries that it announces.
pub open spec fn showable(piece: Piece, def: MessageModel) -> bool {
    match piece {
        Piece::Field(field) => !has_group(def.groups, field.0),
        Piece::Group(count, entries) => has_group(def.groups, count.0) && counts(
            count.1,
            entries.len(),
        ) && sound(def.groups[group_at(def.groups, count.0)]) && tidy_entries(
            entries,
            def.groups[group_at(def.groups, count.0)],
        ),
    }
}

proof fn lemma_pieces_text(
    fields: Seq<FieldPair>,
    idx: int,
    run: Seq<Piece>,
    k: int,
    def: MessageModel,
    env: DecodeEnv,
)
    requires
        0 <= k <= run.len(),
        0 <= idx <= fields.len(),
        fields.subrange(idx, fields.len() as int) == run_fields(run.skip(k)),
        forall|i: int| 0 <= i < run.len() ==> showable(#[trigger] run[i], def),
        forall|i: int, j: int|
            0 <= i && j == i + 1 && j < run.len() && (#[trigger] run[i]) is Group ==> closes(
                def.groups[group_at(def.groups, run[i].tag())],
                (#[trigger] run[j]).tag(),
            ),
    ensures
        fields_shown(fields, idx, Some(def), env) == pieces_text(run.skip(k), def, env),
    decreases remaining(fields, idx),
{
    let n = fields.len() as int;
    let rest = run.skip(k);
    if k == run.len() {
        assert(run_fields(rest).len() == 0);
        assert(fields.subrange(idx, n).len() == 0);
        assert(pieces_text(rest, def, env) =~= seq![]);
    } else {
        let piece = run[k];
        let later = run.skip(k + 1);
        assert(rest[0] == piece);
        assert(rest.skip(1) =~= later);
        assert(run_fields(rest) == piece_fields(piece) + run_fields(later));
        lemma_piece_head(piece);
        let here = piece_fields(piece).len() as int;
        let whole = fields.subrange(idx, n);
        assert(whole[0] == piece_fields(piece)[0]);
        let tag = piece.tag();
        assert(fields[idx].0 == tag);
        assert(showable(piece, def));
        lemma_group_at(def.groups, tag);
        assert(fields.subrange(idx + here, n) =~= run_fields(later)) by {
            assert(fields.subrange(idx + here, n) =~= whole.skip(here));
            assert(run_fields(rest).skip(here) =~= run_fields(later));
        }
        match piece {
            Piece::Field(_) => {
                lemma_pieces_text(fields, idx + 1, run, k + 1, def, env);
            },
            Piece::Group(count, entries) => {
                let spec = def.groups[group_at(def.groups, tag)];
                let next = idx + here;
                assert(fields.subrange(idx, next) =~= piece_fields(piece)) by {
                    assert(fields.subrange(idx, next) =~= whole.take(here));
                    assert(run_fields(rest).take(here) =~= piece_fields(piece));
                }
                assert(fields[idx] == count);
                assert(next == n || closes(spec, fields[next].0)) by {
                    if k + 1 < run.len() {
                        assert(later[0] == run[k + 1]);
                        lemma_piece_head(run[k + 1]);
                        assert(run_fields(later) == piece_fields(run[k + 1]) + run_fields(
                            later.skip(1),
                        ));
                        assert(fields.subrange(next, n)[0] == piece_fields(run[k + 1])[0]);
                        assert(run[k] is Group);
                    } else {
                        assert(run_fields(later).len() == 0);
                    }
                }
                lemma_group_text(fields, idx, entries, spec, def.membership, BASE_INDENT, env);
                lemma_pieces_text(fields, next, run, k + 1, def, env);
            },
        }
    }
}

/// A message whose layout is known is shown piece by piece: each field that counts no group on
/// its line, and each group entry by entry at its place.
pub proof fn law_messages_are_shown_piece_by_piece(
    msg: Seq<char>,
    env: DecodeEnv,
    i: int,
    run: Seq<Piece>,
    def: MessageModel,
)
    requires
        env.notes is None,
        run_fields(run) == fields_of(msg),
        0 <= i < fields_of(msg).len(),
        fields_of(msg)[i].0 == 35,
        forall|j: int| 0 <= j < i ==> (#[trigger] fields_of(msg)[j]).0 != 35,
        env.dict.message_def(fields_of(msg)[i].1) == Some(def),
        forall|k: int| 0 <= k < run.len() ==> showable(#[trigger] run[k], def),
        forall|k: int, j: int|
            0 <= k && j == k + 1 && j < run.len() && (#[trigger] run[k]) is Group ==> closes(
                def.groups[group_at(def.groups, run[k].tag())],
                (#[trigger] run[j]).tag(),
            ),
    ensures
        prettified(msg, env) == pieces_text(run, def, env),
{
    let fields = fields_of(msg);
    lemma_first_value(fields, 0, i, 35);
    assert(run.skip(0) =~= run);
    assert(fields.subrange(0, fields.len() as int) =~= fields);
    lemma_pieces_text(fields, 0, run, 0, def, env);
}

proof fn lemma_first_value(fields: Seq<FieldPair>, from: int, i: int, tag: u32)
    requires
        0 <= from <= i < fields.len(),
        fields[i].0 == tag,
        forall|j: int| from <= j < i ==> (#[trigger] fields[j]).0 != tag,
    ensures
        first_value(fields, from, tag) == Some(fields[i].1),
    decreases i - from,
{
    if from < i {
        assert(fields[from].0 != tag);
        lemma_first_value(fields, from + 1, i, tag);
    }
}

proof fn lemma_tags_passed(
    fields: Seq<FieldPair>,
    idx: int,
    def: Option<MessageModel>,
    env: DecodeEnv,
    seen: Set<u32>,
    tag: u32,
)
    requires
        0 <= idx <= fields.len(),
        !seen.contains(tag),
        forall|i: int| 0 <= i < fields.len() ==> (#[trigger] fields[i]).0 != tag,
    ensures
        !tags_passed(fields, idx, def, env, seen).contains(tag),
    decreases remaining(fields, idx),
{
    if idx < fields.len() {
        let here = fields[idx].0;
        lemma_tags_passed(fields, idx + 1, def, env, seen.insert(here), tag);
        if let Some(model) = def {
            if has_group(model.groups, here) {
                let spec = model.groups[group_at(model.groups, here)];
                let walk = group_shown(fields, idx, spec, model.membership, BASE_INDENT, env);
                lemma_group_shows(fields, idx, spec, model.membership, BASE_INDENT, env);
                lemma_tags_passed(fields, walk.next, def, env, seen.insert(here), tag);
            }
        }
    }
}

proof fn lemma_missing_listed(tags: Seq<u32>, n: int, i: int, seen: Set<u32>, env: DecodeEnv)
    requires
        0 <= i < n <= tags.len(),
        !seen.contains(tags[i]),
    ensures
        stands_in(noted_line(tags[i], env), missing_lines(tags, n, seen, env)),
    decreases n,
{
    let line = noted_line(tags[i], env);
    let before = missing_lines(tags, n - 1, seen, env);
    let all = missing_lines(tags, n, seen, env);
    if i == n - 1 {
        let at = before.len() as int;
        assert(all.subrange(at, at + line.len()) =~= line);
    } else {
        lemma_missing_listed(tags, n - 1, i, seen, env);
        let at = choose|at: int|
            0 <= at <= before.len() - line.len() && #[trigger] before.subrange(at, at + line.len())
                == line;
        assert(all.subrange(at, at + line.len()) =~= before.subrange(at, at + line.len()));
    }
}

/// The members of a set below `n`, in ascending order.
spec fn members_below(numbers: Set<u32>, n: nat) -> Seq<u32>
    decreases n,
{
    if n == 0 {
        seq![]
    } else if n <= u32::MAX + 1 && numbers.contains((n - 1) as u32) {
        members_below(numbers, (n - 1) as nat).push((n - 1) as u32)
    } else {
        members_below(numbers, (n - 1) as nat)
    }
}

proof fn lemma_members_below(numbers: Set<u32>, n: nat)
    requires
        n <= u32::MAX + 1,
    ensures
        increasing(members_below(numbers, n)),
        forall|x: u32| #[trigger]
            members_below(numbers, n).contains(x) <==> numbers.contains(x) && x < n,
    decreases n,
{
    let all = members_below(numbers, n);
    if n > 0 {
        let before = members_below(numbers, (n - 1) as nat);
        let last = (n - 1) as u32;
        lemma_members_below(numbers, (n - 1) as nat);
        assert forall|i: int| 0 <= i < before.len() implies (#[trigger] before[i]) < n - 1 by {
            assert(before.contains(before[i]));
        }
        assert forall|x: u32| #[trigger] all.contains(x) == (numbers.contains(x) && x < n) by {
            if all.contains(x) {
                let i = all.index_of(x);
                if i < before.len() {
                    assert(before[i] == x);
                    assert(before.contains(x));
                }
            }
            if before.contains(x) {
                let i = before.index_of(x);
                assert(all[i] == x);
            }
            if x == last && numbers.contains(x) {
                assert(all[before.len() as int] == x);
            }
        }
    }
}

proof fn lemma_ascending_numbers(numbers: Set<u32>)
    ensures
        ascending_numbers(numbers).to_set() == numbers,
{
    let n = (u32::MAX + 1) as nat;
    let s = members_below(numbers, n);
    lemma_members_below(numbers, n);
    assert forall|x: u32| s.to_set().contains(x) == numbers.contains(x) by {
        assert(s.contains(x) == numbers.contains(x));
    }
    assert(s.to_set() =~= numbers);
}

/// A tag with errors that the message does not have is listed behind the fields, with its name
/// and its errors.
pub proof fn law_missing_tags_are_listed(msg: Seq<char>, env: DecodeEnv, notes: Notes, tag: u32)
    requires
        env.notes == Some(notes),
        notes.contains_key(tag),
        notes[tag].len() > 0,
        forall|i: int| 0 <= i < fields_of(msg).len() ==> (#[trigger] fields_of(msg)[i]).0 != tag,
    ensures
        stands_in(missing_line(tag, notes[tag], env.dict, env.colours), prettified(msg, env)),
{
    let fields = fields_of(msg);
    let def = match first_value(fields, 0, 35) {
        Some(msg_type) => env.dict.message_def(msg_type),
        None => None,
    };
    let tags = ascending_numbers(notes.dom());
    let seen = tags_passed(fields, 0, def, env, Set::empty());
    lemma_tags_passed(fields, 0, def, env, Set::empty(), tag);
    lemma_ascending_numbers(notes.dom());
    assert(tags.to_set().contains(tag));
    let i = tags.index_of(tag);
    let line = missing_line(tag, notes[tag], env.dict, env.colours);
    assert(noted_line(tag, env) == line);
    lemma_missing_listed(tags, tags.len() as int, i, seen, env);
    let shown = fields_shown(fields, 0, def, env);
    let listed = missing_lines(tags, tags.len() as int, seen, env);
    let at = choose|at: int|
        0 <= at <= listed.len() - line.len() && #[trigger] listed.subrange(at, at + line.len())
            == line;
    let all = prettified(msg, env);
    assert(all =~= shown + listed);
    assert(all.subrange(shown.len() + at, shown.len() + at + line.len()) =~= listed.subrange(
        at,
        at + line.len(),
    ));
}

} // verus!
