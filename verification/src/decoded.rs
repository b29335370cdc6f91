//! A message, field by field: tags with names, values, descriptions and errors, repeating
//! groups entry by entry.
use crate::ansi::{capped, plus};
use crate::colours::{ColourPalette, BASE_INDENT, ENTRY_FIELD_INDENT, NAME_TEXT_OFFSET};
use crate::display::{deeper, indent, less};
use crate::fixparser::{field_pairs, fields_of, parse_fix, FieldPair, FieldValue};
use crate::groups::{find_group, group_at, has_group, lemma_group_at, GroupModel, GroupSpec};
use crate::report::{text_lists, ValidationReport};
use crate::sorting::{ascending_numbers, ordered_keys};
use crate::tag_lookup::{FixTagLookup, LookupModel, MessageDef, MessageModel};
use crate::text::{
    copy_of, decimal, decimal_text, join, join_texts, parse_u32, parsed_unsigned, push_decimal,
    push_repeated, push_right_aligned, repeated, right_aligned, stripped, strip_prefix, texts,
};
use crate::validator::{ahead, announced, belongs_to_entry, is_member, of_entry, parse_count, remaining};
use std::collections::{HashMap, HashSet};
use vstd::prelude::*;
use vstd::utf8::encode_utf8;

verus! {

broadcast use {vstd::std_specs::hash::group_hash_axioms, vstd::seq_lib::group_seq_properties};

/// The errors of a message by tag.
pub type Notes = Map<u32, Seq<Seq<char>>>;

/// What a message is shown with: dictionary, errors and colours.
pub struct DecodeEnv {
    pub dict: LookupModel,
    pub notes: Option<Notes>,
    pub colours: ColourPalette,
}

/// The errors under a tag, if any are listed.
pub open spec fn notes_for(notes: Option<Notes>, tag: u32) -> Option<Seq<Seq<char>>> {
    match notes {
        Some(map) => if map.contains_key(tag) {
            Some(map[tag])
        } else {
            None
        },
        None => None,
    }
}

pub open spec fn notes_of(annotations: Option<&HashMap<u32, Vec<String>>>) -> Option<Notes> {
    match annotations {
        Some(map) => Some(text_lists(map@)),
        None => None,
    }
}

fn find_notes<'a>(annotations: Option<&'a HashMap<u32, Vec<String>>>, tag: u32) -> (errs: Option<
    &'a Vec<String>,
>)
    ensures
        (match errs {
            Some(list) => Some(texts(list@)),
            None => None,
        }) == notes_for(notes_of(annotations), tag),
{
    match annotations {
        Some(map) => map.get(&tag),
        None => None,
    }
}

/// A name that is only the number of its tag.
pub open spec fn is_unnamed(name: Seq<char>, tag: u32) -> bool {
    parsed_unsigned(name, u32::MAX as nat) == Some(tag as nat)
}

/// The line of a field.
pub open spec fn decoded_line(field: FieldPair, level: usize, env: DecodeEnv) -> Seq<char> {
    let c = env.colours;
    let errs = notes_for(env.notes, field.0);
    let name = env.dict.field_name(field.0);
    let head = repeated(' ', level as nat) + (if errs is Some {
        c.error@
    } else {
        c.tag@
    }) + right_aligned(decimal(field.0 as nat), 4, ' ') + c.reset@ + " "@ + c.name@ + "("@ + (
    if is_unnamed(name, field.0) {
        c.error@
    } else {
        c.name@
    }) + name + c.reset@ + ")"@ + c.reset@ + ": "@ + c.value@ + field.1 + c.reset@;
    let described = match env.dict.enum_description(field.0, field.1) {
        Some(text) => head + " ("@ + c.enumeration@ + text + c.reset@ + ")"@,
        None => head,
    };
    let noted = match errs {
        Some(list) => described + "  "@ + c.error@ + join(list, ", "@) + c.reset@,
        None => described,
    };
    noted + "\n"@
}

/// The line of a field, with the description of its value and its errors.
pub fn write_field_line(
    output: &mut String,
    dict: &FixTagLookup,
    field: &FieldValue,
    annotations: Option<&HashMap<u32, Vec<String>>>,
    colours: &ColourPalette,
    indent_spaces: usize,
)
    ensures
        final(output)@ == old(output)@ + decoded_line(
            field@,
            indent_spaces,
            (DecodeEnv {
                dict: dict.model(),
                notes: notes_of(annotations),
                colours: *colours,
            }),
        ),
{
    let errs = find_notes(annotations, field.tag);
    let name = dict.field_name(field.tag);
    let unnamed: bool = match parse_u32(name.as_str()) {
        Some(number) => number == field.tag,
        None => false,
    };
    let mut line = indent(indent_spaces);
    line.append(
        if errs.is_some() {
            colours.error
        } else {
            colours.tag
        },
    );
    push_right_aligned(&mut line, decimal_text(field.tag as u64).as_str(), 4, ' ');
    line.append(colours.reset);
    line.append(" ");
    line.append(colours.name);
    line.append("(");
    line.append(
        if unnamed {
            colours.error
        } else {
            colours.name
        },
    );
    line.append(name.as_str());
    line.append(colours.reset);
    line.append(")");
    line.append(colours.reset);
    line.append(": ");
    line.append(colours.value);
    line.append(field.value.as_str());
    line.append(colours.reset);
    if let Some(description) = dict.enum_description(field.tag, field.value.as_str()) {
        line.append(" (");
        line.append(colours.enumeration);
        line.append(description);
        line.append(colours.reset);
        line.append(")");
    }
    if let Some(list) = errs {
        line.append("  ");
        line.append(colours.error);
        line.append(join_texts(list, ", ").as_str());
        line.append(colours.reset);
    }
    line.append("\n");
    output.append(line.as_str());
}

/// The line of a tag that is missing or out of place.
pub open spec fn missing_line(
    tag: u32,
    errs: Seq<Seq<char>>,
    dict: LookupModel,
    c: ColourPalette,
) -> Seq<char> {
    repeated(' ', BASE_INDENT as nat) + c.error@ + right_aligned(decimal(tag as nat), 4, ' ')
        + c.reset@ + " ("@ + c.name@ + dict.field_name(tag) + c.reset@ + "): "@ + c.error@ + (
    if errs.len() == 0 {
        "Missing"@
    } else {
        join(errs, ", "@)
    }) + c.reset@ + "\n"@
}

/// The line of a tag that is missing or out of place, with its errors.
pub fn write_missing_line(
    output: &mut String,
    dict: &FixTagLookup,
    tag: u32,
    errors: &Vec<String>,
    colours: &ColourPalette,
)
    ensures
        final(output)@ == old(output)@ + missing_line(
            tag,
            texts(errors@),
            dict.model(),
            *colours,
        ),
{
    let mut line = indent(BASE_INDENT);
    line.append(colours.error);
    push_right_aligned(&mut line, decimal_text(tag as u64).as_str(), 4, ' ');
    line.append(colours.reset);
    line.append(" (");
    line.append(colours.name);
    line.append(dict.field_name(tag).as_str());
    line.append(colours.reset);
    line.append("): ");
    line.append(colours.error);
    if errors.len() == 0 {
        line.append("Missing");
    } else {
        line.append(join_texts(errors, ", ").as_str());
    }
    line.append(colours.reset);
    line.append("\n");
    output.append(line.as_str());
}

/// The name of a group as it is shown: without `No` in front of a name.
pub open spec fn shown_group_name(name: Seq<char>) -> Seq<char> {
    match stripped(name, "No"@) {
        Some(rest) => if rest.len() > 0 && 'A' <= rest[0] <= 'Z' {
            rest
        } else {
            name
        },
        None => name,
    }
}

fn display_group_name(spec: &GroupSpec) -> (name: String)
    ensures
        name@ == shown_group_name(spec.name@),
{
    match strip_prefix(spec.name.as_str(), "No") {
        Some(rest) => if rest.as_str().unicode_len() > 0 && 'A' <= rest.as_str().get_char(0)
            && rest.as_str().get_char(0) <= 'Z' {
            rest
        } else {
            copy_of(spec.name.as_str())
        },
        None => copy_of(spec.name.as_str()),
    }
}

/// The column that the rule behind an entry's title reaches.
pub const GROUP_SEPARATOR_END_COL: usize = 68;

pub const MIN_GROUP_SEPARATOR_DASHES: usize = 8;

/// The title of a group's entry, with a rule behind it.
pub open spec fn entry_title(name: Seq<char>, number: nat, level: usize, c: ColourPalette) -> Seq<
    char,
> {
    let label = shown_group_name(name) + " Group "@ + decimal(number);
    let start = deeper(level, NAME_TEXT_OFFSET);
    let room = less(
        GROUP_SEPARATOR_END_COL as int,
        capped(capped(start + encode_utf8(label).len()) + 1),
    );
    let dashes = if room < MIN_GROUP_SEPARATOR_DASHES {
        MIN_GROUP_SEPARATOR_DASHES as nat
    } else {
        room as nat
    };
    repeated(' ', start as nat) + label + " "@ + c.error@ + repeated('-', dashes) + c.reset@
        + "\n"@
}

fn write_entry_title(
    output: &mut String,
    spec: &GroupSpec,
    number: usize,
    indent_spaces: usize,
    colours: &ColourPalette,
)
    ensures
        final(output)@ == old(output)@ + entry_title(
            spec.name@,
            number as nat,
            indent_spaces,
            *colours,
        ),
{
    let mut label = display_group_name(spec);
    label.append(" Group ");
    push_decimal(&mut label, number as u64);
    let start: usize = plus(indent_spaces, NAME_TEXT_OFFSET);
    let taken: usize = plus(plus(start, label.as_str().as_bytes().len()), 1);
    let room: usize = GROUP_SEPARATOR_END_COL.saturating_sub(taken);
    let dashes: usize = if room < MIN_GROUP_SEPARATOR_DASHES {
        MIN_GROUP_SEPARATOR_DASHES
    } else {
        room
    };
    let mut line = indent(start);
    line.append(label.as_str());
    line.append(" ");
    line.append(colours.error);
    push_repeated(&mut line, '-', dashes);
    line.append(colours.reset);
    line.append("\n");
    output.append(line.as_str());
}

/// The warning that a group has another number of entries than announced.
pub open spec fn miscount_line(
    spec: GroupModel,
    expected: nat,
    entries: nat,
    level: usize,
    c: ColourPalette,
) -> Seq<char> {
    repeated(' ', deeper(level, 2) as nat) + c.error@ + "Warning:"@ + c.reset@ + " NumInGroup "@
        + decimal(spec.count_tag as nat) + " ("@ + spec.name + ") declared "@ + decimal(expected)
        + ", found "@ + decimal(entries) + "\n"@
}

fn write_miscount(
    output: &mut String,
    spec: &GroupSpec,
    expected: usize,
    entries: usize,
    indent_spaces: usize,
    colours: &ColourPalette,
)
    ensures
        final(output)@ == old(output)@ + miscount_line(
            spec.model(),
            expected as nat,
            entries as nat,
            indent_spaces,
            *colours,
        ),
{
    proof {
        spec.lemma_model();
    }
    let mut line = indent(plus(indent_spaces, 2));
    line.append(colours.error);
    line.append("Warning:");
    line.append(colours.reset);
    line.append(" NumInGroup ");
    push_decimal(&mut line, spec.count_tag as u64);
    line.append(" (");
    line.append(spec.name.as_str());
    line.append(") declared ");
    push_decimal(&mut line, expected as u64);
    line.append(", found ");
    push_decimal(&mut line, entries as u64);
    line.append("\n");
    output.append(line.as_str());
}

/// What was written on a way through the fields, and where it stopped.
pub struct TextWalk {
    pub next: int,
    pub text: Seq<char>,
}

/// What was written of a group's entries, where they end, and how many there are.
pub struct EntriesText {
    pub next: int,
    pub entries: nat,
    pub text: Seq<char>,
}

/// The line about a tag's errors, if there are any.
pub open spec fn noted_line(tag: u32, env: DecodeEnv) -> Seq<char> {
    match notes_for(env.notes, tag) {
        Some(errs) => if errs.len() > 0 {
            missing_line(tag, errs, env.dict, env.colours)
        } else {
            seq![]
        },
        None => seq![],
    }
}

pub open spec fn has_notes(tag: u32, env: DecodeEnv) -> bool {
    notes_for(env.notes, tag) matches Some(errs) && errs.len() > 0
}

/// What tells that a group has another number of entries than announced.
pub open spec fn miscount_text(
    spec: GroupModel,
    expected: nat,
    entries: nat,
    level: usize,
    env: DecodeEnv,
) -> Seq<char> {
    if entries == expected {
        seq![]
    } else if has_notes(spec.count_tag, env) {
        noted_line(spec.count_tag, env)
    } else {
        miscount_line(spec, expected, entries, level, env.colours)
    }
}

/// The group whose count field stands at `start`.
pub open spec fn group_shown(
    fields: Seq<FieldPair>,
    start: int,
    spec: GroupModel,
    membership: Map<u32, u32>,
    level: usize,
    env: DecodeEnv,
) -> TextWalk
    decreases spec, 2int, 0int, 0int,
{
    let expected = announced(fields[start].1);
    let walk = entries_shown(fields, start + 1, spec, membership, level, env, expected, 0);
    TextWalk {
        next: walk.next,
        text: decoded_line(fields[start], level, env) + walk.text + miscount_text(
            spec,
            expected,
            walk.entries,
            level,
            env,
        ),
    }
}

/// The entries from `idx` on, `entries` of `expected` being done. A member of the group that
/// stands ahead of the first delimiter opens an entry; one that stands behind an entry is
/// shown for itself.
pub open spec fn entries_shown(
    fields: Seq<FieldPair>,
    idx: int,
    spec: GroupModel,
    membership: Map<u32, u32>,
    level: usize,
    env: DecodeEnv,
    expected: nat,
    entries: nat,
) -> EntriesText
    decreases spec, 1int, expected - entries, remaining(fields, idx),
{
    if idx < 0 || idx >= fields.len() || entries >= expected {
        EntriesText { next: idx, entries, text: seq![] }
    } else {
        let tag = fields[idx].0;
        let member = membership.contains_key(tag) && membership[tag] == spec.count_tag;
        if tag == spec.delim || (member && entries == 0) {
            let title = entry_title(spec.name, entries + 1, level, env.colours);
            let entry = entry_shown(fields, idx, idx, spec, membership, level, env, -1);
            let rest = entries_shown(
                fields,
                entry.next,
                spec,
                membership,
                level,
                env,
                expected,
                entries + 1,
            );
            EntriesText { text: title + entry.text + rest.text, ..rest }
        } else if member {
            let rest = entries_shown(
                fields,
                idx + 1,
                spec,
                membership,
                level,
                env,
                expected,
                entries,
            );
            EntriesText {
                text: decoded_line(fields[idx], deeper(level, ENTRY_FIELD_INDENT), env)
                    + rest.text,
                ..rest
            }
        } else {
            EntriesText { next: idx, entries, text: seq![] }
        }
    }
}

/// What is left, from `idx` on, of the entry that started at `start`; `last` is where the
/// tag before stands in the entry's order.
pub open spec fn entry_shown(
    fields: Seq<FieldPair>,
    start: int,
    idx: int,
    spec: GroupModel,
    membership: Map<u32, u32>,
    level: usize,
    env: DecodeEnv,
    last: int,
) -> TextWalk
    decreases spec, 0int, remaining(fields, idx), 0int,
{
    if idx < 0 || idx >= fields.len() || !of_entry(spec, fields[idx].0, idx == start) {
        TextWalk { next: idx, text: seq![] }
    } else {
        let tag = fields[idx].0;
        if has_group(spec.nested, tag) {
            let at = group_at(spec.nested, tag);
            proof {
                lemma_group_at(spec.nested, tag);
                assert(decreases_to!(spec => spec.nested));
                assert(decreases_to!(spec.nested => spec.nested[at]));
            }
            let inner = group_shown(
                fields,
                idx,
                spec.nested[at],
                membership,
                deeper(level, ENTRY_FIELD_INDENT),
                env,
            );
            let rest = entry_shown(
                fields,
                start,
                ahead(inner.next, idx),
                spec,
                membership,
                level,
                env,
                last,
            );
            TextWalk { next: rest.next, text: inner.text + rest.text }
        } else {
            let position = spec.entry_order.index_of(tag);
            let note = if position < last {
                noted_line(tag, env)
            } else {
                seq![]
            };
            let rest = entry_shown(
                fields,
                start,
                idx + 1,
                spec,
                membership,
                level,
                env,
                position,
            );
            TextWalk {
                next: rest.next,
                text: note + decoded_line(fields[idx], deeper(level, ENTRY_FIELD_INDENT), env)
                    + rest.text,
            }
        }
    }
}

/// Shows repeating groups.
struct GroupRenderer<'a> {
    dict: &'a FixTagLookup,
    annotations: Option<&'a HashMap<u32, Vec<String>>>,
    colours: &'a ColourPalette,
    msg_def: &'a MessageDef,
    fields: &'a Vec<FieldValue>,
}

impl<'a> GroupRenderer<'a> {
    spec fn env(self) -> DecodeEnv {
        DecodeEnv {
            dict: self.dict.model(),
            notes: notes_of(self.annotations),
            colours: *self.colours,
        }
    }

    spec fn pairs(self) -> Seq<FieldPair> {
        field_pairs(self.fields@)
    }

    fn write_field(&self, output: &mut String, idx: usize, indent_spaces: usize)
        requires
            idx < self.fields@.len(),
        ensures
            final(output)@ == old(output)@ + decoded_line(
                self.pairs()[idx as int],
                indent_spaces,
                self.env(),
            ),
    {
        write_field_line(
            output,
            self.dict,
            &self.fields[idx],
            self.annotations,
            self.colours,
            indent_spaces,
        );
    }

    /// Writes the line about a tag's errors, if there are any, and tells whether it did.
    fn write_notes(&self, output: &mut String, tag: u32) -> (written: bool)
        ensures
            final(output)@ == old(output)@ + noted_line(tag, self.env()),
            written == has_notes(tag, self.env()),
    {
        let ghost before = output@;
        match find_notes(self.annotations, tag) {
            Some(errs) => if errs.len() > 0 {
                write_missing_line(output, self.dict, tag, errs, self.colours);
                true
            } else {
                assert(before + seq![] =~= before);
                false
            },
            None => {
                assert(before + seq![] =~= before);
                false
            },
        }
    }

    #[verifier::rlimit(40)]
    fn render_group(
        &self,
        output: &mut String,
        start_idx: usize,
        spec: &GroupSpec,
        indent_spaces: usize,
    ) -> (next: usize)
        requires
            start_idx < self.fields@.len(),
            spec.wf(),
        ensures
            ({
                let walk = group_shown(
                    self.pairs(),
                    start_idx as int,
                    spec.model(),
                    self.msg_def@.membership,
                    indent_spaces,
                    self.env(),
                );
                next == walk.next && final(output)@ == old(output)@ + walk.text
            }),
            start_idx < next <= self.fields@.len(),
        decreases spec, 1int,
    {
        let ghost all = self.pairs();
        let ghost model = spec.model();
        let ghost members = self.msg_def@.membership;
        let ghost env = self.env();
        let ghost start = output@;
        let total: usize = self.fields.len();
        assert(all[start_idx as int].1 == self.fields@[start_idx as int].value@);
        let expected: usize = match parse_count(self.fields[start_idx].value.as_str()) {
            Some(n) => n,
            None => 0,
        };
        self.write_field(output, start_idx, indent_spaces);
        let ghost first = decoded_line(all[start_idx as int], indent_spaces, env);
        let mut entries: usize = 0;
        let mut idx: usize = start_idx + 1;
        let ghost walk = entries_shown(
            all,
            idx as int,
            model,
            members,
            indent_spaces,
            env,
            expected as nat,
            0,
        );
        while idx < total && entries < expected && (self.fields[idx].tag == spec.delim
            || is_member(self.msg_def, self.fields[idx].tag, spec.count_tag))
            invariant
                start_idx < idx <= self.fields@.len(),
                total == self.fields@.len(),
                entries <= expected,
                spec.wf(),
                all == self.pairs(),
                model == spec.model(),
                members == self.msg_def@.membership,
                env == self.env(),
                ({
                    let rest = entries_shown(
                        all,
                        idx as int,
                        model,
                        members,
                        indent_spaces,
                        env,
                        expected as nat,
                        entries as nat,
                    );
                    &&& rest.next == walk.next
                    &&& rest.entries == walk.entries
                    &&& output@ + rest.text == start + first + walk.text
                }),
            decreases expected - entries, self.fields@.len() - idx,
        {
            let ghost rest = entries_shown(
                all,
                idx as int,
                model,
                members,
                indent_spaces,
                env,
                expected as nat,
                entries as nat,
            );
            let ghost before = output@;
            assert(all[idx as int].0 == self.fields@[idx as int].tag);
            if self.fields[idx].tag == spec.delim || entries == 0 {
                let ghost title = entry_title(
                    spec.name@,
                    (entries + 1) as nat,
                    indent_spaces,
                    env.colours,
                );
                let ghost entry = entry_shown(
                    all,
                    idx as int,
                    idx as int,
                    model,
                    members,
                    indent_spaces,
                    env,
                    -1,
                );
                let next: usize = self.render_group_entry(
                    output,
                    idx,
                    spec,
                    indent_spaces,
                    entries + 1,
                );
                proof {
                    spec.lemma_model();
                    let after = entries_shown(
                        all,
                        next as int,
                        model,
                        members,
                        indent_spaces,
                        env,
                        expected as nat,
                        (entries + 1) as nat,
                    );
                    assert(rest.text == title + entry.text + after.text);
                    assert(before + rest.text =~= output@ + after.text);
                }
                idx = next;
                entries += 1;
            } else {
                self.write_field(output, idx, plus(indent_spaces, ENTRY_FIELD_INDENT));
                proof {
                    let after = entries_shown(
                        all,
                        idx + 1,
                        model,
                        members,
                        indent_spaces,
                        env,
                        expected as nat,
                        entries as nat,
                    );
                    let here = decoded_line(
                        all[idx as int],
                        deeper(indent_spaces, ENTRY_FIELD_INDENT),
                        env,
                    );
                    assert(rest.text == here + after.text);
                    assert(before + rest.text =~= output@ + after.text);
                }
                idx += 1;
            }
        }
        proof {
            if idx < self.fields@.len() {
                assert(all[idx as int].0 == self.fields@[idx as int].tag);
            }
            assert(output@ + seq![] =~= output@);
        }
        let ghost tail = miscount_text(
            model,
            expected as nat,
            entries as nat,
            indent_spaces,
            env,
        );
        let ghost before = output@;
        if entries != expected {
            if !self.write_notes(output, spec.count_tag) {
                assert(output@ =~= before);
                write_miscount(output, spec, expected, entries, indent_spaces, self.colours);
            }
        }
        assert(output@ =~= before + tail);
        assert(output@ =~= start + (first + walk.text + tail));
        idx
    }

    #[verifier::rlimit(60)]
    fn render_group_entry(
        &self,
        output: &mut String,
        start_idx: usize,
        spec: &GroupSpec,
        indent_spaces: usize,
        entry_idx: usize,
    ) -> (next: usize)
        requires
            start_idx < self.fields@.len(),
            spec.wf(),
        ensures
            ({
                let walk = entry_shown(
                    self.pairs(),
                    start_idx as int,
                    start_idx as int,
                    spec.model(),
                    self.msg_def@.membership,
                    indent_spaces,
                    self.env(),
                    -1,
                );
                next == walk.next && final(output)@ == old(output)@ + entry_title(
                    spec.name@,
                    entry_idx as nat,
                    indent_spaces,
                    self.env().colours,
                ) + walk.text
            }),
            start_idx <= next <= self.fields@.len(),
        decreases spec, 0int,
    {
        let ghost all = self.pairs();
        let ghost model = spec.model();
        let ghost members = self.msg_def@.membership;
        let ghost env = self.env();
        write_entry_title(output, spec, entry_idx, indent_spaces, self.colours);
        let ghost start = output@;
        let ghost first = start_idx as int;
        let mut idx: usize = start_idx;
        let mut last: Option<usize> = None;
        let ghost whole = entry_shown(all, first, first, model, members, indent_spaces, env, -1);
        while idx < self.fields.len() && belongs_to_entry(
            spec,
            self.fields[idx].tag,
            idx == start_idx,
        )
            invariant
                start_idx <= idx <= self.fields@.len(),
                spec.wf(),
                first == start_idx,
                all == self.pairs(),
                model == spec.model(),
                members == self.msg_def@.membership,
                env == self.env(),
                ({
                    let rest = entry_shown(
                        all,
                        first,
                        idx as int,
                        model,
                        members,
                        indent_spaces,
                        env,
                        position_of(last),
                    );
                    rest.next == whole.next && output@ + rest.text == start + whole.text
                }),
            decreases self.fields@.len() - idx,
        {
            let tag: u32 = self.fields[idx].tag;
            let ghost rest = entry_shown(
                all,
                first,
                idx as int,
                model,
                members,
                indent_spaces,
                env,
                position_of(last),
            );
            let ghost before = output@;
            assert(all[idx as int].0 == tag);
            proof {
                spec.lemma_model();
            }
            match find_group(&spec.nested, tag) {
                Some(at) => {
                    assert(decreases_to!(*spec => spec.nested));
                    assert(decreases_to!(spec.nested => spec.nested@));
                    assert(decreases_to!(spec.nested@ => spec.nested@[at as int]));
                    assert(model.nested[at as int] == spec.nested@[at as int].model());
                    let ghost inner = group_shown(
                        all,
                        idx as int,
                        model.nested[at as int],
                        members,
                        deeper(indent_spaces, ENTRY_FIELD_INDENT),
                        env,
                    );
                    let next: usize = self.render_group(
                        output,
                        idx,
                        &spec.nested[at],
                        plus(indent_spaces, ENTRY_FIELD_INDENT),
                    );
                    proof {
                        let after = entry_shown(
                            all,
                            first,
                            next as int,
                            model,
                            members,
                            indent_spaces,
                            env,
                            position_of(last),
                        );
                        assert(rest.text == inner.text + after.text);
                        assert(before + rest.text =~= output@ + after.text);
                    }
                    idx = next;
                },
                None => {
                    assert(spec.entry_pos@.contains_key(tag));
                    let position: usize = *spec.entry_pos.get(&tag).unwrap();
                    assert(position == model.entry_order.index_of(tag));
                    let early: bool = match last {
                        Some(before) => position < before,
                        None => false,
                    };
                    if early {
                        self.write_notes(output, tag);
                    }
                    let ghost middle = output@;
                    self.write_field(output, idx, plus(indent_spaces, ENTRY_FIELD_INDENT));
                    proof {
                        let note = if early {
                            noted_line(tag, env)
                        } else {
                            seq![]
                        };
                        let here = decoded_line(
                            all[idx as int],
                            deeper(indent_spaces, ENTRY_FIELD_INDENT),
                            env,
                        );
                        let after = entry_shown(
                            all,
                            first,
                            idx + 1,
                            model,
                            members,
                            indent_spaces,
                            env,
                            position as int,
                        );
                        assert(middle =~= before + note);
                        assert(rest.text == note + here + after.text);
                        assert(before + rest.text =~= output@ + after.text);
                    }
                    last = Some(position);
                    idx += 1;
                },
            }
        }
        proof {
            if idx < self.fields@.len() {
                assert(all[idx as int].0 == self.fields@[idx as int].tag);
            }
            assert(output@ + seq![] =~= output@);
        }
        idx
    }
}

spec fn position_of(last: Option<usize>) -> int {
    match last {
        Some(position) => position as int,
        None => -1,
    }
}

/// The value of the first field with `tag`, from `from` on.
pub open spec fn first_value(fields: Seq<FieldPair>, from: int, tag: u32) -> Option<Seq<char>>
    decreases fields.len() - from,
{
    if from < 0 || from >= fields.len() {
        None
    } else if fields[from].0 == tag {
        Some(fields[from].1)
    } else {
        first_value(fields, from + 1, tag)
    }
}

pub(crate) fn find_first_value(fields: &Vec<FieldValue>, tag: u32) -> (value: Option<&str>)
    ensures
        (match value {
            Some(text) => Some(text@),
            None => None,
        }) == first_value(field_pairs(fields@), 0, tag),
{
    let ghost all = field_pairs(fields@);
    let mut i: usize = 0;
    while i < fields.len()
        invariant
            i <= fields@.len(),
            all == field_pairs(fields@),
            first_value(all, 0, tag) == first_value(all, i as int, tag),
        decreases fields@.len() - i,
    {
        assert(all[i as int] == fields@[i as int]@);
        if fields[i].tag == tag {
            return Some(fields[i].value.as_str());
        }
        i += 1;
    }
    None
}

/// The fields from `idx` on, groups entry by entry where the layout is known.
pub open spec fn fields_shown(
    fields: Seq<FieldPair>,
    idx: int,
    def: Option<MessageModel>,
    env: DecodeEnv,
) -> Seq<char>
    decreases remaining(fields, idx),
{
    if idx < 0 || idx >= fields.len() {
        seq![]
    } else {
        let tag = fields[idx].0;
        match def {
            Some(def) => if has_group(def.groups, tag) {
                let walk = group_shown(
                    fields,
                    idx,
                    def.groups[group_at(def.groups, tag)],
                    def.membership,
                    BASE_INDENT,
                    env,
                );
                walk.text + fields_shown(fields, ahead(walk.next, idx), Some(def), env)
            } else {
                decoded_line(fields[idx], BASE_INDENT, env) + fields_shown(
                    fields,
                    idx + 1,
                    Some(def),
                    env,
                )
            },
            None => decoded_line(fields[idx], BASE_INDENT, env) + fields_shown(
                fields,
                idx + 1,
                None,
                env,
            ),
        }
    }
}

/// The tags whose lines are written on the way through the fields: of a group, only the
/// count field.
pub open spec fn tags_passed(
    fields: Seq<FieldPair>,
    idx: int,
    def: Option<MessageModel>,
    env: DecodeEnv,
    seen: Set<u32>,
) -> Set<u32>
    decreases remaining(fields, idx),
{
    if idx < 0 || idx >= fields.len() {
        seen
    } else {
        let tag = fields[idx].0;
        match def {
            Some(def) => if has_group(def.groups, tag) {
                let walk = group_shown(
                    fields,
                    idx,
                    def.groups[group_at(def.groups, tag)],
                    def.membership,
                    BASE_INDENT,
                    env,
                );
                tags_passed(fields, ahead(walk.next, idx), Some(def), env, seen.insert(tag))
            } else {
                tags_passed(fields, idx + 1, Some(def), env, seen.insert(tag))
            },
            None => tags_passed(fields, idx + 1, None, env, seen.insert(tag)),
        }
    }
}

/// The lines of the first `n` tags that have errors but were not passed.
pub open spec fn missing_lines(tags: Seq<u32>, n: int, seen: Set<u32>, env: DecodeEnv) -> Seq<char>
    decreases n,
{
    if n <= 0 || n > tags.len() {
        seq![]
    } else {
        let before = missing_lines(tags, n - 1, seen, env);
        if seen.contains(tags[n - 1]) {
            before
        } else {
            before + noted_line(tags[n - 1], env)
        }
    }
}

/// A message field by field, and behind it the tags with errors that were not passed, in
/// ascending order.
pub open spec fn prettified(msg: Seq<char>, env: DecodeEnv) -> Seq<char> {
    let fields = fields_of(msg);
    let def = match first_value(fields, 0, 35) {
        Some(msg_type) => env.dict.message_def(msg_type),
        None => None,
    };
    let shown = fields_shown(fields, 0, def, env);
    match env.notes {
        Some(notes) => {
            let tags = ascending_numbers(notes.dom());
            shown + missing_lines(
                tags,
                tags.len() as int,
                tags_passed(fields, 0, def, env, Set::empty()),
                env,
            )
        },
        None => shown,
    }
}

pub open spec fn report_notes(report: Option<&ValidationReport>) -> Option<Notes> {
    match report {
        Some(report) => Some(report@.tag_errors),
        None => None,
    }
}

/// Shows a message field by field. With a report, the errors of a tag stand in its line, and
/// tags with errors that are missing are listed behind.
pub fn prettify_with_report(
    msg: &str,
    dict: &FixTagLookup,
    report: Option<&ValidationReport>,
    colours: &ColourPalette,
) -> (output: String)
    ensures
        output@ == prettified(
            msg@,
            (DecodeEnv {
                dict: dict.model(),
                notes: report_notes(report),
                colours: *colours,
            }),
        ),
{
    let fields = parse_fix(msg);
    let annotations: Option<&HashMap<u32, Vec<String>>> = match report {
        Some(report) => Some(&report.tag_errors),
        None => None,
    };
    let ghost all = fields_of(msg@);
    let ghost env = DecodeEnv {
        dict: dict.model(),
        notes: report_notes(report),
        colours: *colours,
    };
    let def: Option<&MessageDef> = match find_first_value(&fields, 35) {
        Some(msg_type) => dict.message_def(msg_type),
        None => None,
    };
    let ghost model = match def {
        Some(def) => Some(def@),
        None => None,
    };
    let ghost whole = fields_shown(all, 0, model, env);
    let ghost passed = tags_passed(all, 0, model, env, Set::empty());
    let mut output = String::new();
    let mut seen: HashSet<u32> = HashSet::new();
    let mut idx: usize = 0;
    assert(output@ + whole =~= whole);
    while idx < fields.len()
        invariant
            idx <= fields@.len(),
            all == field_pairs(fields@),
            env.dict == dict.model(),
            env.notes == notes_of(annotations),
            env.colours == *colours,
            model == (match def {
                Some(def) => Some(def@),
                None => None,
            }),
            def matches Some(def) ==> def.wf(),
            output@ + fields_shown(all, idx as int, model, env) == whole,
            tags_passed(all, idx as int, model, env, seen@) == passed,
        decreases fields@.len() - idx,
    {
        let tag: u32 = fields[idx].tag;
        let ghost before = output@;
        let ghost rest = fields_shown(all, idx as int, model, env);
        assert(all[idx as int] == fields@[idx as int]@);
        seen.insert(tag);
        let found: Option<usize> = match def {
            Some(def) => find_group(&def.groups, tag),
            None => None,
        };
        match found {
            Some(at) => {
                let def = def.unwrap();
                let renderer = GroupRenderer {
                    dict,
                    annotations,
                    colours,
                    msg_def: def,
                    fields: &fields,
                };
                assert(renderer.env() == env);
                assert(def@.groups[at as int] == def.groups@[at as int].model());
                let next: usize = renderer.render_group(
                    &mut output,
                    idx,
                    &def.groups[at],
                    BASE_INDENT,
                );
                assert(before + rest =~= output@ + fields_shown(all, next as int, model, env));
                idx = next;
            },
            None => {
                write_field_line(&mut output, dict, &fields[idx], annotations, colours, BASE_INDENT);
                assert(before + rest =~= output@ + fields_shown(all, idx + 1, model, env));
                idx += 1;
            },
        }
    }
    assert(output@ + seq![] =~= output@);
    if let Some(map) = annotations {
        let tags = ordered_keys(map);
        assert(text_lists(map@).dom() =~= map@.dom());
        let ghost start = output@;
        let mut i: usize = 0;
        assert(output@ + missing_lines(tags@, 0, passed, env) =~= output@);
        while i < tags.len()
            invariant
                i <= tags@.len(),
                tags@.to_set() == map@.dom(),
                env.dict == dict.model(),
                env.notes == notes_of(annotations),
                annotations == Some(map),
                env.colours == *colours,
                seen@ == passed,
                output@ == start + missing_lines(tags@, i as int, passed, env),
            decreases tags@.len() - i,
        {
            let tag: u32 = tags[i];
            let ghost before = output@;
            assert(tags@.to_set().contains(tag));
            if !seen.contains(&tag) {
                let errs = map.get(&tag).unwrap();
                if errs.len() > 0 {
                    write_missing_line(&mut output, dict, tag, errs, colours);
                }
                assert(output@ =~= before + noted_line(tag, env));
                assert(output@ =~= start + missing_lines(tags@, i + 1, passed, env));
            }
            i += 1;
        }
    }
    output
}

} // verus!
