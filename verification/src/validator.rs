//! Validation of a message against a dictionary.
use crate::field_types::{fits_type, is_valid_type};
use crate::fixparser::{field_pairs, fields_of, parse_fix, FieldPair, FieldValue};
use crate::groups::{
    find_group, group_at, has_group, lemma_group_at, spec_models, GroupModel, GroupSpec,
};
use crate::integrity::{body_length, calculate_checksum, checksum, compute_actual_body_length};
use crate::report::{report_of, Finding, ReportView, ValidationReport};
use crate::tag_lookup::{FallbackKind, FixTagLookup, LookupModel, MessageDef, MessageModel};
use crate::text::{
    chars_of, copy_of, decimal, decimal_text, parse_unsigned_from, parsed_unsigned, push_decimal,
    push_right_aligned, right_aligned, same,
};
use std::collections::{HashMap, HashSet};
use vstd::prelude::*;
use vstd::utf8::encode_utf8;

verus! {

broadcast use {vstd::std_specs::hash::group_hash_axioms, vstd::seq_lib::group_seq_properties};

/// The value of the last field with `tag`.
pub open spec fn value_of(fields: Seq<FieldPair>, tag: u32) -> Option<Seq<char>>
    decreases fields.len(),
{
    if fields.len() == 0 {
        None
    } else if fields.last().0 == tag {
        Some(fields.last().1)
    } else {
        value_of(fields.drop_last(), tag)
    }
}

fn find_value(fields: &Vec<FieldValue>, tag: u32) -> (value: Option<&str>)
    ensures
        (match value {
            Some(text) => Some(text@),
            None => None,
        }) == value_of(field_pairs(fields@), tag),
{
    let ghost all = field_pairs(fields@);
    let mut n: usize = fields.len();
    assert(all.take(all.len() as int) =~= all);
    while n > 0
        invariant
            n <= fields@.len(),
            all == field_pairs(fields@),
            value_of(all, tag) == value_of(all.take(n as int), tag),
        decreases n,
    {
        assert(all.take(n as int).last() == fields@[n - 1]@);
        assert(all.take(n as int).drop_last() =~= all.take(n - 1));
        n -= 1;
        if fields[n].tag == tag {
            return Some(fields[n].value.as_str());
        }
    }
    None
}

/// Whether a field with `tag` stands among the fields.
pub open spec fn has_field(fields: Seq<FieldPair>, tag: u32) -> bool {
    exists|i: int| 0 <= i < fields.len() && (#[trigger] fields[i]).0 == tag
}

fn seen_tags(fields: &Vec<FieldValue>) -> (seen: HashSet<u32>)
    ensures
        forall|tag: u32|
            #[trigger] seen@.contains(tag) <==> has_field(field_pairs(fields@), tag),
{
    let ghost all = field_pairs(fields@);
    let mut seen: HashSet<u32> = HashSet::new();
    let mut i: usize = 0;
    while i < fields.len()
        invariant
            i <= fields@.len(),
            all == field_pairs(fields@),
            forall|tag: u32|
                #[trigger] seen@.contains(tag) <==> has_field(all.take(i as int), tag),
        decreases fields@.len() - i,
    {
        let ghost before = seen@;
        seen.insert(fields[i].tag);
        proof {
            let shorter = all.take(i as int);
            let longer = all.take(i + 1);
            assert(longer[i as int].0 == fields@[i as int].tag);
            assert forall|tag: u32| #[trigger] seen@.contains(tag) <==> has_field(longer, tag) by {
                if before.contains(tag) {
                    let j = choose|j: int|
                        0 <= j < shorter.len() && (#[trigger] shorter[j]).0 == tag;
                    assert(longer[j].0 == tag);
                }
                if has_field(longer, tag) {
                    let j = choose|j: int| 0 <= j < longer.len() && (#[trigger] longer[j]).0 == tag;
                    if j < i {
                        assert(shorter[j].0 == tag);
                    }
                }
            }
        }
        i += 1;
    }
    assert(all.take(all.len() as int) =~= all);
    seen
}

/// What was found on a way through the fields, and where it stopped.
pub struct Walk {
    pub next: int,
    pub found: Seq<Finding>,
}

/// A step from `idx` that gets ahead by at least one.
pub open spec fn ahead(next: int, idx: int) -> int {
    if next > idx {
        next
    } else {
        idx + 1
    }
}

/// How many fields stand at `idx` and behind it.
pub open spec fn remaining(fields: Seq<FieldPair>, idx: int) -> nat {
    if idx < fields.len() {
        (fields.len() - idx) as nat
    } else {
        0
    }
}

pub open spec fn duplicate_text(tag: u32) -> Seq<char> {
    "Duplicate tag "@ + decimal(tag as nat) + " encountered"@
}

/// A tag that was seen before is a duplicate.
pub open spec fn repeat_found(seen: Set<u32>, tag: u32) -> Seq<Finding> {
    if seen.contains(tag) {
        seq![Finding { tag: Some(tag), text: duplicate_text(tag) }]
    } else {
        seq![]
    }
}

fn note_repeat(seen: &mut HashSet<u32>, tag: u32, report: &mut ValidationReport)
    ensures
        final(seen)@ == old(seen)@.insert(tag),
        final(report)@ == old(report)@.with(repeat_found(old(seen)@, tag)),
{
    let ghost before = report@;
    if !seen.insert(tag) {
        let mut text = copy_of("Duplicate tag ");
        push_decimal(&mut text, tag as u64);
        text.append(" encountered");
        report.note(Some(tag), text);
        proof {
            before.lemma_with_one(Finding { tag: Some(tag), text: duplicate_text(tag) });
        }
    } else {
        assert(before.with(seq![]) == before);
    }
}

/// Duplicates where the layout of the message is not known: a tag that some group repeats
/// may occur again.
pub open spec fn plain_duplicates(fields: Seq<FieldPair>, dict: LookupModel) -> Seq<Finding>
    decreases fields.len(),
{
    if fields.len() == 0 {
        seq![]
    } else {
        let tag = fields.last().0;
        let before = fields.drop_last();
        if has_field(before, tag) && !dict.is_repeatable(tag) {
            plain_duplicates(before, dict).push(
                Finding { tag: Some(tag), text: duplicate_text(tag) },
            )
        } else {
            plain_duplicates(before, dict)
        }
    }
}

fn validate_duplicate_fields_without_message(
    fields: &Vec<FieldValue>,
    dict: &FixTagLookup,
    report: &mut ValidationReport,
)
    ensures
        final(report)@ == old(report)@.with(
            plain_duplicates(field_pairs(fields@), dict.model()),
        ),
{
    let ghost all = field_pairs(fields@);
    let ghost start = report@;
    let mut seen: HashSet<u32> = HashSet::new();
    let mut i: usize = 0;
    while i < fields.len()
        invariant
            i <= fields@.len(),
            all == field_pairs(fields@),
            forall|tag: u32|
                #[trigger] seen@.contains(tag) <==> has_field(all.take(i as int), tag),
            report@ == start.with(plain_duplicates(all.take(i as int), dict.model())),
        decreases fields@.len() - i,
    {
        let tag: u32 = fields[i].tag;
        let ghost before = seen@;
        let ghost shorter = all.take(i as int);
        let ghost longer = all.take(i + 1);
        assert(longer.drop_last() =~= shorter);
        assert(longer.last() == fields@[i as int]@);
        if !seen.insert(tag) && !dict.is_repeatable(tag) {
            let mut text = copy_of("Duplicate tag ");
            push_decimal(&mut text, tag as u64);
            text.append(" encountered");
            report.note(Some(tag), text);
            proof {
                let found = plain_duplicates(longer, dict.model());
                assert(found.drop_last() =~= plain_duplicates(shorter, dict.model()));
            }
        }
        proof {
            assert(longer[i as int].0 == tag);
            assert forall|t: u32| #[trigger] seen@.contains(t) <==> has_field(longer, t) by {
                if before.contains(t) {
                    let j = choose|j: int| 0 <= j < shorter.len() && (#[trigger] shorter[j]).0 == t;
                    assert(longer[j].0 == t);
                }
                if has_field(longer, t) {
                    let j = choose|j: int| 0 <= j < longer.len() && (#[trigger] longer[j]).0 == t;
                    if j < i {
                        assert(shorter[j].0 == t);
                    }
                }
            }
        }
        i += 1;
    }
    assert(all.take(all.len() as int) =~= all);
}

/// How many entries a count field announces; none where it is no number.
pub open spec fn announced(value: Seq<char>) -> nat {
    match parsed_unsigned(value, usize::MAX as nat) {
        Some(n) => n,
        None => 0,
    }
}

pub(crate) fn parse_count(value: &str) -> (count: Option<usize>)
    ensures
        (match count {
            Some(n) => Some(n as nat),
            None => None,
        }) == parsed_unsigned(value@, usize::MAX as nat),
{
    let chars = chars_of(value);
    match parse_unsigned_from(&chars, 0, usize::MAX as u64) {
        Some(n) => {
            assert(chars@.skip(0) =~= value@);
            Some(n as usize)
        },
        None => {
            assert(chars@.skip(0) =~= value@);
            None
        },
    }
}

/// A tag that can open or continue an entry of the group.
pub open spec fn of_group(spec: GroupModel, tag: u32) -> bool {
    tag == spec.delim || spec.entry_order.contains(tag) || has_group(spec.nested, tag)
}

/// A tag that belongs to the entry that started at `start`: the delimiter opens the next one.
pub open spec fn of_entry(spec: GroupModel, tag: u32, first: bool) -> bool {
    (tag != spec.delim || first) && (has_group(spec.nested, tag) || spec.entry_order.contains(tag))
}

/// Duplicates inside the group whose count field stands at `start`.
pub open spec fn group_duplicates(fields: Seq<FieldPair>, start: int, spec: GroupModel) -> Walk
    decreases spec, 2int, 0int,
{
    entries_duplicates(fields, start + 1, spec, announced(fields[start].1))
}

/// Duplicates inside the next entries, at most `left` of them.
pub open spec fn entries_duplicates(
    fields: Seq<FieldPair>,
    idx: int,
    spec: GroupModel,
    left: nat,
) -> Walk
    decreases spec, 1int, left,
{
    if idx < 0 || idx >= fields.len() || left == 0 || !of_group(spec, fields[idx].0) {
        Walk { next: idx, found: seq![] }
    } else {
        let entry = entry_duplicates(fields, idx, idx, spec, Set::empty());
        let rest = entries_duplicates(fields, ahead(entry.next, idx), spec, (left - 1) as nat);
        Walk { next: rest.next, found: entry.found + rest.found }
    }
}

/// Duplicates in what is left, from `idx` on, of the entry that started at `start`.
pub open spec fn entry_duplicates(
    fields: Seq<FieldPair>,
    start: int,
    idx: int,
    spec: GroupModel,
    seen: Set<u32>,
) -> Walk
    decreases spec, 0int, remaining(fields, idx),
{
    if idx < 0 || idx >= fields.len() || !of_entry(spec, fields[idx].0, idx == start) {
        Walk { next: idx, found: seq![] }
    } else {
        let tag = fields[idx].0;
        let here = repeat_found(seen, tag);
        if has_group(spec.nested, tag) {
            let at = group_at(spec.nested, tag);
            proof {
                lemma_group_at(spec.nested, tag);
                assert(decreases_to!(spec => spec.nested));
                assert(decreases_to!(spec.nested => spec.nested[at]));
            }
            let inner = group_duplicates(fields, idx, spec.nested[at]);
            let rest = entry_duplicates(
                fields,
                start,
                ahead(inner.next, idx),
                spec,
                seen.insert(tag),
            );
            Walk { next: rest.next, found: here + inner.found + rest.found }
        } else {
            let rest = entry_duplicates(fields, start, idx + 1, spec, seen.insert(tag));
            Walk { next: rest.next, found: here + rest.found }
        }
    }
}

fn belongs_to_group(spec: &GroupSpec, tag: u32) -> (yes: bool)
    requires
        spec.wf(),
    ensures
        yes == of_group(spec.model(), tag),
{
    proof {
        spec.lemma_model();
    }
    tag == spec.delim || spec.entry_tag_set.contains(&tag) || find_group(
        &spec.nested,
        tag,
    ).is_some()
}

pub(crate) fn belongs_to_entry(spec: &GroupSpec, tag: u32, first: bool) -> (yes: bool)
    requires
        spec.wf(),
    ensures
        yes == of_entry(spec.model(), tag, first),
{
    proof {
        spec.lemma_model();
    }
    (tag != spec.delim || first) && (find_group(&spec.nested, tag).is_some()
        || spec.entry_tag_set.contains(&tag))
}

/// Notes the duplicates inside a group and returns where the group ends.
fn collect_group_duplicate_errors(
    fields: &Vec<FieldValue>,
    start_idx: usize,
    spec: &GroupSpec,
    report: &mut ValidationReport,
) -> (next: usize)
    requires
        start_idx < fields@.len(),
        spec.wf(),
    ensures
        ({
            let walk = group_duplicates(field_pairs(fields@), start_idx as int, spec.model());
            next == walk.next && final(report)@ == old(report)@.with(walk.found)
        }),
        start_idx < next <= fields@.len(),
    decreases spec, 1int,
{
    let ghost all = field_pairs(fields@);
    let ghost model = spec.model();
    let ghost start = report@;
    let total: usize = fields.len();
    let mut left: usize = match parse_count(fields[start_idx].value.as_str()) {
        Some(n) => n,
        None => 0,
    };
    let mut idx: usize = start_idx + 1;
    let ghost whole = entries_duplicates(all, idx as int, model, left as nat);
    assert(all[start_idx as int].1 == fields@[start_idx as int].value@);
    while idx < total && left > 0 && belongs_to_group(spec, fields[idx].tag)
        invariant
            start_idx < idx <= fields@.len(),
            total == fields@.len(),
            spec.wf(),
            all == field_pairs(fields@),
            model == spec.model(),
            ({
                let rest = entries_duplicates(all, idx as int, model, left as nat);
                rest.next == whole.next && report@.with(rest.found) == start.with(whole.found)
            }),
        decreases left,
    {
        let ghost rest = entries_duplicates(all, idx as int, model, left as nat);
        let ghost entry = entry_duplicates(all, idx as int, idx as int, model, Set::empty());
        let ghost before = report@;
        assert(all[idx as int].0 == fields@[idx as int].tag);
        let next: usize = collect_group_entry_duplicate_errors(fields, idx, spec, report);
        proof {
            let after = entries_duplicates(
                all,
                ahead(entry.next, idx as int),
                model,
                (left - 1) as nat,
            );
            assert(rest.found == entry.found + after.found);
            before.lemma_with_add(entry.found, after.found);
        }
        idx = if next > idx {
            next
        } else {
            idx + 1
        };
        left -= 1;
    }
    proof {
        if idx < fields@.len() {
            assert(all[idx as int].0 == fields@[idx as int].tag);
        }
        assert(report@.with(seq![]) == report@);
    }
    idx
}

fn collect_group_entry_duplicate_errors(
    fields: &Vec<FieldValue>,
    start_idx: usize,
    spec: &GroupSpec,
    report: &mut ValidationReport,
) -> (next: usize)
    requires
        start_idx < fields@.len(),
        spec.wf(),
    ensures
        ({
            let walk = entry_duplicates(
                field_pairs(fields@),
                start_idx as int,
                start_idx as int,
                spec.model(),
                Set::empty(),
            );
            next == walk.next && final(report)@ == old(report)@.with(walk.found)
        }),
        start_idx <= next <= fields@.len(),
    decreases spec, 0int,
{
    let ghost all = field_pairs(fields@);
    let ghost model = spec.model();
    let ghost start = report@;
    let ghost first = start_idx as int;
    let mut seen: HashSet<u32> = HashSet::new();
    let mut idx: usize = start_idx;
    let ghost whole = entry_duplicates(all, first, first, model, Set::empty());
    while idx < fields.len() && belongs_to_entry(spec, fields[idx].tag, idx == start_idx)
        invariant
            start_idx <= idx <= fields@.len(),
            spec.wf(),
            first == start_idx,
            all == field_pairs(fields@),
            model == spec.model(),
            ({
                let rest = entry_duplicates(all, first, idx as int, model, seen@);
                rest.next == whole.next && report@.with(rest.found) == start.with(whole.found)
            }),
        decreases fields@.len() - idx,
    {
        let tag: u32 = fields[idx].tag;
        let ghost rest = entry_duplicates(all, first, idx as int, model, seen@);
        let ghost here = repeat_found(seen@, tag);
        let ghost before = report@;
        assert(all[idx as int].0 == tag);
        proof {
            spec.lemma_model();
        }
        note_repeat(&mut seen, tag, report);
        match find_group(&spec.nested, tag) {
            Some(at) => {
                assert(decreases_to!(*spec => spec.nested));
                assert(decreases_to!(spec.nested => spec.nested@));
                assert(decreases_to!(spec.nested@ => spec.nested@[at as int]));
                assert(model.nested[at as int] == spec.nested@[at as int].model());
                let ghost inner = group_duplicates(all, idx as int, model.nested[at as int]);
                let next: usize = collect_group_duplicate_errors(
                    fields,
                    idx,
                    &spec.nested[at],
                    report,
                );
                proof {
                    let after = entry_duplicates(all, first, next as int, model, seen@);
                    assert(rest.found == here + inner.found + after.found);
                    before.lemma_with_add(here + inner.found, after.found);
                    before.lemma_with_add(here, inner.found);
                }
                idx = next;
            },
            None => {
                proof {
                    let after = entry_duplicates(all, first, idx + 1, model, seen@);
                    assert(rest.found == here + after.found);
                    before.lemma_with_add(here, after.found);
                }
                idx += 1;
            },
        }
    }
    proof {
        if idx < fields@.len() {
            assert(all[idx as int].0 == fields@[idx as int].tag);
        }
        assert(report@.with(seq![]) == report@);
    }
    idx
}

/// Duplicates from `idx` on: each tag once, where an entry of a group counts for itself.
pub open spec fn message_duplicates(
    fields: Seq<FieldPair>,
    idx: int,
    groups: Seq<GroupModel>,
    seen: Set<u32>,
) -> Seq<Finding>
    decreases remaining(fields, idx),
{
    if idx < 0 || idx >= fields.len() {
        seq![]
    } else {
        let tag = fields[idx].0;
        let here = repeat_found(seen, tag);
        if has_group(groups, tag) {
            let inner = group_duplicates(fields, idx, groups[group_at(groups, tag)]);
            here + inner.found + message_duplicates(
                fields,
                ahead(inner.next, idx),
                groups,
                seen.insert(tag),
            )
        } else {
            here + message_duplicates(fields, idx + 1, groups, seen.insert(tag))
        }
    }
}

fn validate_duplicate_fields(
    fields: &Vec<FieldValue>,
    msg_def: &MessageDef,
    report: &mut ValidationReport,
)
    requires
        msg_def.wf(),
    ensures
        final(report)@ == old(report)@.with(
            message_duplicates(field_pairs(fields@), 0, msg_def@.groups, Set::empty()),
        ),
{
    let ghost all = field_pairs(fields@);
    let ghost groups = msg_def@.groups;
    let ghost start = report@;
    let ghost whole = message_duplicates(all, 0, groups, Set::empty());
    let mut seen: HashSet<u32> = HashSet::new();
    let mut idx: usize = 0;
    while idx < fields.len()
        invariant
            idx <= fields@.len(),
            msg_def.wf(),
            all == field_pairs(fields@),
            groups == spec_models(msg_def.groups@),
            report@.with(message_duplicates(all, idx as int, groups, seen@)) == start.with(whole),
        decreases fields@.len() - idx,
    {
        let tag: u32 = fields[idx].tag;
        let ghost rest = message_duplicates(all, idx as int, groups, seen@);
        let ghost here = repeat_found(seen@, tag);
        let ghost before = report@;
        assert(all[idx as int].0 == tag);
        note_repeat(&mut seen, tag, report);
        match find_group(&msg_def.groups, tag) {
            Some(at) => {
                assert(groups[at as int] == msg_def.groups@[at as int].model());
                let ghost inner = group_duplicates(all, idx as int, groups[at as int]);
                let next: usize = collect_group_duplicate_errors(
                    fields,
                    idx,
                    &msg_def.groups[at],
                    report,
                );
                proof {
                    let after = message_duplicates(all, next as int, groups, seen@);
                    assert(rest == here + inner.found + after);
                    before.lemma_with_add(here + inner.found, after);
                    before.lemma_with_add(here, inner.found);
                }
                idx = next;
            },
            None => {
                proof {
                    let after = message_duplicates(all, idx + 1, groups, seen@);
                    assert(rest == here + after);
                    before.lemma_with_add(here, after);
                }
                idx += 1;
            },
        }
    }
    assert(report@.with(seq![]) == report@);
}

pub open spec fn one(tag: u32, text: Seq<char>) -> Seq<Finding> {
    seq![Finding { tag: Some(tag), text }]
}

pub open spec fn out_of_entry_order_text(dict: LookupModel, tag: u32, count_tag: u32) -> Seq<
    char,
> {
    "Tag "@ + decimal(tag as nat) + " ("@ + dict.field_name(tag)
        + ") out of order within repeating group "@ + decimal(count_tag as nat)
}

pub open spec fn early_text(delim: u32, tag: u32) -> Seq<char> {
    "Expected group delimiter tag "@ + decimal(delim as nat) + " before tag "@ + decimal(
        tag as nat,
    )
}

pub open spec fn bad_count_text(value: Seq<char>, count_tag: u32) -> Seq<char> {
    "Invalid NumInGroup value '"@ + value + "' for tag "@ + decimal(count_tag as nat)
}

pub open spec fn miscount_text(count_tag: u32, count: nat, entries: nat) -> Seq<char> {
    "NumInGroup "@ + decimal(count_tag as nat) + " declared "@ + decimal(count) + ", but "@
        + decimal(entries) + " instance(s) found"@
}

/// What entries of a group were found, where they end, and how many there are.
pub struct EntriesWalk {
    pub next: int,
    pub entries: nat,
    pub found: Seq<Finding>,
}

/// What is wrong with the group whose count field stands at `start`.
pub open spec fn group_findings(
    fields: Seq<FieldPair>,
    start: int,
    spec: GroupModel,
    membership: Map<u32, u32>,
    dict: LookupModel,
) -> Walk
    decreases spec, 2int, 0int, 0int,
{
    let value = fields[start].1;
    let count = announced(value);
    let walk = entries_findings(fields, start + 1, spec, membership, dict, count, 0);
    let bad = if parsed_unsigned(value, usize::MAX as nat) is None {
        one(spec.count_tag, bad_count_text(value, spec.count_tag))
    } else {
        seq![]
    };
    let miscount = if walk.entries != count {
        one(spec.count_tag, miscount_text(spec.count_tag, count, walk.entries))
    } else {
        seq![]
    };
    Walk { next: walk.next, found: bad + walk.found + miscount }
}

/// What is wrong with the entries from `idx` on, `entries` of `count` being done.
pub open spec fn entries_findings(
    fields: Seq<FieldPair>,
    idx: int,
    spec: GroupModel,
    membership: Map<u32, u32>,
    dict: LookupModel,
    count: nat,
    entries: nat,
) -> EntriesWalk
    decreases spec, 1int, count - entries, remaining(fields, idx),
{
    if idx < 0 || idx >= fields.len() || entries >= count {
        EntriesWalk { next: idx, entries, found: seq![] }
    } else {
        let tag = fields[idx].0;
        if tag == spec.delim {
            let entry = entry_findings(fields, idx, idx, spec, membership, dict, -1);
            let rest = entries_findings(
                fields,
                entry.next,
                spec,
                membership,
                dict,
                count,
                entries + 1,
            );
            EntriesWalk { found: entry.found + rest.found, ..rest }
        } else if membership.contains_key(tag) && membership[tag] == spec.count_tag {
            let rest = entries_findings(fields, idx + 1, spec, membership, dict, count, entries);
            EntriesWalk { found: one(tag, early_text(spec.delim, tag)) + rest.found, ..rest }
        } else {
            EntriesWalk { next: idx, entries, found: seq![] }
        }
    }
}

/// What is wrong with what is left, from `idx` on, of the entry that started at `start`;
/// `last` is where the tag before stands in the entry's order.
pub open spec fn entry_findings(
    fields: Seq<FieldPair>,
    start: int,
    idx: int,
    spec: GroupModel,
    membership: Map<u32, u32>,
    dict: LookupModel,
    last: int,
) -> Walk
    decreases spec, 0int, remaining(fields, idx), 0int,
{
    if idx < 0 || idx >= fields.len() || !of_entry(spec, fields[idx].0, idx == start) {
        Walk { next: idx, found: seq![] }
    } else {
        let tag = fields[idx].0;
        if has_group(spec.nested, tag) {
            let at = group_at(spec.nested, tag);
            proof {
                lemma_group_at(spec.nested, tag);
                assert(decreases_to!(spec => spec.nested));
                assert(decreases_to!(spec.nested => spec.nested[at]));
            }
            let inner = group_findings(fields, idx, spec.nested[at], membership, dict);
            let rest = entry_findings(
                fields,
                start,
                ahead(inner.next, idx),
                spec,
                membership,
                dict,
                last,
            );
            Walk { next: rest.next, found: inner.found + rest.found }
        } else {
            let position = spec.entry_order.index_of(tag);
            let here = if position < last {
                one(tag, out_of_entry_order_text(dict, tag, spec.count_tag))
            } else {
                seq![]
            };
            let rest = entry_findings(fields, start, idx + 1, spec, membership, dict, position);
            Walk { next: rest.next, found: here + rest.found }
        }
    }
}

fn note_bad_count(value: &str, count_tag: u32, report: &mut ValidationReport)
    ensures
        final(report)@ == old(report)@.with(one(count_tag, bad_count_text(value@, count_tag))),
{
    let mut text = copy_of("Invalid NumInGroup value '");
    text.append(value);
    text.append("' for tag ");
    push_decimal(&mut text, count_tag as u64);
    proof {
        report@.lemma_with_one(Finding { tag: Some(count_tag), text: text@ });
    }
    report.note(Some(count_tag), text);
}

fn note_early(delim: u32, tag: u32, report: &mut ValidationReport)
    ensures
        final(report)@ == old(report)@.with(one(tag, early_text(delim, tag))),
{
    let mut text = copy_of("Expected group delimiter tag ");
    push_decimal(&mut text, delim as u64);
    text.append(" before tag ");
    push_decimal(&mut text, tag as u64);
    proof {
        report@.lemma_with_one(Finding { tag: Some(tag), text: text@ });
    }
    report.note(Some(tag), text);
}

fn note_miscount(count_tag: u32, count: usize, entries: usize, report: &mut ValidationReport)
    ensures
        final(report)@ == old(report)@.with(
            one(count_tag, miscount_text(count_tag, count as nat, entries as nat)),
        ),
{
    let mut text = copy_of("NumInGroup ");
    push_decimal(&mut text, count_tag as u64);
    text.append(" declared ");
    push_decimal(&mut text, count as u64);
    text.append(", but ");
    push_decimal(&mut text, entries as u64);
    text.append(" instance(s) found");
    proof {
        report@.lemma_with_one(Finding { tag: Some(count_tag), text: text@ });
    }
    report.note(Some(count_tag), text);
}

fn note_out_of_entry_order(
    dict: &FixTagLookup,
    tag: u32,
    count_tag: u32,
    report: &mut ValidationReport,
)
    ensures
        final(report)@ == old(report)@.with(
            one(tag, out_of_entry_order_text(dict.model(), tag, count_tag)),
        ),
{
    let name = dict.field_name(tag);
    let mut text = copy_of("Tag ");
    push_decimal(&mut text, tag as u64);
    text.append(" (");
    text.append(name.as_str());
    text.append(") out of order within repeating group ");
    push_decimal(&mut text, count_tag as u64);
    proof {
        report@.lemma_with_one(Finding { tag: Some(tag), text: text@ });
    }
    report.note(Some(tag), text);
}

/// Notes what is wrong with a group and returns where it ends.
#[verifier::rlimit(30)]
fn validate_group_instance(
    fields: &Vec<FieldValue>,
    start_idx: usize,
    spec: &GroupSpec,
    msg_def: &MessageDef,
    dict: &FixTagLookup,
    report: &mut ValidationReport,
) -> (next: usize)
    requires
        start_idx < fields@.len(),
        spec.wf(),
    ensures
        ({
            let walk = group_findings(
                field_pairs(fields@),
                start_idx as int,
                spec.model(),
                msg_def@.membership,
                dict.model(),
            );
            next == walk.next && final(report)@ == old(report)@.with(walk.found)
        }),
        start_idx < next <= fields@.len(),
    decreases spec, 1int,
{
    let ghost all = field_pairs(fields@);
    let ghost model = spec.model();
    let ghost members = msg_def@.membership;
    let ghost dm = dict.model();
    let ghost start = report@;
    let total: usize = fields.len();
    assert(all[start_idx as int].1 == fields@[start_idx as int].value@);
    let count: usize = match parse_count(fields[start_idx].value.as_str()) {
        Some(n) => {
            assert(start.with(seq![]) == start);
            n
        },
        None => {
            note_bad_count(fields[start_idx].value.as_str(), spec.count_tag, report);
            0
        },
    };
    let ghost whole = group_findings(all, start_idx as int, model, members, dm);
    let ghost value = all[start_idx as int].1;
    let ghost bad = if parsed_unsigned(value, usize::MAX as nat) is None {
        one(spec.count_tag, bad_count_text(value, spec.count_tag))
    } else {
        seq![]
    };
    assert(report@ == start.with(bad));
    let ghost middle = report@;
    let mut entries: usize = 0;
    let mut idx: usize = start_idx + 1;
    let ghost walk = entries_findings(all, idx as int, model, members, dm, count as nat, 0);
    while idx < total && entries < count && (fields[idx].tag == spec.delim || is_member(
        msg_def,
        fields[idx].tag,
        spec.count_tag,
    ))
        invariant
            start_idx < idx <= fields@.len(),
            total == fields@.len(),
            entries <= count,
            spec.wf(),
            all == field_pairs(fields@),
            model == spec.model(),
            members == msg_def@.membership,
            dm == dict.model(),
            ({
                let rest = entries_findings(
                    all,
                    idx as int,
                    model,
                    members,
                    dm,
                    count as nat,
                    entries as nat,
                );
                &&& rest.next == walk.next
                &&& rest.entries == walk.entries
                &&& report@.with(rest.found) == middle.with(walk.found)
            }),
        decreases count - entries, fields@.len() - idx,
    {
        let ghost rest = entries_findings(
            all,
            idx as int,
            model,
            members,
            dm,
            count as nat,
            entries as nat,
        );
        let ghost before = report@;
        assert(all[idx as int].0 == fields@[idx as int].tag);
        if fields[idx].tag == spec.delim {
            let ghost entry = entry_findings(all, idx as int, idx as int, model, members, dm, -1);
            let next: usize = validate_group_entry(fields, idx, spec, msg_def, dict, report);
            proof {
                let after = entries_findings(
                    all,
                    next as int,
                    model,
                    members,
                    dm,
                    count as nat,
                    (entries + 1) as nat,
                );
                assert(rest.found == entry.found + after.found);
                before.lemma_with_add(entry.found, after.found);
            }
            idx = next;
            entries += 1;
        } else {
            let tag: u32 = fields[idx].tag;
            note_early(spec.delim, tag, report);
            proof {
                let after = entries_findings(
                    all,
                    idx + 1,
                    model,
                    members,
                    dm,
                    count as nat,
                    entries as nat,
                );
                let here = one(tag, early_text(spec.delim, tag));
                assert(rest.found == here + after.found);
                before.lemma_with_add(here, after.found);
            }
            idx += 1;
        }
    }
    proof {
        if idx < fields@.len() {
            assert(all[idx as int].0 == fields@[idx as int].tag);
        }
        assert(report@.with(seq![]) == report@);
        assert(report@ == middle.with(walk.found));
        start.lemma_with_add(bad, walk.found);
    }
    let ghost miscount = if walk.entries != count {
        one(spec.count_tag, miscount_text(spec.count_tag, count as nat, walk.entries))
    } else {
        seq![]
    };
    if entries != count {
        note_miscount(spec.count_tag, count, entries, report);
    }
    proof {
        assert(whole.found == bad + walk.found + miscount);
        start.lemma_with_add(bad + walk.found, miscount);
        assert(start.with(bad + walk.found).with(seq![]) == start.with(bad + walk.found));
    }
    idx
}

pub(crate) fn is_member(msg_def: &MessageDef, tag: u32, count_tag: u32) -> (yes: bool)
    ensures
        yes == (msg_def@.membership.contains_key(tag) && msg_def@.membership[tag] == count_tag),
{
    match msg_def.group_membership.get(&tag) {
        Some(owner) => *owner == count_tag,
        None => false,
    }
}

fn validate_group_entry(
    fields: &Vec<FieldValue>,
    start_idx: usize,
    spec: &GroupSpec,
    msg_def: &MessageDef,
    dict: &FixTagLookup,
    report: &mut ValidationReport,
) -> (next: usize)
    requires
        start_idx < fields@.len(),
        spec.wf(),
    ensures
        ({
            let walk = entry_findings(
                field_pairs(fields@),
                start_idx as int,
                start_idx as int,
                spec.model(),
                msg_def@.membership,
                dict.model(),
                -1,
            );
            next == walk.next && final(report)@ == old(report)@.with(walk.found)
        }),
        start_idx <= next <= fields@.len(),
    decreases spec, 0int,
{
    let ghost all = field_pairs(fields@);
    let ghost model = spec.model();
    let ghost members = msg_def@.membership;
    let ghost dm = dict.model();
    let ghost start = report@;
    let ghost first = start_idx as int;
    let mut idx: usize = start_idx;
    let mut last: Option<usize> = None;
    let ghost whole = entry_findings(all, first, first, model, members, dm, -1);
    while idx < fields.len() && belongs_to_entry(spec, fields[idx].tag, idx == start_idx)
        invariant
            start_idx <= idx <= fields@.len(),
            spec.wf(),
            first == start_idx,
            all == field_pairs(fields@),
            model == spec.model(),
            members == msg_def@.membership,
            dm == dict.model(),
            ({
                let rest = entry_findings(
                    all,
                    first,
                    idx as int,
                    model,
                    members,
                    dm,
                    position_of(last),
                );
                rest.next == whole.next && report@.with(rest.found) == start.with(whole.found)
            }),
        decreases fields@.len() - idx,
    {
        let tag: u32 = fields[idx].tag;
        let ghost rest = entry_findings(
            all,
            first,
            idx as int,
            model,
            members,
            dm,
            position_of(last),
        );
        let ghost before = report@;
        assert(all[idx as int].0 == tag);
        proof {
            spec.lemma_model();
        }
        match find_group(&spec.nested, tag) {
            Some(at) => {
                assert(decreases_to!(*spec => spec.nested));
                assert(decreases_to!(spec.nested => spec.nested@));
                assert(decreases_to!(spec.nested@ => spec.nested@[at as int]));
                assert(model.nested[at as int] == spec.nested@[at as int].model());
                let ghost inner = group_findings(
                    all,
                    idx as int,
                    model.nested[at as int],
                    members,
                    dm,
                );
                let next: usize = validate_group_instance(
                    fields,
                    idx,
                    &spec.nested[at],
                    msg_def,
                    dict,
                    report,
                );
                proof {
                    let after = entry_findings(
                        all,
                        first,
                        next as int,
                        model,
                        members,
                        dm,
                        position_of(last),
                    );
                    assert(rest.found == inner.found + after.found);
                    before.lemma_with_add(inner.found, after.found);
                }
                idx = next;
            },
            None => {
                assert(spec.entry_pos@.contains_key(tag));
                let position: usize = *spec.entry_pos.get(&tag).unwrap();
                assert(position == model.entry_order.index_of(tag));
                let early: bool = match last {
                    Some(before) => position < before,
                    None => false,
                };
                if early {
                    note_out_of_entry_order(dict, tag, spec.count_tag, report);
                } else {
                    assert(before.with(seq![]) == before);
                }
                proof {
                    let here = if early {
                        one(tag, out_of_entry_order_text(dm, tag, spec.count_tag))
                    } else {
                        seq![]
                    };
                    let after = entry_findings(
                        all,
                        first,
                        idx + 1,
                        model,
                        members,
                        dm,
                        position as int,
                    );
                    assert(rest.found == here + after.found);
                    before.lemma_with_add(here, after.found);
                }
                last = Some(position);
                idx += 1;
            },
        }
    }
    proof {
        if idx < fields@.len() {
            assert(all[idx as int].0 == fields@[idx as int].tag);
        }
        assert(report@.with(seq![]) == report@);
    }
    idx
}

spec fn position_of(last: Option<usize>) -> int {
    match last {
        Some(position) => position as int,
        None => -1,
    }
}

pub open spec fn stray_text(dict: LookupModel, tag: u32, owner: u32) -> Seq<char> {
    "Tag "@ + decimal(tag as nat) + " ("@ + dict.field_name(tag)
        + ") appears outside of repeating group "@ + decimal(owner as nat)
}

/// What is wrong with the repeating groups from `idx` on: the groups themselves, and tags of
/// a group that stand outside of it.
pub open spec fn grouping_findings(
    fields: Seq<FieldPair>,
    idx: int,
    def: MessageModel,
    dict: LookupModel,
) -> Seq<Finding>
    decreases remaining(fields, idx),
{
    if idx < 0 || idx >= fields.len() {
        seq![]
    } else {
        let tag = fields[idx].0;
        if has_group(def.groups, tag) {
            let walk = group_findings(
                fields,
                idx,
                def.groups[group_at(def.groups, tag)],
                def.membership,
                dict,
            );
            walk.found + grouping_findings(fields, ahead(walk.next, idx), def, dict)
        } else {
            let here = if def.membership.contains_key(tag) {
                one(tag, stray_text(dict, tag, def.membership[tag]))
            } else {
                seq![]
            };
            here + grouping_findings(fields, idx + 1, def, dict)
        }
    }
}

fn validate_repeating_groups(
    fields: &Vec<FieldValue>,
    msg_def: &MessageDef,
    dict: &FixTagLookup,
    report: &mut ValidationReport,
)
    requires
        msg_def.wf(),
    ensures
        final(report)@ == old(report)@.with(
            grouping_findings(field_pairs(fields@), 0, msg_def@, dict.model()),
        ),
{
    let ghost all = field_pairs(fields@);
    let ghost def = msg_def@;
    let ghost dm = dict.model();
    let ghost start = report@;
    let ghost whole = grouping_findings(all, 0, def, dm);
    let mut idx: usize = 0;
    while idx < fields.len()
        invariant
            idx <= fields@.len(),
            msg_def.wf(),
            all == field_pairs(fields@),
            def == msg_def@,
            dm == dict.model(),
            report@.with(grouping_findings(all, idx as int, def, dm)) == start.with(whole),
        decreases fields@.len() - idx,
    {
        let tag: u32 = fields[idx].tag;
        let ghost rest = grouping_findings(all, idx as int, def, dm);
        let ghost before = report@;
        assert(all[idx as int].0 == tag);
        match find_group(&msg_def.groups, tag) {
            Some(at) => {
                assert(def.groups[at as int] == msg_def.groups@[at as int].model());
                let ghost walk = group_findings(
                    all,
                    idx as int,
                    def.groups[at as int],
                    def.membership,
                    dm,
                );
                let next: usize = validate_group_instance(
                    fields,
                    idx,
                    &msg_def.groups[at],
                    msg_def,
                    dict,
                    report,
                );
                proof {
                    let after = grouping_findings(all, next as int, def, dm);
                    assert(rest == walk.found + after);
                    before.lemma_with_add(walk.found, after);
                }
                idx = next;
            },
            None => {
                let ghost here = if def.membership.contains_key(tag) {
                    one(tag, stray_text(dm, tag, def.membership[tag]))
                } else {
                    seq![]
                };
                match msg_def.group_membership.get(&tag) {
                    Some(owner) => {
                        let name = dict.field_name(tag);
                        let mut text = copy_of("Tag ");
                        push_decimal(&mut text, tag as u64);
                        text.append(" (");
                        text.append(name.as_str());
                        text.append(") appears outside of repeating group ");
                        push_decimal(&mut text, *owner as u64);
                        proof {
                            before.lemma_with_one(Finding { tag: Some(tag), text: text@ });
                        }
                        report.note(Some(tag), text);
                    },
                    None => {
                        assert(before.with(seq![]) == before);
                    },
                }
                proof {
                    let after = grouping_findings(all, idx + 1, def, dm);
                    assert(rest == here + after);
                    before.lemma_with_add(here, after);
                }
                idx += 1;
            },
        }
    }
    assert(report@.with(seq![]) == report@);
}

/// What is wrong with the message type.
pub open spec fn type_findings(fields: Seq<FieldPair>, dict: LookupModel) -> Seq<Finding> {
    match value_of(fields, 35) {
        None => one(35, "Missing required tag 35 (MsgType)"@),
        Some(msg_type) => if dict.message_def(msg_type) is None {
            one(35, "Unknown MsgType: "@ + msg_type)
        } else {
            seq![]
        },
    }
}

/// The layout of the message, where its type is known.
pub open spec fn layout(fields: Seq<FieldPair>, dict: LookupModel) -> Option<MessageModel> {
    match value_of(fields, 35) {
        None => None,
        Some(msg_type) => dict.message_def(msg_type),
    }
}

fn validate_msg_type<'a>(
    fields: &Vec<FieldValue>,
    dict: &'a FixTagLookup,
    report: &mut ValidationReport,
) -> (def: Option<&'a MessageDef>)
    ensures
        final(report)@ == old(report)@.with(type_findings(field_pairs(fields@), dict.model())),
        (match def {
            Some(def) => Some(def@),
            None => None,
        }) == layout(field_pairs(fields@), dict.model()),
        def matches Some(def) ==> def.wf(),
{
    let ghost before = report@;
    match find_value(fields, 35) {
        None => {
            let text = copy_of("Missing required tag 35 (MsgType)");
            proof {
                before.lemma_with_one(Finding { tag: Some(35), text: text@ });
            }
            report.note(Some(35), text);
            None
        },
        Some(msg_type) => {
            let def = dict.message_def(msg_type);
            if def.is_none() {
                let mut text = copy_of("Unknown MsgType: ");
                text.append(msg_type);
                proof {
                    before.lemma_with_one(Finding { tag: Some(35), text: text@ });
                }
                report.note(Some(35), text);
            } else {
                assert(before.with(seq![]) == before);
            }
            def
        },
    }
}

pub open spec fn missing_text(dict: LookupModel, tag: u32) -> Seq<char> {
    "Missing required tag "@ + decimal(tag as nat) + " ("@ + dict.field_name(tag) + ")"@
}

/// The required tags that no field has.
pub open spec fn missing_findings(
    required: Seq<u32>,
    fields: Seq<FieldPair>,
    dict: LookupModel,
) -> Seq<Finding>
    decreases required.len(),
{
    if required.len() == 0 {
        seq![]
    } else {
        let before = missing_findings(required.drop_last(), fields, dict);
        let tag = required.last();
        if has_field(fields, tag) {
            before
        } else {
            before.push(Finding { tag: Some(tag), text: missing_text(dict, tag) })
        }
    }
}

fn validate_required_fields(
    required: &Vec<u32>,
    fields: &Vec<FieldValue>,
    dict: &FixTagLookup,
    report: &mut ValidationReport,
)
    ensures
        final(report)@ == old(report)@.with(
            missing_findings(required@, field_pairs(fields@), dict.model()),
        ),
{
    let ghost all = field_pairs(fields@);
    let ghost start = report@;
    let seen = seen_tags(fields);
    let mut i: usize = 0;
    while i < required.len()
        invariant
            i <= required@.len(),
            all == field_pairs(fields@),
            forall|tag: u32| #[trigger] seen@.contains(tag) <==> has_field(all, tag),
            report@ == start.with(missing_findings(required@.take(i as int), all, dict.model())),
        decreases required@.len() - i,
    {
        let ghost longer = required@.take(i + 1);
        assert(longer.drop_last() =~= required@.take(i as int));
        let tag: u32 = required[i];
        if !seen.contains(&tag) {
            let name = dict.field_name(tag);
            let mut text = copy_of("Missing required tag ");
            push_decimal(&mut text, tag as u64);
            text.append(" (");
            text.append(name.as_str());
            text.append(")");
            report.note(Some(tag), text);
            proof {
                let found = missing_findings(longer, all, dict.model());
                assert(found.drop_last() =~= missing_findings(
                    required@.take(i as int),
                    all,
                    dict.model(),
                ));
            }
        }
        i += 1;
    }
    assert(required@.take(required@.len() as int) =~= required@);
}

pub open spec fn unknown_text(dict: LookupModel, tag: u32) -> Seq<char> {
    let head = "Unknown tag "@ + decimal(tag as nat) + " in FIX "@ + dict.key;
    match dict.fallback {
        Some(next) => head + " and FIX "@ + next.key,
        None => head,
    }
}

pub open spec fn override_text(tag: u32, key: Seq<char>, detected: Seq<char>) -> Seq<char> {
    "Tag "@ + decimal(tag as nat) + " is defined in override FIX "@ + key
        + " but unknown in detected FIX "@ + detected
}

pub open spec fn enum_text(value: Seq<char>) -> Seq<char> {
    "Invalid enum value '"@ + value + "'"@
}

pub open spec fn type_text(field_type: Seq<char>, value: Seq<char>) -> Seq<char> {
    "Invalid type: expected "@ + field_type + ", got '"@ + value + "'"@
}

/// The tag is known in a dictionary behind this one.
pub open spec fn known_behind(dict: LookupModel, tag: u32) -> bool {
    dict.fallback matches Some(next) && next.has_tag(tag)
}

/// The tag is known in the override alone, not in the dictionary that the message names.
pub open spec fn override_findings(dict: LookupModel, tag: u32) -> Seq<Finding> {
    match dict.fallback {
        Some(next) => if dict.names.contains_key(tag) && !next.has_tag(tag) && dict.role == Some(
            FallbackKind::DetectedOverride,
        ) {
            one(tag, override_text(tag, dict.key, next.key))
        } else {
            seq![]
        },
        None => seq![],
    }
}

pub open spec fn enum_findings(dict: LookupModel, field: FieldPair) -> Seq<Finding> {
    match dict.enums_for(field.0) {
        Some(enums) => if enums.contains_key(field.1) {
            seq![]
        } else {
            one(field.0, enum_text(field.1))
        },
        None => seq![],
    }
}

pub open spec fn value_findings(dict: LookupModel, field: FieldPair) -> Seq<Finding> {
    match dict.field_type(field.0) {
        Some(field_type) => if fits_type(field.1, field_type) {
            seq![]
        } else {
            one(field.0, type_text(field_type, field.1))
        },
        None => seq![],
    }
}

/// What is wrong with one field for itself.
pub open spec fn field_findings(dict: LookupModel, field: FieldPair) -> Seq<Finding> {
    let tag = field.0;
    if !dict.names.contains_key(tag) && !known_behind(dict, tag) {
        one(tag, unknown_text(dict, tag))
    } else {
        override_findings(dict, tag) + enum_findings(dict, field) + value_findings(dict, field)
    }
}

pub open spec fn all_field_findings(fields: Seq<FieldPair>, dict: LookupModel) -> Seq<Finding>
    decreases fields.len(),
{
    if fields.len() == 0 {
        seq![]
    } else {
        all_field_findings(fields.drop_last(), dict) + field_findings(dict, fields.last())
    }
}

fn note_unknown(dict: &FixTagLookup, tag: u32, report: &mut ValidationReport)
    ensures
        final(report)@ == old(report)@.with(one(tag, unknown_text(dict.model(), tag))),
{
    let presence = dict.tag_presence(tag);
    let mut text = copy_of("Unknown tag ");
    push_decimal(&mut text, tag as u64);
    text.append(" in FIX ");
    text.append(presence.primary_key.as_str());
    if let Some(key) = &presence.fallback_key {
        text.append(" and FIX ");
        text.append(key.as_str());
    }
    proof {
        report@.lemma_with_one(Finding { tag: Some(tag), text: text@ });
    }
    report.note(Some(tag), text);
}

fn note_override(dict: &FixTagLookup, tag: u32, report: &mut ValidationReport)
    ensures
        final(report)@ == old(report)@.with(override_findings(dict.model(), tag)),
{
    let ghost before = report@;
    let presence = dict.tag_presence(tag);
    assert(before.with(seq![]) == before);
    if presence.in_primary && !presence.in_fallback && presence.fallback_role == Some(
        FallbackKind::DetectedOverride,
    ) {
        if let Some(key) = &presence.fallback_key {
            let mut text = copy_of("Tag ");
            push_decimal(&mut text, tag as u64);
            text.append(" is defined in override FIX ");
            text.append(presence.primary_key.as_str());
            text.append(" but unknown in detected FIX ");
            text.append(key.as_str());
            proof {
                before.lemma_with_one(Finding { tag: Some(tag), text: text@ });
            }
            report.note(Some(tag), text);
        }
    }
}

fn note_enum(dict: &FixTagLookup, field: &FieldValue, report: &mut ValidationReport)
    ensures
        final(report)@ == old(report)@.with(enum_findings(dict.model(), field@)),
{
    let ghost before = report@;
    assert(before.with(seq![]) == before);
    if let Some(enums) = dict.enums_for(field.tag) {
        if !enums.contains_key(field.value.as_str()) {
            let mut text = copy_of("Invalid enum value '");
            text.append(field.value.as_str());
            text.append("'");
            proof {
                before.lemma_with_one(Finding { tag: Some(field.tag), text: text@ });
            }
            report.note(Some(field.tag), text);
        }
    }
}

fn note_type(dict: &FixTagLookup, field: &FieldValue, report: &mut ValidationReport)
    ensures
        final(report)@ == old(report)@.with(value_findings(dict.model(), field@)),
{
    let ghost before = report@;
    assert(before.with(seq![]) == before);
    if let Some(field_type) = dict.field_type(field.tag) {
        if !is_valid_type(field.value.as_str(), field_type) {
            let mut text = copy_of("Invalid type: expected ");
            text.append(field_type);
            text.append(", got '");
            text.append(field.value.as_str());
            text.append("'");
            proof {
                before.lemma_with_one(Finding { tag: Some(field.tag), text: text@ });
            }
            report.note(Some(field.tag), text);
        }
    }
}

fn validate_field_enums_and_types(
    fields: &Vec<FieldValue>,
    dict: &FixTagLookup,
    report: &mut ValidationReport,
)
    ensures
        final(report)@ == old(report)@.with(
            all_field_findings(field_pairs(fields@), dict.model()),
        ),
{
    let ghost all = field_pairs(fields@);
    let ghost dm = dict.model();
    let ghost start = report@;
    let mut i: usize = 0;
    while i < fields.len()
        invariant
            i <= fields@.len(),
            all == field_pairs(fields@),
            dm == dict.model(),
            report@ == start.with(all_field_findings(all.take(i as int), dm)),
        decreases fields@.len() - i,
    {
        let ghost before = report@;
        let ghost longer = all.take(i + 1);
        assert(longer.drop_last() =~= all.take(i as int));
        assert(longer.last() == fields@[i as int]@);
        let tag: u32 = fields[i].tag;
        let presence = dict.tag_presence(tag);
        if !presence.in_primary && !presence.in_fallback {
            note_unknown(dict, tag, report);
        } else {
            note_override(dict, tag, report);
            note_enum(dict, &fields[i], report);
            note_type(dict, &fields[i], report);
            proof {
                let field = fields@[i as int]@;
                let a = override_findings(dm, tag);
                let b = enum_findings(dm, field);
                before.lemma_with_add(a + b, value_findings(dm, field));
                before.lemma_with_add(a, b);
            }
        }
        proof {
            start.lemma_with_add(
                all_field_findings(all.take(i as int), dm),
                field_findings(dm, longer.last()),
            );
        }
        i += 1;
    }
    assert(all.take(all.len() as int) =~= all);
}

/// Where each tag of the layout stands; the last place of one that stands there twice.
pub open spec fn places(order: Seq<u32>) -> Map<u32, usize>
    decreases order.len(),
{
    if order.len() == 0 {
        Map::empty()
    } else {
        places(order.drop_last()).insert(order.last(), (order.len() - 1) as usize)
    }
}

/// Where the group whose count field stands at `start` ends.
pub open spec fn group_end(fields: Seq<FieldPair>, start: int, spec: GroupModel) -> int {
    group_duplicates(fields, start, spec).next
}

/// The tags from `idx` on that stand in no entry of a group, the count fields of the groups
/// among them.
pub open spec fn outside_groups(fields: Seq<FieldPair>, idx: int, groups: Seq<GroupModel>) -> Seq<
    u32,
>
    decreases remaining(fields, idx),
{
    if idx < 0 || idx >= fields.len() {
        seq![]
    } else {
        let tag = fields[idx].0;
        let next = if has_group(groups, tag) {
            ahead(group_end(fields, idx, groups[group_at(groups, tag)]), idx)
        } else {
            idx + 1
        };
        seq![tag] + outside_groups(fields, next, groups)
    }
}

/// Where the group ends whose count field stands at `start_idx`.
fn end_of_group(fields: &Vec<FieldValue>, start_idx: usize, spec: &GroupSpec) -> (next: usize)
    requires
        start_idx < fields@.len(),
        spec.wf(),
    ensures
        next == group_end(field_pairs(fields@), start_idx as int, spec.model()),
        start_idx < next <= fields@.len(),
{
    let mut unread = ValidationReport::new();
    collect_group_duplicate_errors(fields, start_idx, spec, &mut unread)
}

fn tags_outside_groups(fields: &Vec<FieldValue>, msg_def: &MessageDef) -> (tags: Vec<u32>)
    requires
        msg_def.wf(),
    ensures
        tags@ == outside_groups(field_pairs(fields@), 0, msg_def@.groups),
{
    let ghost all = field_pairs(fields@);
    let ghost groups = msg_def@.groups;
    let ghost whole = outside_groups(all, 0, groups);
    let mut tags: Vec<u32> = Vec::new();
    let mut idx: usize = 0;
    assert(tags@ + whole =~= whole);
    while idx < fields.len()
        invariant
            idx <= fields@.len(),
            msg_def.wf(),
            all == field_pairs(fields@),
            groups == spec_models(msg_def.groups@),
            tags@ + outside_groups(all, idx as int, groups) == whole,
        decreases fields@.len() - idx,
    {
        let tag: u32 = fields[idx].tag;
        let ghost before = tags@;
        assert(all[idx as int].0 == tag);
        let next: usize = match find_group(&msg_def.groups, tag) {
            Some(at) => {
                assert(groups[at as int] == msg_def.groups@[at as int].model());
                end_of_group(fields, idx, &msg_def.groups[at])
            },
            None => idx + 1,
        };
        tags.push(tag);
        proof {
            let after = outside_groups(all, next as int, groups);
            assert(outside_groups(all, idx as int, groups) == seq![tag] + after);
            assert(tags@ + after =~= before + (seq![tag] + after));
        }
        idx = next;
    }
    assert(tags@ + seq![] =~= tags@);
    tags
}

/// The place of the last tag that the layout knows; -1 without one.
pub open spec fn last_place(tags: Seq<u32>, places: Map<u32, usize>) -> int
    decreases tags.len(),
{
    if tags.len() == 0 {
        -1
    } else if places.contains_key(tags.last()) {
        places[tags.last()] as int
    } else {
        last_place(tags.drop_last(), places)
    }
}

/// The tags whose place is before that of the tag ahead of them.
pub open spec fn order_findings(tags: Seq<u32>, places: Map<u32, usize>) -> Seq<Finding>
    decreases tags.len(),
{
    if tags.len() == 0 {
        seq![]
    } else {
        let before = order_findings(tags.drop_last(), places);
        let tag = tags.last();
        if places.contains_key(tag) && places[tag] < last_place(tags.drop_last(), places) {
            before.push(
                Finding { tag: Some(tag), text: "Tag "@ + decimal(tag as nat) + " out of order"@ },
            )
        } else {
            before
        }
    }
}

/// Notes the tags that stand out of the order of the layout. The entries of a group are left
/// to the group, which has an order of its own.
fn validate_field_ordering(
    fields: &Vec<FieldValue>,
    msg_def: &MessageDef,
    report: &mut ValidationReport,
)
    requires
        msg_def.wf(),
    ensures
        final(report)@ == old(report)@.with(
            order_findings(
                outside_groups(field_pairs(fields@), 0, msg_def@.groups),
                places(msg_def@.field_order),
            ),
        ),
{
    let tags = tags_outside_groups(fields, msg_def);
    let expected_order: &Vec<u32> = &msg_def.field_order;
    let ghost all = tags@;
    let ghost start = report@;
    let mut order_index: HashMap<u32, usize> = HashMap::new();
    let mut n: usize = 0;
    while n < expected_order.len()
        invariant
            n <= expected_order@.len(),
            order_index@ == places(expected_order@.take(n as int)),
        decreases expected_order@.len() - n,
    {
        assert(expected_order@.take(n + 1).drop_last() =~= expected_order@.take(n as int));
        order_index.insert(expected_order[n], n);
        n += 1;
    }
    assert(expected_order@.take(expected_order@.len() as int) =~= expected_order@);
    let ghost map = order_index@;
    let mut last: Option<usize> = None;
    let mut i: usize = 0;
    while i < tags.len()
        invariant
            i <= tags@.len(),
            all == tags@,
            map == order_index@,
            position_of(last) == last_place(all.take(i as int), map),
            report@ == start.with(order_findings(all.take(i as int), map)),
        decreases tags@.len() - i,
    {
        let ghost shorter = all.take(i as int);
        let ghost longer = all.take(i + 1);
        assert(longer.drop_last() =~= shorter);
        let tag: u32 = tags[i];
        assert(longer.last() == tag);
        if let Some(place) = order_index.get(&tag) {
            let early: bool = match last {
                Some(before) => *place < before,
                None => false,
            };
            if early {
                let mut text = copy_of("Tag ");
                push_decimal(&mut text, tag as u64);
                text.append(" out of order");
                report.note(Some(tag), text);
                assert(order_findings(longer, map).drop_last() =~= order_findings(shorter, map));
            }
            last = Some(*place);
        }
        i += 1;
    }
    assert(all.take(all.len() as int) =~= all);
}

/// A checksum as it is written: three digits; without one, what stands for it.
pub open spec fn checksum_text(sum: int) -> Seq<char> {
    if sum < 0 {
        "-01"@
    } else {
        right_aligned(decimal(sum as nat), 3, '0')
    }
}

/// What is wrong with the checksum field.
pub open spec fn checksum_findings(msg: Seq<char>, fields: Seq<FieldPair>) -> Seq<Finding> {
    let expected = checksum_text(checksum(encode_utf8(msg)));
    match value_of(fields, 10) {
        None => seq![Finding { tag: None, text: "Missing required checksum tag 10"@ }],
        Some(value) => if value == expected {
            seq![]
        } else {
            one(10, "Checksum mismatch: got "@ + value + ", expected "@ + expected)
        },
    }
}

/// The checksum of a message as three digits.
fn expected_checksum(msg: &str) -> (text: String)
    ensures
        text@ == checksum_text(checksum(encode_utf8(msg@))),
{
    let sum: i32 = calculate_checksum(msg);
    if sum < 0 {
        copy_of("-01")
    } else {
        let mut text = copy_of("");
        push_right_aligned(&mut text, decimal_text(sum as u64).as_str(), 3, '0');
        proof {
            reveal_strlit("");
            assert(text@ =~= right_aligned(decimal(sum as nat), 3, '0'));
        }
        text
    }
}

fn validate_checksum_field(msg: &str, fields: &Vec<FieldValue>, report: &mut ValidationReport)
    ensures
        final(report)@ == old(report)@.with(checksum_findings(msg@, field_pairs(fields@))),
{
    let ghost before = report@;
    match find_value(fields, 10) {
        None => {
            let text = copy_of("Missing required checksum tag 10");
            proof {
                before.lemma_with_one(Finding { tag: None, text: text@ });
            }
            report.note(None, text);
        },
        Some(value) => {
            let expected = expected_checksum(msg);
            if same(value, expected.as_str()) {
                assert(before.with(seq![]) == before);
            } else {
                let mut text = copy_of("Checksum mismatch: got ");
                text.append(value);
                text.append(", expected ");
                text.append(expected.as_str());
                proof {
                    before.lemma_with_one(Finding { tag: Some(10), text: text@ });
                }
                report.note(Some(10), text);
            }
        },
    }
}

/// What is wrong with the body length field.
pub open spec fn length_findings(msg: Seq<char>, fields: Seq<FieldPair>) -> Seq<Finding> {
    match value_of(fields, 9) {
        None => seq![Finding { tag: None, text: "Missing required BodyLength tag 9"@ }],
        Some(value) => match parsed_unsigned(value, usize::MAX as nat) {
            None => seq![
                Finding { tag: None, text: "Invalid BodyLength value '"@ + value + "'"@ },
            ],
            Some(declared) => match body_length(encode_utf8(msg)) {
                None => seq![
                    Finding { tag: None, text: "Unable to compute BodyLength from message"@ },
                ],
                Some(actual) => if declared == actual {
                    seq![]
                } else {
                    one(
                        9,
                        "BodyLength mismatch: got "@ + decimal(declared) + ", expected "@ + decimal(
                            actual as nat,
                        ),
                    )
                },
            },
        },
    }
}

fn validate_body_length(msg: &str, fields: &Vec<FieldValue>, report: &mut ValidationReport)
    ensures
        final(report)@ == old(report)@.with(length_findings(msg@, field_pairs(fields@))),
{
    let ghost before = report@;
    let value = match find_value(fields, 9) {
        None => {
            let text = copy_of("Missing required BodyLength tag 9");
            proof {
                before.lemma_with_one(Finding { tag: None, text: text@ });
            }
            report.note(None, text);
            return;
        },
        Some(value) => value,
    };
    let declared: usize = match parse_count(value) {
        None => {
            let mut text = copy_of("Invalid BodyLength value '");
            text.append(value);
            text.append("'");
            proof {
                before.lemma_with_one(Finding { tag: None, text: text@ });
            }
            report.note(None, text);
            return;
        },
        Some(declared) => declared,
    };
    match compute_actual_body_length(msg) {
        None => {
            let text = copy_of("Unable to compute BodyLength from message");
            proof {
                before.lemma_with_one(Finding { tag: None, text: text@ });
            }
            report.note(None, text);
        },
        Some(actual) => {
            if declared == actual {
                assert(before.with(seq![]) == before);
            } else {
                let mut text = copy_of("BodyLength mismatch: got ");
                push_decimal(&mut text, declared as u64);
                text.append(", expected ");
                push_decimal(&mut text, actual as u64);
                proof {
                    before.lemma_with_one(Finding { tag: Some(9), text: text@ });
                }
                report.note(Some(9), text);
            }
        },
    }
}

/// What the layout of the message adds: missing tags, order, and repeating groups.
pub open spec fn layout_findings(
    fields: Seq<FieldPair>,
    def: MessageModel,
    dict: LookupModel,
) -> Seq<Finding> {
    missing_findings(def.required, fields, dict) + order_findings(
        outside_groups(fields, 0, def.groups),
        places(def.field_order),
    ) + grouping_findings(fields, 0, def, dict)
}

/// Everything that is wrong with a message, in the order in which it is reported.
pub open spec fn findings(msg: Seq<char>, dict: LookupModel) -> Seq<Finding> {
    let fields = fields_of(msg);
    let known = layout(fields, dict);
    let duplicates = match known {
        Some(def) => message_duplicates(fields, 0, def.groups, Set::empty()),
        None => plain_duplicates(fields, dict),
    };
    let laid_out = match known {
        Some(def) => layout_findings(fields, def, dict),
        None => seq![],
    };
    type_findings(fields, dict) + duplicates + length_findings(msg, fields) + all_field_findings(
        fields,
        dict,
    ) + laid_out + checksum_findings(msg, fields)
}

/// Validates a message against a dictionary. The report lists every error in the order
/// found, and by tag.
pub fn validate_fix_message(msg: &str, dict: &FixTagLookup) -> (report: ValidationReport)
    ensures
        report@ == report_of(findings(msg@, dict.model())),
{
    let fields = parse_fix(msg);
    let ghost all = fields_of(msg@);
    let ghost dm = dict.model();
    let ghost start = ReportView::empty();
    let ghost a = type_findings(all, dm);
    let mut report = ValidationReport::new();
    let known = validate_msg_type(&fields, dict, &mut report);
    let ghost b = match layout(all, dm) {
        Some(def) => message_duplicates(all, 0, def.groups, Set::empty()),
        None => plain_duplicates(all, dm),
    };
    match known {
        Some(def) => validate_duplicate_fields(&fields, def, &mut report),
        None => validate_duplicate_fields_without_message(&fields, dict, &mut report),
    }
    let ghost c = length_findings(msg@, all);
    validate_body_length(msg, &fields, &mut report);
    let ghost d = all_field_findings(all, dm);
    validate_field_enums_and_types(&fields, dict, &mut report);
    let ghost e = match layout(all, dm) {
        Some(def) => layout_findings(all, def, dm),
        None => seq![],
    };
    let ghost before = report@;
    match known {
        Some(def) => {
            validate_required_fields(&def.required, &fields, dict, &mut report);
            validate_field_ordering(&fields, def, &mut report);
            validate_repeating_groups(&fields, def, dict, &mut report);
            proof {
                let x = missing_findings(def@.required, all, dm);
                let y = order_findings(
                    outside_groups(all, 0, def@.groups),
                    places(def@.field_order),
                );
                before.lemma_with_add(x + y, grouping_findings(all, 0, def@, dm));
                before.lemma_with_add(x, y);
            }
        },
        None => {
            assert(before.with(seq![]) == before);
        },
    }
    let ghost f = checksum_findings(msg@, all);
    validate_checksum_field(msg, &fields, &mut report);
    proof {
        start.lemma_with_add(a + b + c + d + e, f);
        start.lemma_with_add(a + b + c + d, e);
        start.lemma_with_add(a + b + c, d);
        start.lemma_with_add(a + b, c);
        start.lemma_with_add(a, b);
    }
    report
}

} // verus!
