//! What holds of the entries of repeating groups that are not in order.
use crate::fixparser::FieldPair;
use crate::groups::{group_at, has_group, lemma_group_at, GroupModel};
use crate::message_laws::{law_numbers_are_what_is_spelled, spells};
use crate::report::Finding;
use crate::tag_lookup::{LookupModel, MessageModel};
use crate::validator::{
    entries_findings, entry_duplicates, entry_findings, group_findings, grouping_findings,
};
use vstd::prelude::*;

verus! {

/// Something was found about the tag.
pub open spec fn is_noted(found: Seq<Finding>, tag: u32) -> bool {
    exists|i: int| 0 <= i < found.len() && (#[trigger] found[i]).tag == Some(tag)
}

proof fn lemma_noted_add(a: Seq<Finding>, b: Seq<Finding>, tag: u32)
    ensures
        is_noted(a + b, tag) <==> is_noted(a, tag) || is_noted(b, tag),
{
    if is_noted(a, tag) {
        let i = choose|i: int| 0 <= i < a.len() && (#[trigger] a[i]).tag == Some(tag);
        assert((a + b)[i].tag == Some(tag));
    }
    if is_noted(b, tag) {
        let i = choose|i: int| 0 <= i < b.len() && (#[trigger] b[i]).tag == Some(tag);
        assert((a + b)[a.len() + i].tag == Some(tag));
    }
    if is_noted(a + b, tag) {
        let i = choose|i: int| 0 <= i < (a + b).len() && (#[trigger] (a + b)[i]).tag == Some(tag);
        if i < a.len() {
            assert(a[i].tag == Some(tag));
        } else {
            assert(b[i - a.len()].tag == Some(tag));
        }
    }
}

/// The fields from `start` to `end` are an entry of a group that has no groups inside: the
/// first opens it, the others belong to it, and what follows does not.
pub open spec fn is_entry(
    fields: Seq<FieldPair>,
    spec: GroupModel,
    start: int,
    end: int,
) -> bool {
    &&& 0 <= start < end <= fields.len()
    &&& spec.nested.len() == 0
    &&& fields[start].0 == spec.delim
    &&& forall|k: int|
        start <= k < end ==> spec.entry_order.contains((#[trigger] fields[k]).0) && (k > start
            ==> fields[k].0 != spec.delim)
    &&& end < fields.len() ==> fields[end].0 == spec.delim || !spec.entry_order.contains(
        fields[end].0,
    )
}

/// Where a tag stands in the entries of the group.
pub open spec fn place_of(spec: GroupModel, tag: u32) -> int {
    spec.entry_order.index_of(tag)
}

proof fn lemma_flat(spec: GroupModel, tag: u32)
    requires
        spec.nested.len() == 0,
    ensures
        !has_group(spec.nested, tag),
{
    lemma_group_at(spec.nested, tag);
}

proof fn lemma_entry_order(
    fields: Seq<FieldPair>,
    start: int,
    idx: int,
    end: int,
    spec: GroupModel,
    membership: Map<u32, u32>,
    dict: LookupModel,
    last: int,
)
    requires
        is_entry(fields, spec, start, end),
        start <= idx <= end,
        idx == end ==> start < idx,
    ensures
        ({
            let walk = entry_findings(fields, start, idx, spec, membership, dict, last);
            &&& walk.next == end
            &&& idx < end && place_of(spec, fields[idx].0) < last ==> is_noted(
                walk.found,
                fields[idx].0,
            )
            &&& forall|k: int|
                idx < k < end && place_of(spec, fields[k].0) < place_of(spec, fields[k - 1].0)
                    ==> is_noted(walk.found, (#[trigger] fields[k]).0)
            &&& (idx < end ==> place_of(spec, fields[idx].0) >= last) && (forall|k: int|
                idx < k < end ==> place_of(spec, (#[trigger] fields[k]).0) >= place_of(
                    spec,
                    fields[k - 1].0,
                )) ==> walk.found.len() == 0
        }),
    decreases end - idx,
{
    if idx < end {
        let tag = fields[idx].0;
        lemma_flat(spec, tag);
        let position = place_of(spec, tag);
        lemma_entry_order(fields, start, idx + 1, end, spec, membership, dict, position);
        let rest = entry_findings(fields, start, idx + 1, spec, membership, dict, position);
        let here = if position < last {
            crate::validator::one(
                tag,
                crate::validator::out_of_entry_order_text(dict, tag, spec.count_tag),
            )
        } else {
            seq![]
        };
        let walk = entry_findings(fields, start, idx, spec, membership, dict, last);
        assert(walk.found == here + rest.found);
        lemma_noted_add(here, rest.found, tag);
        if position < last {
            assert(here[0].tag == Some(tag));
        }
        assert forall|k: int| idx < k < end && place_of(spec, fields[k].0) < place_of(
            spec,
            fields[k - 1].0,
        ) implies is_noted(walk.found, (#[trigger] fields[k]).0) by {
            lemma_noted_add(here, rest.found, fields[k].0);
        }
    } else if idx < fields.len() {
        lemma_flat(spec, fields[idx].0);
    }
}

/// A tag that stands before the one ahead of it in the order of the group is noted, and an
/// entry in order has nothing noted. The entry ends where its tags end.
pub proof fn law_entries_follow_the_order(
    fields: Seq<FieldPair>,
    start: int,
    end: int,
    spec: GroupModel,
    membership: Map<u32, u32>,
    dict: LookupModel,
)
    requires
        is_entry(fields, spec, start, end),
    ensures
        ({
            let walk = entry_findings(fields, start, start, spec, membership, dict, -1);
            &&& walk.next == end
            &&& forall|k: int|
                start < k < end && place_of(spec, fields[k].0) < place_of(spec, fields[k - 1].0)
                    ==> is_noted(walk.found, (#[trigger] fields[k]).0)
            &&& (forall|k: int|
                start < k < end ==> place_of(spec, (#[trigger] fields[k]).0) >= place_of(
                    spec,
                    fields[k - 1].0,
                )) ==> walk.found.len() == 0
        }),
{
    lemma_entry_order(fields, start, start, end, spec, membership, dict, -1);
    assert(spec.entry_order.contains(fields[start].0));
    assert(place_of(spec, fields[start].0) >= 0);
}

proof fn lemma_entry_repeats(
    fields: Seq<FieldPair>,
    start: int,
    idx: int,
    end: int,
    spec: GroupModel,
    seen: Set<u32>,
)
    requires
        is_entry(fields, spec, start, end),
        start <= idx <= end,
        idx == end ==> start < idx,
    ensures
        ({
            let walk = entry_duplicates(fields, start, idx, spec, seen);
            &&& walk.next == end
            &&& forall|k: int|
                idx <= k < end && seen.contains(fields[k].0) ==> is_noted(
                    walk.found,
                    (#[trigger] fields[k]).0,
                )
            &&& forall|j: int, k: int|
                idx <= j < k < end && (#[trigger] fields[j]).0 == (#[trigger] fields[k]).0
                    ==> is_noted(walk.found, fields[k].0)
            &&& (forall|k: int| idx <= k < end ==> !seen.contains((#[trigger] fields[k]).0)) && (
            forall|j: int, k: int|
                idx <= j < k < end ==> (#[trigger] fields[j]).0 != (#[trigger] fields[k]).0)
                ==> walk.found.len() == 0
        }),
    decreases end - idx,
{
    if idx < end {
        let tag = fields[idx].0;
        lemma_flat(spec, tag);
        lemma_entry_repeats(fields, start, idx + 1, end, spec, seen.insert(tag));
        let rest = entry_duplicates(fields, start, idx + 1, spec, seen.insert(tag));
        let here = crate::validator::repeat_found(seen, tag);
        let walk = entry_duplicates(fields, start, idx, spec, seen);
        assert(walk.found == here + rest.found);
        assert forall|k: int| idx <= k < end && seen.contains(fields[k].0) implies is_noted(
            walk.found,
            (#[trigger] fields[k]).0,
        ) by {
            lemma_noted_add(here, rest.found, fields[k].0);
            if k == idx {
                assert(here[0].tag == Some(tag));
            }
        }
        assert forall|j: int, k: int|
            idx <= j < k < end && (#[trigger] fields[j]).0 == (#[trigger] fields[k]).0 implies is_noted(
            walk.found,
            fields[k].0,
        ) by {
            lemma_noted_add(here, rest.found, fields[k].0);
        }
    } else if idx < fields.len() {
        lemma_flat(spec, fields[idx].0);
    }
}

/// A tag that comes twice in an entry is noted, and an entry without such tags has nothing
/// noted. The same tag in two entries is no repeat.
pub proof fn law_entries_have_each_tag_once(
    fields: Seq<FieldPair>,
    start: int,
    end: int,
    spec: GroupModel,
)
    requires
        is_entry(fields, spec, start, end),
    ensures
        ({
            let walk = entry_duplicates(fields, start, start, spec, Set::empty());
            &&& walk.next == end
            &&& forall|j: int, k: int|
                start <= j < k < end && (#[trigger] fields[j]).0 == (#[trigger] fields[k]).0
                    ==> is_noted(walk.found, fields[k].0)
            &&& (forall|j: int, k: int|
                start <= j < k < end ==> (#[trigger] fields[j]).0 != (#[trigger] fields[k]).0)
                ==> walk.found.len() == 0
        }),
{
    lemma_entry_repeats(fields, start, start, end, spec, Set::empty());
}

/// A count that is no number is noted under its tag.
pub proof fn law_counts_are_numbers(
    fields: Seq<FieldPair>,
    start: int,
    spec: GroupModel,
    membership: Map<u32, u32>,
    dict: LookupModel,
)
    requires
        forall|n: nat| n <= usize::MAX ==> !#[trigger] spells(fields[start].1, n),
    ensures
        is_noted(group_findings(fields, start, spec, membership, dict).found, spec.count_tag),
{
    let value = fields[start].1;
    law_numbers_are_what_is_spelled(value, 0, usize::MAX as nat);
    let found = group_findings(fields, start, spec, membership, dict).found;
    assert(found[0].tag == Some(spec.count_tag));
}

/// A tag of a group that comes ahead of the one that opens its entries is noted.
pub proof fn law_entries_are_opened(
    fields: Seq<FieldPair>,
    idx: int,
    spec: GroupModel,
    membership: Map<u32, u32>,
    dict: LookupModel,
    count: nat,
    entries: nat,
)
    requires
        0 <= idx < fields.len(),
        entries < count,
        fields[idx].0 != spec.delim,
        membership.contains_key(fields[idx].0),
        membership[fields[idx].0] == spec.count_tag,
    ensures
        is_noted(
            entries_findings(fields, idx, spec, membership, dict, count, entries).found,
            fields[idx].0,
        ),
{
    let found = entries_findings(fields, idx, spec, membership, dict, count, entries).found;
    assert(found[0].tag == Some(fields[idx].0));
}

/// A tag of a group that stands outside of it is noted: with no count ahead there is no group
/// that it could belong to.
pub proof fn law_stray_tags_are_noted(
    fields: Seq<FieldPair>,
    idx: int,
    def: MessageModel,
    dict: LookupModel,
)
    requires
        0 <= idx <= fields.len(),
        forall|k: int, g: int|
            0 <= k < fields.len() && 0 <= g < def.groups.len() ==> (
            #[trigger] def.groups[g]).count_tag != (#[trigger] fields[k]).0,
    ensures
        forall|k: int|
            idx <= k < fields.len() && def.membership.contains_key(fields[k].0) ==> is_noted(
                grouping_findings(fields, idx, def, dict),
                (#[trigger] fields[k]).0,
            ),
        (forall|k: int|
            idx <= k < fields.len() ==> !def.membership.contains_key((#[trigger] fields[k]).0))
            ==> grouping_findings(fields, idx, def, dict).len() == 0,
    decreases fields.len() - idx,
{
    if idx < fields.len() {
        let tag = fields[idx].0;
        lemma_group_at(def.groups, tag);
        if has_group(def.groups, tag) {
            assert(def.groups[group_at(def.groups, tag)].count_tag == tag);
        }
        law_stray_tags_are_noted(fields, idx + 1, def, dict);
        let rest = grouping_findings(fields, idx + 1, def, dict);
        let here = if def.membership.contains_key(tag) {
            crate::validator::one(
                tag,
                crate::validator::stray_text(dict, tag, def.membership[tag]),
            )
        } else {
            seq![]
        };
        assert(grouping_findings(fields, idx, def, dict) == here + rest);
        assert forall|k: int| idx <= k < fields.len() && def.membership.contains_key(
            fields[k].0,
        ) implies is_noted(
            grouping_findings(fields, idx, def, dict),
            (#[trigger] fields[k]).0,
        ) by {
            lemma_noted_add(here, rest, fields[k].0);
            if k == idx {
                assert(here[0].tag == Some(tag));
            }
        }
    }
}

} // verus!
