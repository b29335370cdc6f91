//! The order in which the tags of a message are listed: header first, trailer last.
use crate::decoded::{find_first_value, first_value, Notes};
use crate::expansion::{deduped, dedupe};
use crate::fixparser::{field_pairs, FieldPair, FieldValue};
use crate::report::text_lists;
use crate::sorting::{ascending_numbers, ordered_keys};
use crate::tag_lookup::{FixTagLookup, LookupModel};
use std::collections::{HashMap, HashSet};
use vstd::prelude::*;

verus! {

broadcast use {vstd::std_specs::hash::group_hash_axioms, vstd::seq_lib::group_seq_properties};

/// The tags that open every message.
pub open spec fn header_tags() -> Seq<u32> {
    seq![8u32, 9u32, 35u32, 49u32, 56u32, 34u32, 52u32]
}

/// The tags that open every message.
pub fn canonical_header_tags() -> (tags: Vec<u32>)
    ensures
        tags@ == header_tags(),
{
    let mut tags: Vec<u32> = Vec::new();
    tags.push(8);
    tags.push(9);
    tags.push(35);
    tags.push(49);
    tags.push(56);
    tags.push(34);
    tags.push(52);
    tags
}

/// The tags of the trailer; the checksum where the dictionary has none.
pub open spec fn closing_tags(dict: LookupModel) -> Seq<u32> {
    if dict.trailer_tags().len() == 0 {
        seq![10u32]
    } else {
        dict.trailer_tags()
    }
}

/// The tags of the trailer; the checksum where the dictionary has none.
pub fn trailer_tags(dict: &FixTagLookup) -> (tags: Vec<u32>)
    ensures
        tags@ == closing_tags(dict.model()),
{
    let order = dict.trailer_tags();
    let mut tags: Vec<u32> = Vec::new();
    if order.len() == 0 {
        tags.push(10);
        return tags;
    }
    let mut i: usize = 0;
    while i < order.len()
        invariant
            i <= order@.len(),
            tags@ == order@.take(i as int),
        decreases order@.len() - i,
    {
        tags.push(order[i]);
        i += 1;
        assert(tags@ =~= order@.take(i as int));
    }
    assert(tags@ =~= order@);
    tags
}

/// The tags of the fields, in order.
pub open spec fn tags_of(fields: Seq<FieldPair>) -> Seq<u32> {
    fields.map_values(|f: FieldPair| f.0)
}

fn collect_tags(fields: &Vec<FieldValue>) -> (tags: Vec<u32>)
    ensures
        tags@ == tags_of(field_pairs(fields@)),
{
    let mut tags: Vec<u32> = Vec::new();
    let mut i: usize = 0;
    while i < fields.len()
        invariant
            i <= fields@.len(),
            tags@.len() == i,
            forall|j: int| 0 <= j < i ==> #[trigger] tags@[j] == fields@[j].tag,
        decreases fields@.len() - i,
    {
        tags.push(fields[i].tag);
        i += 1;
    }
    assert(tags@ =~= tags_of(field_pairs(fields@)));
    tags
}

/// The fields with a tag, in order.
pub open spec fn bucket(fields: Seq<FieldPair>, tag: u32) -> Seq<FieldPair>
    decreases fields.len(),
{
    if fields.len() == 0 {
        seq![]
    } else if fields.last().0 == tag {
        bucket(fields.drop_last(), tag).push(fields.last())
    } else {
        bucket(fields.drop_last(), tag)
    }
}

pub open spec fn borrowed_pairs(fields: Seq<&FieldValue>) -> Seq<FieldPair> {
    fields.map_values(|f: &FieldValue| f@)
}

/// The fields by tag, those with the same tag in order.
pub fn bucket_fields<'a>(fields: &'a Vec<FieldValue>) -> (buckets: HashMap<u32, Vec<&'a FieldValue>>)
    ensures
        forall|tag: u32| #[trigger]
            buckets@.contains_key(tag) <==> bucket(field_pairs(fields@), tag).len() > 0,
        forall|tag: u32| #[trigger]
            buckets@.contains_key(tag) ==> borrowed_pairs(buckets@[tag]@) == bucket(
                field_pairs(fields@),
                tag,
            ),
{
    let ghost all = field_pairs(fields@);
    let mut buckets: HashMap<u32, Vec<&'a FieldValue>> = HashMap::new();
    let mut i: usize = 0;
    while i < fields.len()
        invariant
            i <= fields@.len(),
            all == field_pairs(fields@),
            forall|tag: u32| #[trigger]
                buckets@.contains_key(tag) <==> bucket(all.take(i as int), tag).len() > 0,
            forall|tag: u32| #[trigger]
                buckets@.contains_key(tag) ==> borrowed_pairs(buckets@[tag]@) == bucket(
                    all.take(i as int),
                    tag,
                ),
        decreases fields@.len() - i,
    {
        let ghost shorter = all.take(i as int);
        let ghost longer = all.take(i + 1);
        assert(longer.drop_last() =~= shorter);
        assert(longer.last() == fields@[i as int]@);
        let tag: u32 = fields[i].tag;
        let ghost before = buckets@;
        let mut list: Vec<&'a FieldValue> = match buckets.remove(&tag) {
            Some(list) => list,
            None => Vec::new(),
        };
        assert(borrowed_pairs(list@) =~= bucket(shorter, tag));
        let ghost old_list = list@;
        list.push(&fields[i]);
        assert(borrowed_pairs(list@) =~= borrowed_pairs(old_list).push(fields@[i as int]@));
        buckets.insert(tag, list);
        proof {
            assert forall|t: u32| #[trigger] buckets@.contains_key(t) <==> bucket(longer, t).len()
                > 0 by {
                if t != tag {
                    assert(buckets@.contains_key(t) == before.contains_key(t));
                }
            }
            assert forall|t: u32| #[trigger] buckets@.contains_key(t) implies borrowed_pairs(
                buckets@[t]@,
            ) == bucket(longer, t) by {
                if t != tag {
                    assert(before.contains_key(t));
                    assert(buckets@[t] == before[t]);
                }
            }
        }
        i += 1;
    }
    assert(all.take(all.len() as int) =~= all);
    buckets
}

/// The order where the message type is not known: begin string, length and type, then the
/// fields as they come.
pub open spec fn plain_order(fields: Seq<FieldPair>) -> Seq<u32> {
    added(seq![8u32, 9u32, 35u32], tags_of(fields), Set::empty())
}

/// The order with those tags behind it that are not in it yet, without the excluded ones.
pub open spec fn added(order: Seq<u32>, tags: Seq<u32>, excluded: Set<u32>) -> Seq<u32>
    decreases tags.len(),
{
    if tags.len() == 0 {
        order
    } else {
        let before = added(order, tags.drop_last(), excluded);
        if excluded.contains(tags.last()) || before.contains(tags.last()) {
            before
        } else {
            before.push(tags.last())
        }
    }
}

fn holds(order: &Vec<u32>, tag: u32) -> (yes: bool)
    ensures
        yes == order@.contains(tag),
{
    let mut i: usize = 0;
    while i < order.len()
        invariant
            i <= order@.len(),
            forall|j: int| 0 <= j < i ==> order@[j] != tag,
        decreases order@.len() - i,
    {
        if order[i] == tag {
            return true;
        }
        i += 1;
    }
    false
}

fn add_tags(order: &mut Vec<u32>, tags: &Vec<u32>, excluded: &HashSet<u32>)
    ensures
        final(order)@ == added(old(order)@, tags@, excluded@),
{
    let ghost start = order@;
    let mut i: usize = 0;
    while i < tags.len()
        invariant
            i <= tags@.len(),
            order@ == added(start, tags@.take(i as int), excluded@),
        decreases tags@.len() - i,
    {
        assert(tags@.take(i + 1).drop_last() =~= tags@.take(i as int));
        let tag: u32 = tags[i];
        if !excluded.contains(&tag) && !holds(order, tag) {
            order.push(tag);
        }
        i += 1;
    }
    assert(tags@.take(tags@.len() as int) =~= tags@);
}

/// The order where the message type is not known.
pub fn fallback_field_order(fields: &Vec<FieldValue>) -> (order: Vec<u32>)
    ensures
        order@ == plain_order(field_pairs(fields@)),
{
    let mut order: Vec<u32> = Vec::new();
    order.push(8);
    order.push(9);
    order.push(35);
    assert(order@ =~= seq![8u32, 9u32, 35u32]);
    add_tags(&mut order, &collect_tags(fields), &HashSet::new());
    order
}

/// The order that the layout of the message gives, where its type is known.
pub open spec fn laid_out_order(fields: Seq<FieldPair>, dict: LookupModel) -> Option<Seq<u32>> {
    match first_value(fields, 0, 35) {
        Some(msg_type) => match dict.message_def(msg_type) {
            Some(def) => Some(def.field_order),
            None => None,
        },
        None => None,
    }
}

pub open spec fn tags_view(tags: Option<Vec<u32>>) -> Option<Seq<u32>> {
    match tags {
        Some(tags) => Some(tags@),
        None => None,
    }
}

fn copy_tags(tags: &Vec<u32>) -> (copy: Vec<u32>)
    ensures
        copy@ == tags@,
{
    let mut copy: Vec<u32> = Vec::new();
    let mut i: usize = 0;
    while i < tags.len()
        invariant
            i <= tags@.len(),
            copy@ == tags@.take(i as int),
        decreases tags@.len() - i,
    {
        copy.push(tags[i]);
        i += 1;
        assert(copy@ =~= tags@.take(i as int));
    }
    assert(copy@ =~= tags@);
    copy
}

/// The order that the layout of the message gives, where its type is known.
pub fn message_field_order(fields: &Vec<FieldValue>, dict: &FixTagLookup) -> (order: Option<
    Vec<u32>,
>)
    ensures
        tags_view(order) == laid_out_order(field_pairs(fields@), dict.model()),
{
    match find_first_value(fields, 35) {
        Some(msg_type) => match dict.message_def(msg_type) {
            Some(def) => Some(copy_tags(&def.field_order)),
            None => None,
        },
        None => None,
    }
}

/// The order to start from: that of the layout, or that of the fields.
pub open spec fn base_order(fields: Seq<FieldPair>, dict: LookupModel) -> Seq<u32> {
    deduped(
        match laid_out_order(fields, dict) {
            Some(order) => order,
            None => plain_order(fields),
        },
    )
}

/// The tags without the excluded ones.
pub open spec fn without(tags: Seq<u32>, excluded: Set<u32>) -> Seq<u32>
    decreases tags.len(),
{
    if tags.len() == 0 {
        seq![]
    } else if excluded.contains(tags.last()) {
        without(tags.drop_last(), excluded)
    } else {
        without(tags.drop_last(), excluded).push(tags.last())
    }
}

/// The tags of the trailer that come up: in the layout, among the errors, or in the fields.
pub open spec fn closing_present(
    fields: Seq<FieldPair>,
    dict: LookupModel,
    notes: Option<Notes>,
) -> Set<u32> {
    Set::new(
        |tag: u32|
            closing_tags(dict).contains(tag) && (tags_of(fields).contains(tag) || base_order(
                fields,
                dict,
            ).contains(tag) || (notes matches Some(map) && map.contains_key(tag))),
    )
}

/// The order in which the tags of a message are listed: header, layout, tags with errors,
/// further fields, and the trailer.
pub open spec fn tag_order(
    fields: Seq<FieldPair>,
    dict: LookupModel,
    notes: Option<Notes>,
) -> Seq<u32> {
    let closing = closing_tags(dict);
    let excluded = closing.to_set();
    let laid_out = header_tags() + without(
        base_order(fields, dict),
        excluded.union(header_tags().to_set()),
    );
    let noted = match notes {
        Some(map) => added(laid_out, ascending_numbers(map.dom()), excluded),
        None => laid_out,
    };
    let present = closing_present(fields, dict, notes);
    added(
        added(noted, tags_of(fields), excluded),
        closing,
        present.complement(),
    )
}

/// Adds to `present` those of the tags that belong to the trailer.
fn note_trailer(present: &mut HashSet<u32>, tags: &Vec<u32>, trailer_set: &HashSet<u32>)
    ensures
        final(present)@ == old(present)@.union(tags@.to_set().intersect(trailer_set@)),
{
    let ghost start = present@;
    let mut i: usize = 0;
    assert(start =~= start.union(tags@.take(0).to_set().intersect(trailer_set@)));
    while i < tags.len()
        invariant
            i <= tags@.len(),
            present@ == start.union(tags@.take(i as int).to_set().intersect(trailer_set@)),
        decreases tags@.len() - i,
    {
        let tag: u32 = tags[i];
        let ghost before = present@;
        assert(tags@.take(i + 1) =~= tags@.take(i as int).push(tag));
        if trailer_set.contains(&tag) {
            present.insert(tag);
        }
        assert(present@ =~= start.union(tags@.take(i + 1).to_set().intersect(trailer_set@)));
        i += 1;
    }
    assert(tags@.take(tags@.len() as int) =~= tags@);
}

/// The tags of the layout behind the header; those of the trailer are noted in `present`.
fn base_message_order(
    fields: &Vec<FieldValue>,
    dict: &FixTagLookup,
    header: &HashSet<u32>,
    trailer_set: &HashSet<u32>,
    present: &mut HashSet<u32>,
) -> (order: Vec<u32>)
    ensures
        ({
            let base = base_order(field_pairs(fields@), dict.model());
            &&& order@ == without(base, trailer_set@.union(header@))
            &&& final(present)@ == old(present)@.union(base.to_set().intersect(trailer_set@))
        }),
{
    let mut base = match message_field_order(fields, dict) {
        Some(order) => order,
        None => fallback_field_order(fields),
    };
    dedupe(&mut base);
    note_trailer(present, &base, trailer_set);
    let mut order: Vec<u32> = Vec::new();
    let ghost excluded = trailer_set@.union(header@);
    let mut i: usize = 0;
    while i < base.len()
        invariant
            i <= base@.len(),
            excluded == trailer_set@.union(header@),
            order@ == without(base@.take(i as int), excluded),
        decreases base@.len() - i,
    {
        assert(base@.take(i + 1).drop_last() =~= base@.take(i as int));
        if !trailer_set.contains(&base[i]) && !header.contains(&base[i]) {
            order.push(base[i]);
        }
        i += 1;
    }
    assert(base@.take(base@.len() as int) =~= base@);
    order
}

fn append_trailer_tags(order: &mut Vec<u32>, trailer_order: &Vec<u32>, present: &HashSet<u32>)
    ensures
        final(order)@ == added(old(order)@, trailer_order@, present@.complement()),
{
    let ghost start = order@;
    let mut i: usize = 0;
    while i < trailer_order.len()
        invariant
            i <= trailer_order@.len(),
            order@ == added(start, trailer_order@.take(i as int), present@.complement()),
        decreases trailer_order@.len() - i,
    {
        assert(trailer_order@.take(i + 1).drop_last() =~= trailer_order@.take(i as int));
        let tag: u32 = trailer_order[i];
        if present.contains(&tag) && !holds(order, tag) {
            order.push(tag);
        }
        i += 1;
    }
    assert(trailer_order@.take(trailer_order@.len() as int) =~= trailer_order@);
}

fn set_of(tags: &Vec<u32>) -> (set: HashSet<u32>)
    ensures
        set@ == tags@.to_set(),
{
    let mut set: HashSet<u32> = HashSet::new();
    let mut i: usize = 0;
    assert(set@ =~= tags@.take(0).to_set());
    while i < tags.len()
        invariant
            i <= tags@.len(),
            set@ == tags@.take(i as int).to_set(),
        decreases tags@.len() - i,
    {
        assert(tags@.take(i + 1) =~= tags@.take(i as int).push(tags@[i as int]));
        set.insert(tags[i]);
        assert(set@ =~= tags@.take(i + 1).to_set());
        i += 1;
    }
    assert(tags@.take(tags@.len() as int) =~= tags@);
    set
}

/// The order in which the tags of a message are listed: header, layout, tags with errors,
/// further fields, and the trailer.
pub fn build_tag_order(
    fields: &Vec<FieldValue>,
    dict: &FixTagLookup,
    annotations: Option<&HashMap<u32, Vec<String>>>,
) -> (order: Vec<u32>)
    ensures
        order@ == tag_order(
            field_pairs(fields@),
            dict.model(),
            crate::decoded::notes_of(annotations),
        ),
{
    let trailer_order = trailer_tags(dict);
    let trailer_set = set_of(&trailer_order);
    let tags = collect_tags(fields);
    let mut present: HashSet<u32> = HashSet::new();
    note_trailer(&mut present, &tags, &trailer_set);
    let mut order = canonical_header_tags();
    let header = set_of(&order);
    let mut base = base_message_order(fields, dict, &header, &trailer_set, &mut present);
    order.append(&mut base);
    let ghost pairs = field_pairs(fields@);
    let ghost notes = crate::decoded::notes_of(annotations);
    if let Some(map) = annotations {
        let noted = ordered_keys(map);
        assert(text_lists(map@).dom() =~= map@.dom());
        note_trailer(&mut present, &noted, &trailer_set);
        add_tags(&mut order, &noted, &trailer_set);
    }
    add_tags(&mut order, &tags, &trailer_set);
    proof {
        let wanted = closing_present(pairs, dict.model(), notes);
        assert forall|tag: u32| present@.contains(tag) == wanted.contains(tag) by {
            if let Some(map) = annotations {
                assert(map@.dom().contains(tag) == text_lists(map@).contains_key(tag));
            }
        }
        assert(present@ =~= wanted);
    }
    append_trailer_tags(&mut order, &trailer_order, &present);
    order
}

proof fn lemma_added(order: Seq<u32>, tags: Seq<u32>, excluded: Set<u32>)
    ensures
        order.is_prefix_of(added(order, tags, excluded)),
        forall|tag: u32| #[trigger] tags.contains(tag) && !excluded.contains(tag) ==> added(
            order,
            tags,
            excluded,
        ).contains(tag),
        forall|i: int|
            order.len() <= i < added(order, tags, excluded).len() ==> {
                let tag = #[trigger] added(order, tags, excluded)[i];
                tags.contains(tag) && !excluded.contains(tag)
            },
    decreases tags.len(),
{
    if tags.len() > 0 {
        let short = tags.drop_last();
        let before = added(order, short, excluded);
        let after = added(order, tags, excluded);
        lemma_added(order, short, excluded);
        assert(before.is_prefix_of(after));
        assert forall|tag: u32| #[trigger] tags.contains(tag) && !excluded.contains(
            tag,
        ) implies after.contains(tag) by {
            let k = choose|k: int| 0 <= k < tags.len() && tags[k] == tag;
            if k < short.len() {
                assert(short[k] == tag);
                assert(short.contains(tag));
                let i = choose|i: int| 0 <= i < before.len() && before[i] == tag;
                assert(after[i] == tag);
            } else if before.contains(tag) {
                let i = choose|i: int| 0 <= i < before.len() && before[i] == tag;
                assert(after[i] == tag);
            } else {
                assert(after[before.len() as int] == tag);
            }
        }
        assert forall|i: int| order.len() <= i < after.len() implies {
            let tag = #[trigger] after[i];
            tags.contains(tag) && !excluded.contains(tag)
        } by {
            if i < before.len() {
                let tag = before[i];
                assert(short.contains(tag));
                let k = choose|k: int| 0 <= k < short.len() && short[k] == tag;
                assert(tags[k] == tag);
            } else {
                assert(tags[tags.len() - 1] == after[i]);
            }
        }
    }
}

proof fn lemma_without(tags: Seq<u32>, excluded: Set<u32>)
    ensures
        forall|i: int|
            0 <= i < without(tags, excluded).len() ==> !excluded.contains(
                #[trigger] without(tags, excluded)[i],
            ),
    decreases tags.len(),
{
    if tags.len() > 0 {
        let before = without(tags.drop_last(), excluded);
        lemma_without(tags.drop_last(), excluded);
        assert forall|i: int| 0 <= i < without(tags, excluded).len() implies !excluded.contains(
            #[trigger] without(tags, excluded)[i],
        ) by {
            if i < before.len() {
                assert(without(tags, excluded)[i] == before[i]);
            }
        }
    }
}

/// The header leads the order, every field is listed, and the tags of the trailer stand at
/// the end, behind all others.
pub proof fn law_header_first_trailer_last(
    fields: Seq<FieldPair>,
    dict: LookupModel,
    notes: Option<Notes>,
) -> (start: int)
    ensures
        header_tags().is_prefix_of(tag_order(fields, dict, notes)),
        forall|tag: u32| #[trigger] tags_of(fields).contains(tag) ==> tag_order(
            fields,
            dict,
            notes,
        ).contains(tag),
        header_tags().len() <= start <= tag_order(fields, dict, notes).len(),
        forall|i: int|
            header_tags().len() <= i < start ==> !closing_tags(dict).contains(
                #[trigger] tag_order(fields, dict, notes)[i],
            ),
        forall|i: int|
            start <= i < tag_order(fields, dict, notes).len() ==> closing_tags(dict).contains(
                #[trigger] tag_order(fields, dict, notes)[i],
            ),
{
    let closing = closing_tags(dict);
    let excluded = closing.to_set();
    let header = header_tags();
    let body = without(base_order(fields, dict), excluded.union(header.to_set()));
    let laid_out = header + body;
    let noted = match notes {
        Some(map) => added(laid_out, ascending_numbers(map.dom()), excluded),
        None => laid_out,
    };
    let present = closing_present(fields, dict, notes);
    let listed = added(noted, tags_of(fields), excluded);
    let order = tag_order(fields, dict, notes);
    lemma_without(base_order(fields, dict), excluded.union(header.to_set()));
    if let Some(map) = notes {
        lemma_added(laid_out, ascending_numbers(map.dom()), excluded);
    }
    lemma_added(noted, tags_of(fields), excluded);
    lemma_added(listed, closing, present.complement());
    assert(laid_out.is_prefix_of(noted));
    assert forall|i: int| 0 <= i < header.len() implies header[i] == order[i] by {
        assert(laid_out[i] == header[i]);
        assert(noted[i] == laid_out[i]);
        assert(listed[i] == noted[i]);
    }
    assert forall|tag: u32| #[trigger] tags_of(fields).contains(tag) implies order.contains(
        tag,
    ) by {
        if closing.contains(tag) {
            assert(present.contains(tag));
        } else {
            assert(!excluded.contains(tag));
            let i = choose|i: int| 0 <= i < listed.len() && listed[i] == tag;
            assert(order[i] == tag);
        }
    }
    assert forall|i: int| header.len() <= i < listed.len() implies !closing.contains(
        #[trigger] order[i],
    ) by {
        assert(order[i] == listed[i]);
        if i < laid_out.len() {
            assert(listed[i] == noted[i] && noted[i] == laid_out[i]);
            assert(laid_out[i] == body[i - header.len()]);
        } else if i < noted.len() {
            assert(listed[i] == noted[i]);
        }
        assert(!excluded.contains(order[i]));
    }
    listed.len() as int
}

} // verus!
