//! Repeating groups: what a group's entries hold, and which tags belong to which group.
use crate::expansion::{
    component_model, deduped, dedupe, lemma_deduped, lemma_unused_push, ref_tags, unused,
    ComponentMap, TagMap,
};
use crate::schema::{
    component_refs, field_refs, group_models, ComponentDef, ComponentRefView, FieldRef,
    FieldRefView, GroupDef, GroupView, Message, MessageView,
};
use crate::text::{contains_text, copy_of, texts};
use crate::textmap::TextMap;
use std::collections::{HashMap, HashSet};
use vstd::prelude::*;

verus! {

broadcast use {vstd::std_specs::hash::group_hash_axioms, vstd::seq_lib::group_seq_properties};

/// A repeating group of a message.
#[derive(Debug)]
pub struct GroupSpec {
    pub name: String,
    /// The tag that counts the entries.
    pub count_tag: u32,
    /// The tag that opens each entry.
    pub delim: u32,
    /// The tags of an entry, each once, in dictionary order.
    pub entry_order: Vec<u32>,
    /// Where each tag stands in `entry_order`.
    pub entry_pos: HashMap<u32, usize>,
    pub entry_tag_set: HashSet<u32>,
    /// The groups inside an entry, no two with the same count tag.
    pub nested: Vec<GroupSpec>,
}

/// The mathematical content of a `GroupSpec`.
pub struct GroupModel {
    pub name: Seq<char>,
    pub count_tag: u32,
    pub delim: u32,
    pub entry_order: Seq<u32>,
    pub nested: Seq<GroupModel>,
}

impl GroupSpec {
    pub open spec fn model(self) -> GroupModel
        decreases self,
    {
        GroupModel {
            name: self.name@,
            count_tag: self.count_tag,
            delim: self.delim,
            entry_order: self.entry_order@,
            nested: Seq::new(
                self.nested@.len(),
                |i: int|
                    if 0 <= i < self.nested@.len() {
                        self.nested@[i].model()
                    } else {
                        arbitrary()
                    },
            ),
        }
    }

    /// The positions and the tag set say the same as the entry order, here and in every
    /// nested group.
    pub open spec fn wf(self) -> bool
        decreases self,
    {
        &&& positions(self.entry_order@, self.entry_pos@)
        &&& self.entry_tag_set@ == self.entry_order@.to_set()
        &&& forall|i: int| 0 <= i < self.nested@.len() ==> (#[trigger] self.nested@[i]).wf()
    }

    pub proof fn lemma_model(self)
        ensures
            self.model() == (GroupModel {
                name: self.name@,
                count_tag: self.count_tag,
                delim: self.delim,
                entry_order: self.entry_order@,
                nested: spec_models(self.nested@),
            }),
    {
        assert(self.model().nested =~= spec_models(self.nested@));
    }
}

/// `pos` gives for each tag of `order` where it stands.
pub open spec fn positions(order: Seq<u32>, pos: Map<u32, usize>) -> bool {
    &&& order.no_duplicates()
    &&& forall|tag: u32| #[trigger] pos.contains_key(tag) <==> order.contains(tag)
    &&& forall|tag: u32| #[trigger]
        pos.contains_key(tag) ==> pos[tag] < order.len() && order[pos[tag] as int] == tag
}

pub open spec fn spec_models(specs: Seq<GroupSpec>) -> Seq<GroupModel> {
    specs.map_values(|s: GroupSpec| s.model())
}

pub open spec fn all_wf(specs: Seq<GroupSpec>) -> bool {
    forall|i: int| 0 <= i < specs.len() ==> (#[trigger] specs[i]).wf()
}

/// The position of the group counted by `tag`, or the length.
pub open spec fn group_at(specs: Seq<GroupModel>, tag: u32) -> int
    decreases specs.len(),
{
    if specs.len() == 0 {
        0
    } else {
        let before = group_at(specs.drop_last(), tag);
        if before < specs.len() - 1 {
            before
        } else if specs.last().count_tag == tag {
            specs.len() - 1
        } else {
            specs.len() as int
        }
    }
}

pub open spec fn has_group(specs: Seq<GroupModel>, tag: u32) -> bool {
    group_at(specs, tag) < specs.len()
}

pub proof fn lemma_group_at(specs: Seq<GroupModel>, tag: u32)
    ensures
        0 <= group_at(specs, tag) <= specs.len(),
        has_group(specs, tag) ==> specs[group_at(specs, tag)].count_tag == tag,
        forall|i: int|
            0 <= i < group_at(specs, tag) ==> (#[trigger] specs[i]).count_tag != tag,
    decreases specs.len(),
{
    if specs.len() > 0 {
        let short = specs.drop_last();
        lemma_group_at(short, tag);
        assert forall|i: int| 0 <= i < group_at(specs, tag) implies (
        #[trigger] specs[i]).count_tag != tag by {
            if i < short.len() {
                assert(short[i] == specs[i]);
            }
        }
    }
}

/// The first of `specs` that is counted by `tag`.
pub fn find_group(specs: &Vec<GroupSpec>, tag: u32) -> (found: Option<usize>)
    ensures
        match found {
            Some(at) => at < specs@.len() && at == group_at(spec_models(specs@), tag)
                && specs@[at as int].count_tag == tag,
            None => !has_group(spec_models(specs@), tag),
        },
{
    let ghost all = spec_models(specs@);
    let mut i: usize = 0;
    proof {
        lemma_group_at(all, tag);
    }
    while i < specs.len()
        invariant
            0 <= i <= specs@.len(),
            all == spec_models(specs@),
            forall|j: int| 0 <= j < i ==> (#[trigger] all[j]).count_tag != tag,
            has_group(all, tag) ==> all[group_at(all, tag)].count_tag == tag,
            0 <= group_at(all, tag) <= all.len(),
            forall|j: int| 0 <= j < group_at(all, tag) ==> (#[trigger] all[j]).count_tag != tag,
        decreases specs@.len() - i,
    {
        assert(all[i as int].count_tag == specs@[i as int].count_tag);
        if specs[i].count_tag == tag {
            return Some(i);
        }
        i += 1;
    }
    None
}

/// Putting a group among others: one with the same count tag is replaced.
pub open spec fn replaced(specs: Seq<GroupModel>, spec: GroupModel) -> Seq<GroupModel> {
    let at = group_at(specs, spec.count_tag);
    if at < specs.len() {
        specs.update(at, spec)
    } else {
        specs.push(spec)
    }
}

fn replace_group(specs: &mut Vec<GroupSpec>, spec: GroupSpec)
    requires
        all_wf(old(specs)@),
        spec.wf(),
    ensures
        all_wf(final(specs)@),
        spec_models(final(specs)@) == replaced(spec_models(old(specs)@), spec.model()),
{
    let ghost before = specs@;
    let ghost view = spec.model();
    match find_group(specs, spec.count_tag) {
        Some(at) => {
            specs[at] = spec;
            assert(spec_models(specs@) =~= spec_models(before).update(at as int, view));
        },
        None => {
            proof {
                lemma_group_at(spec_models(before), spec.count_tag);
            }
            specs.push(spec);
            assert(spec_models(specs@) =~= spec_models(before).push(view));
        },
    }
}

/// An entry while it is put together: the tags so far and the groups inside.
pub struct EntryModel {
    pub order: Seq<u32>,
    pub nested: Seq<GroupModel>,
}

impl EntryModel {
    pub open spec fn with_tags(self, tags: Seq<u32>) -> EntryModel {
        EntryModel { order: self.order + tags, nested: self.nested }
    }

    pub open spec fn with_group(self, spec: Option<GroupModel>) -> EntryModel {
        match spec {
            Some(spec) => EntryModel {
                order: self.order.push(spec.count_tag),
                nested: replaced(self.nested, spec),
            },
            None => self,
        }
    }
}

/// The tag that opens each entry: that of the group's first field, or, where it has no field
/// of its own, of the field that its components begin with; the count tag where there is no
/// such field or its tag is unknown. `entry` is the entry before the group's own groups are
/// added. A group inside opens no entry.
pub open spec fn delimiter_of(
    fields: Seq<FieldRefView>,
    entry: EntryModel,
    names: TagMap,
    count_tag: u32,
) -> u32 {
    if fields.len() > 0 {
        if names.contains_key(fields[0].name) {
            names[fields[0].name]
        } else {
            count_tag
        }
    } else if entry.order.len() > 0 && !has_group(entry.nested, entry.order[0]) {
        entry.order[0]
    } else {
        count_tag
    }
}

/// The repeating group that a definition stands for; none where its name is no known field.
pub open spec fn group_model(
    group: GroupView,
    components: ComponentMap,
    names: TagMap,
    stack: Seq<Seq<char>>,
) -> Option<GroupModel>
    decreases unused(components, stack), 1int, group, 0int,
    when components.dom().finite()
{
    if !names.contains_key(group.name) {
        None
    } else {
        let count_tag = names[group.name];
        let fields = EntryModel { order: ref_tags(group.fields, names), nested: seq![] };
        let opened = entry_with_components(
            group.components,
            group.components.len() as int,
            components,
            names,
            stack,
            fields,
        );
        let filled = entry_with_groups(
            group.groups,
            group.groups.len() as int,
            components,
            names,
            stack,
            opened,
        );
        Some(
            GroupModel {
                name: group.name,
                count_tag,
                delim: delimiter_of(group.fields, opened, names, count_tag),
                entry_order: deduped(filled.order),
                nested: filled.nested,
            },
        )
    }
}

/// The entry with the first `n` groups added.
pub open spec fn entry_with_groups(
    groups: Seq<GroupView>,
    n: int,
    components: ComponentMap,
    names: TagMap,
    stack: Seq<Seq<char>>,
    entry: EntryModel,
) -> EntryModel
    decreases unused(components, stack), 1int, groups, n,
    when components.dom().finite()
{
    if n <= 0 || n > groups.len() {
        entry
    } else {
        entry_with_groups(groups, n - 1, components, names, stack, entry).with_group(
            group_model(groups[n - 1], components, names, stack),
        )
    }
}

/// The entry with the first `n` components added.
pub open spec fn entry_with_components(
    refs: Seq<ComponentRefView>,
    n: int,
    components: ComponentMap,
    names: TagMap,
    stack: Seq<Seq<char>>,
    entry: EntryModel,
) -> EntryModel
    decreases unused(components, stack), 0int, Seq::<GroupView>::empty(), n,
    when components.dom().finite()
{
    if n <= 0 {
        entry
    } else {
        entry_with_component(
            refs[n - 1].name,
            components,
            names,
            stack,
            entry_with_components(refs, n - 1, components, names, stack, entry),
        )
    }
}

/// The entry with one component added: its fields, then its components, then its groups.
pub open spec fn entry_with_component(
    name: Seq<char>,
    components: ComponentMap,
    names: TagMap,
    stack: Seq<Seq<char>>,
    entry: EntryModel,
) -> EntryModel
    decreases unused(components, stack), 0int, Seq::<GroupView>::empty(), 0int,
    when components.dom().finite()
    via entry_with_component_terminates
{
    if stack.contains(name) || !components.contains_key(name) {
        entry
    } else {
        let parts = components[name].parts;
        let inner = stack.push(name);
        entry_with_groups(
            parts.groups,
            parts.groups.len() as int,
            components,
            names,
            inner,
            entry_with_components(
                parts.components,
                parts.components.len() as int,
                components,
                names,
                inner,
                entry.with_tags(ref_tags(parts.fields, names)),
            ),
        )
    }
}

#[via_fn]
proof fn entry_with_component_terminates(
    name: Seq<char>,
    components: ComponentMap,
    names: TagMap,
    stack: Seq<Seq<char>>,
    entry: EntryModel,
) {
    if !stack.contains(name) && components.contains_key(name) {
        lemma_unused_push(components, stack, name);
    }
}

/// An entry while it is put together.
struct EntryParts {
    order: Vec<u32>,
    nested: Vec<GroupSpec>,
}

impl EntryParts {
    spec fn model(self) -> EntryModel {
        EntryModel { order: self.order@, nested: spec_models(self.nested@) }
    }
}

/// Appends the tags of field references.
fn append_tags(refs: &Vec<FieldRef>, name_to_tag: &TextMap<u32>, order: &mut Vec<u32>)
    ensures
        final(order)@ == old(order)@ + ref_tags(field_refs(refs@), name_to_tag@),
{
    let ghost all = field_refs(refs@);
    let ghost order0 = order@;
    let mut i: usize = 0;
    assert(order@ =~= order0 + ref_tags(all.take(0), name_to_tag@));
    while i < refs.len()
        invariant
            0 <= i <= refs@.len(),
            all == field_refs(refs@),
            order@ == order0 + ref_tags(all.take(i as int), name_to_tag@),
        decreases refs@.len() - i,
    {
        assert(all.take(i + 1).drop_last() =~= all.take(i as int));
        assert(all.take(i + 1).last() == refs@[i as int]@);
        if let Some(tag) = name_to_tag.get(refs[i].name.as_str()) {
            order.push(*tag);
            assert(order@ =~= order0 + ref_tags(all.take(i + 1), name_to_tag@));
        }
        i += 1;
    }
    assert(all.take(all.len() as int) =~= all);
}

fn add_group(entry: &mut EntryParts, spec: Option<GroupSpec>)
    requires
        all_wf(old(entry).nested@),
        spec matches Some(s) ==> s.wf(),
    ensures
        all_wf(final(entry).nested@),
        final(entry).model() == old(entry).model().with_group(
            match spec {
                Some(s) => Some(s.model()),
                None => None,
            },
        ),
{
    if let Some(spec) = spec {
        entry.order.push(spec.count_tag);
        replace_group(&mut entry.nested, spec);
    }
}

/// The positions of `order`'s tags.
fn positions_of(order: &Vec<u32>) -> (result: (HashMap<u32, usize>, HashSet<u32>))
    requires
        order@.no_duplicates(),
    ensures
        positions(order@, result.0@),
        result.1@ == order@.to_set(),
{
    let mut pos: HashMap<u32, usize> = HashMap::new();
    let mut set: HashSet<u32> = HashSet::new();
    let mut i: usize = 0;
    assert(order@.take(0) =~= seq![]);
    while i < order.len()
        invariant
            0 <= i <= order@.len(),
            order@.no_duplicates(),
            forall|tag: u32| #[trigger]
                pos@.contains_key(tag) <==> order@.take(i as int).contains(tag),
            forall|tag: u32| #[trigger]
                pos@.contains_key(tag) ==> pos@[tag] < i && order@[pos@[tag] as int] == tag,
            set@ == order@.take(i as int).to_set(),
        decreases order@.len() - i,
    {
        let tag: u32 = order[i];
        assert(order@.take(i + 1) =~= order@.take(i as int).push(tag));
        pos.insert(tag, i);
        set.insert(tag);
        assert(set@ =~= order@.take(i + 1).to_set());
        i += 1;
    }
    assert(order@.take(order@.len() as int) =~= order@);
    (pos, set)
}

/// Builds the repeating group that a definition stands for.
pub(crate) fn build_group_spec(
    group: &GroupDef,
    components: &TextMap<ComponentDef>,
    name_to_tag: &TextMap<u32>,
    stack: &mut Vec<String>,
) -> (built: Option<GroupSpec>)
    requires
        components@.dom().finite(),
    ensures
        texts(final(stack)@) == texts(old(stack)@),
        built matches Some(s) ==> s.wf(),
        (match built {
            Some(s) => Some(s.model()),
            None => None,
        }) == group_model(
            group.model(),
            component_model(components@),
            name_to_tag@,
            texts(old(stack)@),
        ),
    decreases
        unused(component_model(components@), texts(old(stack)@)),
        1int,
        group.model(),
        0int,
{
    let ghost model = component_model(components@);
    let ghost names = name_to_tag@;
    let ghost open = texts(stack@);
    let ghost view = group.model();
    proof {
        group.lemma_model();
    }
    assert(model.dom() =~= components@.dom());
    let count_tag: u32 = match name_to_tag.get(group.name.as_str()) {
        Some(tag) => *tag,
        None => {
            return None;
        },
    };
    let mut entry = EntryParts { order: Vec::new(), nested: Vec::new() };
    append_tags(&group.fields, name_to_tag, &mut entry.order);
    let ghost fields = EntryModel { order: ref_tags(view.fields, names), nested: seq![] };
    assert(entry.order@ =~= fields.order);
    assert(spec_models(entry.nested@) =~= seq![]);
    let mut i: usize = 0;
    while i < group.components.len()
        invariant
            0 <= i <= group.components@.len(),
            components@.dom().finite(),
            model == component_model(components@),
            model.dom().finite(),
            names == name_to_tag@,
            view == group.model(),
            view.components == component_refs(group.components@),
            texts(stack@) == open,
            open == texts(old(stack)@),
            all_wf(entry.nested@),
            entry.model() == entry_with_components(
                view.components,
                i as int,
                model,
                names,
                open,
                fields,
            ),
        decreases group.components@.len() - i,
    {
        append_component_fields_for_spec(
            group.components[i].name.as_str(),
            components,
            name_to_tag,
            stack,
            &mut entry,
        );
        assert(view.components[i as int].name == group.components@[i as int].name@);
        i += 1;
    }
    let delim: u32 = if group.fields.len() > 0 {
        match name_to_tag.get(group.fields[0].name.as_str()) {
            Some(tag) => *tag,
            None => count_tag,
        }
    } else if entry.order.len() > 0 && find_group(&entry.nested, entry.order[0]).is_none() {
        entry.order[0]
    } else {
        count_tag
    };
    assert(view.groups == group_models(group.groups@));
    assert(decreases_to!(view => view.groups));
    append_nested_groups(&group.groups, components, name_to_tag, stack, &mut entry);
    let ghost raw = entry.order@;
    let mut order: Vec<u32> = entry.order;
    dedupe(&mut order);
    proof {
        lemma_deduped(raw);
    }
    let (entry_pos, entry_tag_set) = positions_of(&order);
    let spec = GroupSpec {
        name: copy_of(group.name.as_str()),
        count_tag,
        delim,
        entry_order: order,
        entry_pos,
        entry_tag_set,
        nested: entry.nested,
    };
    proof {
        spec.lemma_model();
    }
    Some(spec)
}

/// Adds each of the groups to an entry.
fn append_nested_groups(
    groups: &Vec<GroupDef>,
    components: &TextMap<ComponentDef>,
    name_to_tag: &TextMap<u32>,
    stack: &mut Vec<String>,
    entry: &mut EntryParts,
)
    requires
        components@.dom().finite(),
        all_wf(old(entry).nested@),
    ensures
        texts(final(stack)@) == texts(old(stack)@),
        all_wf(final(entry).nested@),
        final(entry).model() == entry_with_groups(
            group_models(groups@),
            groups@.len() as int,
            component_model(components@),
            name_to_tag@,
            texts(old(stack)@),
            old(entry).model(),
        ),
    decreases
        unused(component_model(components@), texts(old(stack)@)),
        1int,
        group_models(groups@),
        groups@.len(),
{
    let ghost all = group_models(groups@);
    let ghost model = component_model(components@);
    let ghost names = name_to_tag@;
    let ghost open = texts(stack@);
    let ghost start = entry.model();
    let mut i: usize = 0;
    assert(model.dom() =~= components@.dom());
    while i < groups.len()
        invariant
            0 <= i <= groups@.len(),
            components@.dom().finite(),
            all == group_models(groups@),
            model == component_model(components@),
            model.dom().finite(),
            names == name_to_tag@,
            texts(stack@) == open,
            open == texts(old(stack)@),
            all_wf(entry.nested@),
            entry.model() == entry_with_groups(all, i as int, model, names, open, start),
        decreases groups@.len() - i,
    {
        assert(all[i as int] == groups@[i as int].model());
        assert(decreases_to!(all => all[i as int]));
        let built = build_group_spec(&groups[i], components, name_to_tag, stack);
        add_group(entry, built);
        i += 1;
    }
}

/// Adds what a component stands for to an entry.
fn append_component_fields_for_spec(
    name: &str,
    components: &TextMap<ComponentDef>,
    name_to_tag: &TextMap<u32>,
    stack: &mut Vec<String>,
    entry: &mut EntryParts,
)
    requires
        components@.dom().finite(),
        all_wf(old(entry).nested@),
    ensures
        texts(final(stack)@) == texts(old(stack)@),
        all_wf(final(entry).nested@),
        final(entry).model() == entry_with_component(
            name@,
            component_model(components@),
            name_to_tag@,
            texts(old(stack)@),
            old(entry).model(),
        ),
    decreases
        unused(component_model(components@), texts(old(stack)@)),
        0int,
        Seq::<GroupView>::empty(),
        0int,
{
    let ghost model = component_model(components@);
    let ghost names = name_to_tag@;
    let ghost open = texts(stack@);
    let ghost start = entry.model();
    assert(model.dom() =~= components@.dom());
    if contains_text(stack, name) {
        return ;
    }
    let comp = match components.get(name) {
        Some(comp) => comp,
        None => {
            return ;
        },
    };
    proof {
        lemma_unused_push(model, open, name@);
    }
    let ghost parts = comp@.parts;
    stack.push(copy_of(name));
    let ghost inner = open.push(name@);
    assert(texts(stack@) =~= inner);
    append_tags(&comp.fields, name_to_tag, &mut entry.order);
    let ghost fields = start.with_tags(ref_tags(parts.fields, names));
    assert(entry.model() == fields);
    let mut i: usize = 0;
    while i < comp.components.len()
        invariant
            0 <= i <= comp.components@.len(),
            components@.dom().finite(),
            model == component_model(components@),
            model.dom().finite(),
            names == name_to_tag@,
            parts == comp@.parts,
            texts(stack@) == inner,
            unused(model, inner) < unused(model, open),
            open == texts(old(stack)@),
            all_wf(entry.nested@),
            entry.model() == entry_with_components(
                parts.components,
                i as int,
                model,
                names,
                inner,
                fields,
            ),
        decreases comp.components@.len() - i,
    {
        append_component_fields_for_spec(
            comp.components[i].name.as_str(),
            components,
            name_to_tag,
            stack,
            entry,
        );
        assert(parts.components[i as int].name == comp.components@[i as int].name@);
        i += 1;
    }
    append_nested_groups(&comp.groups, components, name_to_tag, stack, entry);
    let ghost full = stack@;
    stack.pop();
    assert(texts(stack@) =~= texts(full).drop_last());
    assert(inner.drop_last() =~= open);
}

// ---------------------------------------------------------------------------
// Membership: which group a tag belongs to
// ---------------------------------------------------------------------------
/// The tags of a group's entries belong to `owner`; a nested count tag and what stands
/// under it belong to the nested group. Where a tag occurs more than once, the later counts.
pub open spec fn memberships(spec: GroupModel, owner: u32) -> Map<u32, u32>
    decreases spec, 0int,
{
    nested_memberships(
        spec.nested,
        spec.nested.len() as int,
        Map::new(|tag: u32| spec.entry_order.contains(tag), |tag: u32| owner),
    )
}

pub open spec fn nested_memberships(nested: Seq<GroupModel>, n: int, own: Map<u32, u32>) -> Map<
    u32,
    u32,
>
    decreases nested, n,
{
    if n <= 0 || n > nested.len() {
        own
    } else {
        let spec = nested[n - 1];
        nested_memberships(nested, n - 1, own).insert(
            spec.count_tag,
            spec.count_tag,
        ).union_prefer_right(memberships(spec, spec.count_tag))
    }
}

/// Adds the memberships of a group to `map`; what was there gives way.
fn collect_memberships(spec: &GroupSpec, owner: u32, map: &mut HashMap<u32, u32>)
    ensures
        final(map)@ == old(map)@.union_prefer_right(memberships(spec.model(), owner)),
    decreases spec.model(),
{
    let ghost start = map@;
    let ghost model = spec.model();
    proof {
        spec.lemma_model();
    }
    let ghost own = Map::new(|tag: u32| model.entry_order.contains(tag), |tag: u32| owner);
    let mut i: usize = 0;
    while i < spec.entry_order.len()
        invariant
            0 <= i <= spec.entry_order@.len(),
            map@ =~= start.union_prefer_right(
                Map::new(
                    |tag: u32| spec.entry_order@.take(i as int).contains(tag),
                    |tag: u32| owner,
                ),
            ),
        decreases spec.entry_order@.len() - i,
    {
        assert(spec.entry_order@.take(i + 1) =~= spec.entry_order@.take(i as int).push(
            spec.entry_order@[i as int],
        ));
        map.insert(spec.entry_order[i], owner);
        i += 1;
    }
    assert(spec.entry_order@.take(i as int) =~= spec.entry_order@);
    assert(map@ =~= start.union_prefer_right(own));
    let mut k: usize = 0;
    while k < spec.nested.len()
        invariant
            0 <= k <= spec.nested@.len(),
            model == spec.model(),
            model.nested == spec_models(spec.nested@),
            map@ == start.union_prefer_right(nested_memberships(model.nested, k as int, own)),
        decreases spec.nested@.len() - k,
    {
        let inner = &spec.nested[k];
        let ghost inner_model = inner.model();
        let ghost previous = nested_memberships(model.nested, k as int, own);
        assert(model.nested[k as int] == inner_model);
        assert(decreases_to!(model => model.nested));
        assert(decreases_to!(model.nested => model.nested[k as int]));
        map.insert(inner.count_tag, inner.count_tag);
        collect_memberships(inner, inner.count_tag, map);
        assert(map@ =~= start.union_prefer_right(
            previous.insert(inner.count_tag, inner.count_tag).union_prefer_right(
                memberships(inner_model, inner.count_tag),
            ),
        ));
        k += 1;
    }
}

/// The groups of a message, and which group each tag belongs to.
pub struct GroupsModel {
    pub specs: Seq<GroupModel>,
    pub membership: Map<u32, u32>,
}

impl GroupsModel {
    pub open spec fn nothing() -> GroupsModel {
        GroupsModel { specs: seq![], membership: Map::empty() }
    }

    /// One more group: the first with a count tag stays, but every one adds memberships.
    pub open spec fn with_group(self, spec: Option<GroupModel>) -> GroupsModel {
        match spec {
            Some(spec) => GroupsModel {
                specs: if has_group(self.specs, spec.count_tag) {
                    self.specs
                } else {
                    self.specs.push(spec)
                },
                membership: self.membership.union_prefer_right(memberships(spec, spec.count_tag)),
            },
            None => self,
        }
    }
}

/// The groups with the first `n` definitions added.
pub open spec fn with_definitions(
    groups: Seq<GroupView>,
    n: int,
    components: ComponentMap,
    names: TagMap,
    found: GroupsModel,
) -> GroupsModel
    decreases n,
{
    if n <= 0 || n > groups.len() {
        found
    } else {
        with_definitions(groups, n - 1, components, names, found).with_group(
            group_model(groups[n - 1], components, names, seq![]),
        )
    }
}

/// The groups with those of the first `n` components added.
pub open spec fn with_components(
    refs: Seq<ComponentRefView>,
    n: int,
    components: ComponentMap,
    names: TagMap,
    stack: Seq<Seq<char>>,
    found: GroupsModel,
) -> GroupsModel
    decreases unused(components, stack), n,
    when components.dom().finite()
{
    if n <= 0 {
        found
    } else {
        with_component(
            refs[n - 1].name,
            components,
            names,
            stack,
            with_components(refs, n - 1, components, names, stack, found),
        )
    }
}

/// The groups with those of one component added: its own first, then its components'.
pub open spec fn with_component(
    name: Seq<char>,
    components: ComponentMap,
    names: TagMap,
    stack: Seq<Seq<char>>,
    found: GroupsModel,
) -> GroupsModel
    decreases unused(components, stack), 0int,
    when components.dom().finite()
    via with_component_terminates
{
    if stack.contains(name) || !components.contains_key(name) {
        found
    } else {
        let parts = components[name].parts;
        with_components(
            parts.components,
            parts.components.len() as int,
            components,
            names,
            stack.push(name),
            with_definitions(parts.groups, parts.groups.len() as int, components, names, found),
        )
    }
}

#[via_fn]
proof fn with_component_terminates(
    name: Seq<char>,
    components: ComponentMap,
    names: TagMap,
    stack: Seq<Seq<char>>,
    found: GroupsModel,
) {
    if !stack.contains(name) && components.contains_key(name) {
        lemma_unused_push(components, stack, name);
    }
}

/// The groups of a message: its own, the header's, those of its components, the trailer's.
pub open spec fn message_groups(msg: MessageView, components: ComponentMap, names: TagMap)
    -> GroupsModel {
    let own = with_definitions(
        msg.parts.groups,
        msg.parts.groups.len() as int,
        components,
        names,
        GroupsModel::nothing(),
    );
    let headed = with_component("Header"@, components, names, seq![], own);
    let body = with_components(
        msg.parts.components,
        msg.parts.components.len() as int,
        components,
        names,
        seq![],
        headed,
    );
    with_component("Trailer"@, components, names, seq![], body)
}

/// The groups of a message while they are collected.
pub(crate) struct MessageGroups {
    pub specs: Vec<GroupSpec>,
    pub membership: HashMap<u32, u32>,
}

impl MessageGroups {
    pub(crate) open spec fn model(self) -> GroupsModel {
        GroupsModel { specs: spec_models(self.specs@), membership: self.membership@ }
    }
}

fn insert_group_spec(
    group: &GroupDef,
    components: &TextMap<ComponentDef>,
    name_to_tag: &TextMap<u32>,
    found: &mut MessageGroups,
)
    requires
        components@.dom().finite(),
        all_wf(old(found).specs@),
    ensures
        all_wf(final(found).specs@),
        final(found).model() == old(found).model().with_group(
            group_model(group.model(), component_model(components@), name_to_tag@, seq![]),
        ),
{
    let mut stack: Vec<String> = Vec::new();
    assert(texts(stack@) =~= seq![]);
    if let Some(spec) = build_group_spec(group, components, name_to_tag, &mut stack) {
        let ghost before = found.specs@;
        let ghost view = spec.model();
        collect_memberships(&spec, spec.count_tag, &mut found.membership);
        if find_group(&found.specs, spec.count_tag).is_none() {
            found.specs.push(spec);
            assert(spec_models(found.specs@) =~= spec_models(before).push(view));
        }
    }
}

fn insert_group_specs(
    groups: &Vec<GroupDef>,
    components: &TextMap<ComponentDef>,
    name_to_tag: &TextMap<u32>,
    found: &mut MessageGroups,
)
    requires
        components@.dom().finite(),
        all_wf(old(found).specs@),
    ensures
        all_wf(final(found).specs@),
        final(found).model() == with_definitions(
            group_models(groups@),
            groups@.len() as int,
            component_model(components@),
            name_to_tag@,
            old(found).model(),
        ),
{
    let ghost start = found.model();
    let ghost all = group_models(groups@);
    let mut i: usize = 0;
    while i < groups.len()
        invariant
            0 <= i <= groups@.len(),
            components@.dom().finite(),
            all == group_models(groups@),
            all_wf(found.specs@),
            found.model() == with_definitions(
                all,
                i as int,
                component_model(components@),
                name_to_tag@,
                start,
            ),
        decreases groups@.len() - i,
    {
        assert(all[i as int] == groups@[i as int].model());
        insert_group_spec(&groups[i], components, name_to_tag, found);
        i += 1;
    }
}

fn collect_component_group_specs(
    name: &str,
    components: &TextMap<ComponentDef>,
    name_to_tag: &TextMap<u32>,
    component_stack: &mut Vec<String>,
    found: &mut MessageGroups,
)
    requires
        components@.dom().finite(),
        all_wf(old(found).specs@),
    ensures
        texts(final(component_stack)@) == texts(old(component_stack)@),
        all_wf(final(found).specs@),
        final(found).model() == with_component(
            name@,
            component_model(components@),
            name_to_tag@,
            texts(old(component_stack)@),
            old(found).model(),
        ),
    decreases unused(component_model(components@), texts(old(component_stack)@)),
{
    let ghost model = component_model(components@);
    let ghost names = name_to_tag@;
    let ghost open = texts(component_stack@);
    assert(model.dom() =~= components@.dom());
    if contains_text(component_stack, name) {
        return ;
    }
    let component = match components.get(name) {
        Some(component) => component,
        None => {
            return ;
        },
    };
    proof {
        lemma_unused_push(model, open, name@);
    }
    let ghost parts = component@.parts;
    let ghost start = found.model();
    component_stack.push(copy_of(name));
    let ghost inner = open.push(name@);
    assert(texts(component_stack@) =~= inner);
    insert_group_specs(&component.groups, components, name_to_tag, found);
    let ghost own = found.model();
    let mut i: usize = 0;
    while i < component.components.len()
        invariant
            0 <= i <= component.components@.len(),
            components@.dom().finite(),
            model == component_model(components@),
            model.dom().finite(),
            names == name_to_tag@,
            parts == component@.parts,
            texts(component_stack@) == inner,
            unused(model, inner) < unused(model, open),
            open == texts(old(component_stack)@),
            all_wf(found.specs@),
            found.model() == with_components(
                parts.components,
                i as int,
                model,
                names,
                inner,
                own,
            ),
        decreases component.components@.len() - i,
    {
        collect_component_group_specs(
            component.components[i].name.as_str(),
            components,
            name_to_tag,
            component_stack,
            found,
        );
        assert(parts.components[i as int].name == component.components@[i as int].name@);
        i += 1;
    }
    let ghost full = component_stack@;
    component_stack.pop();
    assert(texts(component_stack@) =~= texts(full).drop_last());
    assert(inner.drop_last() =~= open);
}

/// Collects a message's repeating groups and the memberships of their tags.
pub(crate) fn collect_group_specs(
    msg: &Message,
    components: &TextMap<ComponentDef>,
    name_to_tag: &TextMap<u32>,
) -> (found: MessageGroups)
    ensures
        all_wf(found.specs@),
        found.model() == message_groups(msg@, component_model(components@), name_to_tag@),
{
    components.know_keys();
    let ghost model = component_model(components@);
    assert(model.dom() =~= components@.dom());
    let mut found = MessageGroups { specs: Vec::new(), membership: HashMap::new() };
    let mut stack: Vec<String> = Vec::new();
    let ghost none = Seq::<Seq<char>>::empty();
    assert(texts(stack@) =~= none);
    assert(spec_models(found.specs@) =~= seq![]);
    assert(found.model() == GroupsModel::nothing());
    insert_group_specs(&msg.groups, components, name_to_tag, &mut found);
    collect_component_group_specs("Header", components, name_to_tag, &mut stack, &mut found);
    let ghost headed = found.model();
    let ghost parts = msg@.parts;
    let mut i: usize = 0;
    while i < msg.components.len()
        invariant
            0 <= i <= msg.components@.len(),
            components@.dom().finite(),
            model == component_model(components@),
            model.dom().finite(),
            parts == msg@.parts,
            texts(stack@) == none,
            all_wf(found.specs@),
            found.model() == with_components(
                parts.components,
                i as int,
                model,
                name_to_tag@,
                none,
                headed,
            ),
        decreases msg.components@.len() - i,
    {
        collect_component_group_specs(
            msg.components[i].name.as_str(),
            components,
            name_to_tag,
            &mut stack,
            &mut found,
        );
        assert(parts.components[i as int].name == msg.components@[i as int].name@);
        i += 1;
    }
    collect_component_group_specs("Trailer", components, name_to_tag, &mut stack, &mut found);
    found
}

// ---------------------------------------------------------------------------
// Repeatable tags
// ---------------------------------------------------------------------------
/// Every tag of a group: its count tag, its entries' tags, and those of nested groups.
pub open spec fn group_tags(spec: GroupModel) -> Set<u32>
    decreases spec, 0int,
{
    spec.entry_order.to_set().insert(spec.count_tag).union(
        tags_of_groups(spec.nested, spec.nested.len() as int),
    )
}

/// Every tag of the first `n` groups.
pub open spec fn tags_of_groups(specs: Seq<GroupModel>, n: int) -> Set<u32>
    decreases specs, n,
{
    if n <= 0 || n > specs.len() {
        Set::empty()
    } else {
        tags_of_groups(specs, n - 1).union(group_tags(specs[n - 1]))
    }
}

/// Adds every tag of a group to `acc`.
pub(crate) fn add_group_tags(spec: &GroupSpec, acc: &mut HashSet<u32>)
    ensures
        final(acc)@ == old(acc)@.union(group_tags(spec.model())),
    decreases spec.model(),
{
    let ghost start = acc@;
    let ghost model = spec.model();
    proof {
        spec.lemma_model();
    }
    acc.insert(spec.count_tag);
    let mut i: usize = 0;
    assert(acc@ =~= start.union(
        spec.entry_order@.take(0).to_set().insert(spec.count_tag),
    ));
    while i < spec.entry_order.len()
        invariant
            0 <= i <= spec.entry_order@.len(),
            acc@ == start.union(spec.entry_order@.take(i as int).to_set().insert(spec.count_tag)),
        decreases spec.entry_order@.len() - i,
    {
        assert(spec.entry_order@.take(i + 1) =~= spec.entry_order@.take(i as int).push(
            spec.entry_order@[i as int],
        ));
        acc.insert(spec.entry_order[i]);
        assert(acc@ =~= start.union(
            spec.entry_order@.take(i + 1).to_set().insert(spec.count_tag),
        ));
        i += 1;
    }
    assert(spec.entry_order@.take(i as int) =~= spec.entry_order@);
    let ghost own = model.entry_order.to_set().insert(model.count_tag);
    let mut k: usize = 0;
    assert(acc@ =~= start.union(own.union(tags_of_groups(model.nested, 0))));
    while k < spec.nested.len()
        invariant
            0 <= k <= spec.nested@.len(),
            model == spec.model(),
            model.nested == spec_models(spec.nested@),
            acc@ == start.union(own.union(tags_of_groups(model.nested, k as int))),
        decreases spec.nested@.len() - k,
    {
        let ghost before = acc@;
        assert(model.nested[k as int] == spec.nested@[k as int].model());
        assert(decreases_to!(model => model.nested));
        assert(decreases_to!(model.nested => model.nested[k as int]));
        add_group_tags(&spec.nested[k], acc);
        assert(acc@ =~= start.union(own.union(tags_of_groups(model.nested, k + 1))));
        k += 1;
    }
}

} // verus!
