//! Expanding a dictionary's messages, components and groups into tag numbers.
use crate::schema::{
    component_refs, field_refs, group_models, ComponentDef, ComponentRefView, ComponentView,
    FieldRef, FieldRefView, GroupDef, GroupView, Message, MessageView,
};
use crate::text::{contains_text, copy_of, same, texts};
use crate::textmap::TextMap;
use std::collections::HashSet;
use vstd::prelude::*;

verus! {

broadcast use {vstd::std_specs::hash::group_hash_axioms, vstd::seq_lib::group_seq_properties};

/// The components of a dictionary by name.
pub type ComponentMap = Map<Seq<char>, ComponentView>;

/// The tag numbers of a dictionary's fields by name.
pub type TagMap = Map<Seq<char>, u32>;

pub open spec fn component_model(components: Map<Seq<char>, ComponentDef>) -> ComponentMap {
    components.map_values(|c: ComponentDef| c@)
}

pub open spec fn is_required(field: FieldRefView) -> bool {
    field.required == Some("Y"@)
}

/// The tags that field references stand for, in order; unknown names are left out.
pub open spec fn ref_tags(refs: Seq<FieldRefView>, names: TagMap) -> Seq<u32>
    decreases refs.len(),
{
    if refs.len() == 0 {
        seq![]
    } else if names.contains_key(refs.last().name) {
        ref_tags(refs.drop_last(), names).push(names[refs.last().name])
    } else {
        ref_tags(refs.drop_last(), names)
    }
}

/// The tags of the references that are marked required.
pub open spec fn required_tags(refs: Seq<FieldRefView>, names: TagMap) -> Seq<u32>
    decreases refs.len(),
{
    if refs.len() == 0 {
        seq![]
    } else if names.contains_key(refs.last().name) && is_required(refs.last()) {
        required_tags(refs.drop_last(), names).push(names[refs.last().name])
    } else {
        required_tags(refs.drop_last(), names)
    }
}

/// Tags in order, which of them are required, and the components that were skipped since they
/// stand inside themselves.
#[verifier::ext_equal]
pub struct Expanded {
    pub order: Seq<u32>,
    pub required: Seq<u32>,
    pub skipped: Seq<Seq<char>>,
}

impl Expanded {
    pub open spec fn nothing() -> Expanded {
        Expanded { order: seq![], required: seq![], skipped: seq![] }
    }

    pub open spec fn followed_by(self, next: Expanded) -> Expanded {
        Expanded {
            order: self.order + next.order,
            required: self.required + next.required,
            skipped: self.skipped + next.skipped,
        }
    }

    pub open spec fn of_refs(refs: Seq<FieldRefView>, names: TagMap) -> Expanded {
        Expanded {
            order: ref_tags(refs, names),
            required: required_tags(refs, names),
            skipped: seq![],
        }
    }
}

/// How many components are not yet being expanded.
pub open spec fn unused(components: ComponentMap, stack: Seq<Seq<char>>) -> nat {
    components.dom().difference(stack.to_set()).len()
}

/// Opening one more component leaves fewer.
pub proof fn lemma_unused_push(components: ComponentMap, stack: Seq<Seq<char>>, name: Seq<char>)
    requires
        components.dom().finite(),
        components.contains_key(name),
        !stack.contains(name),
    ensures
        unused(components, stack.push(name)) < unused(components, stack),
{
    let before = components.dom().difference(stack.to_set());
    let after = components.dom().difference(stack.push(name).to_set());
    assert(stack.push(name).contains(name)) by {
        assert(stack.push(name)[stack.len() as int] == name);
    }
    assert(after =~= before.remove(name)) by {
        assert forall|k: Seq<char>| after.contains(k) == before.remove(name).contains(k) by {
            if stack.contains(k) {
                let i = choose|i: int| 0 <= i < stack.len() && stack[i] == k;
                assert(stack.push(name)[i] == k);
            }
            if stack.push(name).contains(k) && k != name {
                let i = choose|i: int| 0 <= i < stack.push(name).len() && stack.push(name)[i] == k;
                assert(stack[i] == k);
            }
        }
    }
    assert(before.contains(name));
    assert(before.finite());
}

/// What a component stands for: its fields, then its components, then its groups. One that
/// is unknown stands for nothing, and one that is already being expanded is skipped.
pub open spec fn expanded_component(
    name: Seq<char>,
    components: ComponentMap,
    names: TagMap,
    stack: Seq<Seq<char>>,
) -> Expanded
    decreases unused(components, stack), 0int, Seq::<GroupView>::empty(), 0int,
    when components.dom().finite()
    via expanded_component_terminates
{
    if stack.contains(name) {
        Expanded { skipped: seq![name], ..Expanded::nothing() }
    } else if !components.contains_key(name) {
        Expanded::nothing()
    } else {
        let parts = components[name].parts;
        let inner = stack.push(name);
        Expanded::of_refs(parts.fields, names).followed_by(
            expanded_refs(
                parts.components,
                parts.components.len() as int,
                components,
                names,
                inner,
            ),
        ).followed_by(
            expanded_groups(parts.groups, parts.groups.len() as int, components, names, inner),
        )
    }
}

#[via_fn]
proof fn expanded_component_terminates(
    name: Seq<char>,
    components: ComponentMap,
    names: TagMap,
    stack: Seq<Seq<char>>,
) {
    if !stack.contains(name) && components.contains_key(name) {
        lemma_unused_push(components, stack, name);
    }
}

/// The first `n` component references, one after the other.
pub open spec fn expanded_refs(
    refs: Seq<ComponentRefView>,
    n: int,
    components: ComponentMap,
    names: TagMap,
    stack: Seq<Seq<char>>,
) -> Expanded
    decreases unused(components, stack), 0int, Seq::<GroupView>::empty(), n,
    when components.dom().finite()
{
    if n <= 0 {
        Expanded::nothing()
    } else {
        expanded_refs(refs, n - 1, components, names, stack).followed_by(
            expanded_component(refs[n - 1].name, components, names, stack),
        )
    }
}

/// The first `n` groups, each with its fields, then its components, then its groups.
pub open spec fn expanded_groups(
    groups: Seq<GroupView>,
    n: int,
    components: ComponentMap,
    names: TagMap,
    stack: Seq<Seq<char>>,
) -> Expanded
    decreases unused(components, stack), 1int, groups, n,
    when components.dom().finite()
{
    if n <= 0 || n > groups.len() {
        Expanded::nothing()
    } else {
        let group = groups[n - 1];
        expanded_groups(groups, n - 1, components, names, stack).followed_by(
            Expanded::of_refs(group.fields, names),
        ).followed_by(
            expanded_refs(
                group.components,
                group.components.len() as int,
                components,
                names,
                stack,
            ),
        ).followed_by(
            expanded_groups(group.groups, group.groups.len() as int, components, names, stack),
        )
    }
}

/// `values` without repeats; the first of each stays.
pub open spec fn deduped(values: Seq<u32>) -> Seq<u32>
    decreases values.len(),
{
    if values.len() == 0 {
        seq![]
    } else if values.drop_last().contains(values.last()) {
        deduped(values.drop_last())
    } else {
        deduped(values.drop_last()).push(values.last())
    }
}

pub proof fn lemma_deduped(values: Seq<u32>)
    ensures
        deduped(values).to_set() == values.to_set(),
        deduped(values).no_duplicates(),
        deduped(values).len() <= values.len(),
        forall|v: u32| deduped(values).contains(v) <==> values.contains(v),
    decreases values.len(),
{
    if values.len() > 0 {
        let short = values.drop_last();
        lemma_deduped(short);
        assert forall|v: u32| deduped(values).contains(v) <==> values.contains(v) by {
            if values.contains(v) {
                let i = choose|i: int| 0 <= i < values.len() && values[i] == v;
                if i < short.len() {
                    assert(short[i] == v);
                    assert(short.contains(v));
                    assert(deduped(short).contains(v));
                    let j = choose|j: int| 0 <= j < deduped(short).len() && deduped(short)[j] == v;
                    if !short.contains(values.last()) {
                        assert(deduped(values)[j] == v);
                    }
                } else if !short.contains(values.last()) {
                    assert(deduped(values)[deduped(short).len() as int] == v);
                }
            }
            if deduped(values).contains(v) {
                let j = choose|j: int| 0 <= j < deduped(values).len() && deduped(values)[j] == v;
                if j < deduped(short).len() {
                    assert(deduped(short)[j] == v);
                    assert(short.contains(v));
                    let i = choose|i: int| 0 <= i < short.len() && short[i] == v;
                    assert(values[i] == v);
                } else {
                    assert(values[values.len() - 1] == v);
                }
            }
        }
    }
    assert(deduped(values).to_set() =~= values.to_set());
}

/// Removes repeats; the first of each stays.
pub fn dedupe(values: &mut Vec<u32>)
    ensures
        final(values)@ == deduped(old(values)@),
{
    let ghost all = values@;
    let mut seen: HashSet<u32> = HashSet::new();
    let mut kept: Vec<u32> = Vec::new();
    let mut i: usize = 0;
    assert(all.take(0) =~= seq![]);
    while i < values.len()
        invariant
            0 <= i <= values@.len(),
            values@ == all,
            kept@ == deduped(all.take(i as int)),
            seen@ == all.take(i as int).to_set(),
        decreases values@.len() - i,
    {
        let v: u32 = values[i];
        assert(all.take(i + 1).drop_last() =~= all.take(i as int));
        assert(all.take(i + 1).last() == v);
        assert(all.take(i + 1) =~= all.take(i as int).push(v));
        if seen.insert(v) {
            kept.push(v);
        }
        assert(seen@ =~= all.take(i + 1).to_set());
        i += 1;
    }
    assert(all.take(all.len() as int) =~= all);
    *values = kept;
}

/// Appends the tags of field references.
fn append_field_refs(
    refs: &Vec<FieldRef>,
    name_to_tag: &TextMap<u32>,
    order: &mut Vec<u32>,
    required: &mut Vec<u32>,
)
    ensures
        final(order)@ == old(order)@ + ref_tags(field_refs(refs@), name_to_tag@),
        final(required)@ == old(required)@ + required_tags(field_refs(refs@), name_to_tag@),
{
    let ghost all = field_refs(refs@);
    let ghost order0 = order@;
    let ghost required0 = required@;
    let mut i: usize = 0;
    assert(order@ =~= order0 + ref_tags(all.take(0), name_to_tag@));
    assert(required@ =~= required0 + required_tags(all.take(0), name_to_tag@));
    while i < refs.len()
        invariant
            0 <= i <= refs@.len(),
            all == field_refs(refs@),
            order@ == order0 + ref_tags(all.take(i as int), name_to_tag@),
            required@ == required0 + required_tags(all.take(i as int), name_to_tag@),
        decreases refs@.len() - i,
    {
        let field = &refs[i];
        let ghost o = order@;
        let ghost r = required@;
        assert(all.take(i + 1).drop_last() =~= all.take(i as int));
        assert(all.take(i + 1).last() == field@);
        if let Some(tag) = name_to_tag.get(field.name.as_str()) {
            order.push(*tag);
            let needed: bool = match &field.required {
                Some(mark) => same(mark.as_str(), "Y"),
                None => false,
            };
            if needed {
                required.push(*tag);
                assert(required@ =~= required0 + required_tags(all.take(i + 1), name_to_tag@));
            }
            assert(order@ =~= order0 + ref_tags(all.take(i + 1), name_to_tag@));
        }
        i += 1;
    }
    assert(all.take(all.len() as int) =~= all);
}

pub open spec fn extends(
    before: (Seq<u32>, Seq<u32>, Seq<Seq<char>>),
    after: (Seq<u32>, Seq<u32>, Seq<Seq<char>>),
    by: Expanded,
) -> bool {
    &&& after.0 == before.0 + by.order
    &&& after.1 == before.1 + by.required
    &&& after.2 == before.2 + by.skipped
}

/// Appends what a component stands for.
pub(crate) fn append_component_fields(
    name: &str,
    components: &TextMap<ComponentDef>,
    name_to_tag: &TextMap<u32>,
    stack: &mut Vec<String>,
    order: &mut Vec<u32>,
    required: &mut Vec<u32>,
    skipped: &mut Vec<String>,
)
    requires
        components@.dom().finite(),
    ensures
        texts(final(stack)@) == texts(old(stack)@),
        extends(
            (old(order)@, old(required)@, texts(old(skipped)@)),
            (final(order)@, final(required)@, texts(final(skipped)@)),
            expanded_component(
                name@,
                component_model(components@),
                name_to_tag@,
                texts(old(stack)@),
            ),
        ),
    decreases
        unused(component_model(components@), texts(old(stack)@)),
        0int,
        Seq::<GroupView>::empty(),
        0int,
{
    let ghost model = component_model(components@);
    let ghost names = name_to_tag@;
    let ghost open = texts(stack@);
    let ghost start = (order@, required@, texts(skipped@));
    assert(model.dom() =~= components@.dom());
    if contains_text(stack, name) {
        skipped.push(copy_of(name));
        assert(order@ =~= start.0 + Seq::<u32>::empty());
        assert(required@ =~= start.1 + Seq::<u32>::empty());
        assert(texts(skipped@) =~= start.2 + seq![name@]);
        return ;
    }
    let comp = match components.get(name) {
        Some(comp) => comp,
        None => {
            assert(order@ =~= start.0 + Seq::<u32>::empty());
            assert(required@ =~= start.1 + Seq::<u32>::empty());
            assert(texts(skipped@) =~= start.2 + Seq::<Seq<char>>::empty());
            return ;
        },
    };
    proof {
        lemma_unused_push(model, open, name@);
    }
    let ghost parts = comp@.parts;
    let ghost stack0 = stack@;
    stack.push(copy_of(name));
    let ghost inner = open.push(name@);
    assert(texts(stack@) =~= inner);
    append_field_refs(&comp.fields, name_to_tag, order, required);
    let ghost after_fields = Expanded::of_refs(parts.fields, names);
    let mut i: usize = 0;
    assert(order@ =~= start.0 + after_fields.followed_by(
        expanded_refs(parts.components, 0, model, names, inner),
    ).order);
    assert(required@ =~= start.1 + after_fields.followed_by(
        expanded_refs(parts.components, 0, model, names, inner),
    ).required);
    assert(texts(skipped@) =~= start.2 + after_fields.followed_by(
        expanded_refs(parts.components, 0, model, names, inner),
    ).skipped);
    while i < comp.components.len()
        invariant
            0 <= i <= comp.components@.len(),
            components@.dom().finite(),
            model == component_model(components@),
            model.dom().finite(),
            names == name_to_tag@,
            texts(stack@) == inner,
            parts == comp@.parts,
            unused(model, inner) < unused(model, open),
            open == texts(old(stack)@),
            extends(
                start,
                (order@, required@, texts(skipped@)),
                after_fields.followed_by(
                    expanded_refs(parts.components, i as int, model, names, inner),
                ),
            ),
        decreases comp.components@.len() - i,
    {
        let ghost before = (order@, required@, texts(skipped@));
        append_component_fields(
            comp.components[i].name.as_str(),
            components,
            name_to_tag,
            stack,
            order,
            required,
            skipped,
        );
        assert(parts.components[i as int].name == comp.components@[i as int].name@);
        let ghost more = after_fields.followed_by(
            expanded_refs(parts.components, i + 1, model, names, inner),
        );
        assert(order@ =~= start.0 + more.order);
        assert(required@ =~= start.1 + more.required);
        assert(texts(skipped@) =~= start.2 + more.skipped);
        i += 1;
    }
    let ghost after_components = after_fields.followed_by(
        expanded_refs(parts.components, parts.components.len() as int, model, names, inner),
    );
    let ghost before = (order@, required@, texts(skipped@));
    append_groups(&comp.groups, components, name_to_tag, stack, order, required, skipped);
    assert(order@ =~= start.0 + expanded_component(name@, model, names, open).order);
    assert(required@ =~= start.1 + expanded_component(name@, model, names, open).required);
    assert(texts(skipped@) =~= start.2 + expanded_component(name@, model, names, open).skipped);
    let ghost full = stack@;
    stack.pop();
    assert(texts(stack@) =~= texts(full).drop_last());
    assert(inner.drop_last() =~= open);
}

/// Appends what each of the groups stands for.
fn append_groups(
    groups: &Vec<GroupDef>,
    components: &TextMap<ComponentDef>,
    name_to_tag: &TextMap<u32>,
    stack: &mut Vec<String>,
    order: &mut Vec<u32>,
    required: &mut Vec<u32>,
    skipped: &mut Vec<String>,
)
    requires
        components@.dom().finite(),
    ensures
        texts(final(stack)@) == texts(old(stack)@),
        extends(
            (old(order)@, old(required)@, texts(old(skipped)@)),
            (final(order)@, final(required)@, texts(final(skipped)@)),
            expanded_groups(
                group_models(groups@),
                groups@.len() as int,
                component_model(components@),
                name_to_tag@,
                texts(old(stack)@),
            ),
        ),
    decreases
        unused(component_model(components@), texts(old(stack)@)),
        1int,
        group_models(groups@),
        groups@.len(),
{
    let ghost all = group_models(groups@);
    let ghost model = component_model(components@);
    let ghost names = name_to_tag@;
    let ghost open = texts(stack@);
    let ghost start = (order@, required@, texts(skipped@));
    let mut i: usize = 0;
    assert(model.dom() =~= components@.dom());
    assert(order@ =~= start.0 + expanded_groups(all, 0, model, names, open).order);
    assert(required@ =~= start.1 + expanded_groups(all, 0, model, names, open).required);
    assert(texts(skipped@) =~= start.2 + expanded_groups(all, 0, model, names, open).skipped);
    while i < groups.len()
        invariant
            0 <= i <= groups@.len(),
            components@.dom().finite(),
            all == group_models(groups@),
            model == component_model(components@),
            model.dom().finite(),
            names == name_to_tag@,
            texts(stack@) == open,
            open == texts(old(stack)@),
            extends(
                start,
                (order@, required@, texts(skipped@)),
                expanded_groups(all, i as int, model, names, open),
            ),
        decreases groups@.len() - i,
    {
        let ghost before = (order@, required@, texts(skipped@));
        proof {
            groups@[i as int].lemma_model();
            assert(all[i as int] == groups@[i as int].model());
        }
        append_group_fields(&groups[i], components, name_to_tag, stack, order, required, skipped);
        let ghost more = expanded_groups(all, i + 1, model, names, open);
        assert(order@ =~= start.0 + more.order);
        assert(required@ =~= start.1 + more.required);
        assert(texts(skipped@) =~= start.2 + more.skipped);
        i += 1;
    }
}

/// What one group stands for.
pub open spec fn expanded_group(
    group: GroupView,
    components: ComponentMap,
    names: TagMap,
    stack: Seq<Seq<char>>,
) -> Expanded {
    Expanded::of_refs(group.fields, names).followed_by(
        expanded_refs(group.components, group.components.len() as int, components, names, stack),
    ).followed_by(
        expanded_groups(group.groups, group.groups.len() as int, components, names, stack),
    )
}

/// Appends what a group stands for: its fields, then its components, then its groups.
pub(crate) fn append_group_fields(
    group: &GroupDef,
    components: &TextMap<ComponentDef>,
    name_to_tag: &TextMap<u32>,
    stack: &mut Vec<String>,
    order: &mut Vec<u32>,
    required: &mut Vec<u32>,
    skipped: &mut Vec<String>,
)
    requires
        components@.dom().finite(),
    ensures
        texts(final(stack)@) == texts(old(stack)@),
        extends(
            (old(order)@, old(required)@, texts(old(skipped)@)),
            (final(order)@, final(required)@, texts(final(skipped)@)),
            expanded_group(
                group.model(),
                component_model(components@),
                name_to_tag@,
                texts(old(stack)@),
            ),
        ),
    decreases
        unused(component_model(components@), texts(old(stack)@)),
        1int,
        group.model(),
        0int,
{
    let ghost model = component_model(components@);
    let ghost names = name_to_tag@;
    let ghost open = texts(stack@);
    let ghost start = (order@, required@, texts(skipped@));
    let ghost view = group.model();
    proof {
        group.lemma_model();
    }
    assert(model.dom() =~= components@.dom());
    append_field_refs(&group.fields, name_to_tag, order, required);
    let ghost after_fields = Expanded::of_refs(view.fields, names);
    let mut i: usize = 0;
    assert(order@ =~= start.0 + after_fields.followed_by(
        expanded_refs(view.components, 0, model, names, open),
    ).order);
    assert(required@ =~= start.1 + after_fields.followed_by(
        expanded_refs(view.components, 0, model, names, open),
    ).required);
    assert(texts(skipped@) =~= start.2 + after_fields.followed_by(
        expanded_refs(view.components, 0, model, names, open),
    ).skipped);
    while i < group.components.len()
        invariant
            0 <= i <= group.components@.len(),
            components@.dom().finite(),
            model == component_model(components@),
            model.dom().finite(),
            names == name_to_tag@,
            view == group.model(),
            view.components == component_refs(group.components@),
            texts(stack@) == open,
            open == texts(old(stack)@),
            extends(
                start,
                (order@, required@, texts(skipped@)),
                after_fields.followed_by(
                    expanded_refs(view.components, i as int, model, names, open),
                ),
            ),
        decreases group.components@.len() - i,
    {
        append_component_fields(
            group.components[i].name.as_str(),
            components,
            name_to_tag,
            stack,
            order,
            required,
            skipped,
        );
        assert(view.components[i as int].name == group.components@[i as int].name@);
        let ghost more = after_fields.followed_by(
            expanded_refs(view.components, i + 1, model, names, open),
        );
        assert(order@ =~= start.0 + more.order);
        assert(required@ =~= start.1 + more.required);
        assert(texts(skipped@) =~= start.2 + more.skipped);
        i += 1;
    }
    assert(view.groups == group_models(group.groups@));
    assert(decreases_to!(view => view.groups));
    append_groups(&group.groups, components, name_to_tag, stack, order, required, skipped);
    assert(order@ =~= start.0 + expanded_group(view, model, names, open).order);
    assert(required@ =~= start.1 + expanded_group(view, model, names, open).required);
    assert(texts(skipped@) =~= start.2 + expanded_group(view, model, names, open).skipped);
}

/// A message's tags: header, fields, components, groups, trailer; the required tags once each.
pub open spec fn expanded_message(
    msg: MessageView,
    components: ComponentMap,
    names: TagMap,
    include_header_trailer: bool,
) -> Expanded {
    let body = Expanded::of_refs(msg.parts.fields, names).followed_by(
        expanded_refs(
            msg.parts.components,
            msg.parts.components.len() as int,
            components,
            names,
            seq![],
        ),
    ).followed_by(
        expanded_groups(
            msg.parts.groups,
            msg.parts.groups.len() as int,
            components,
            names,
            seq![],
        ),
    );
    let whole = if include_header_trailer {
        expanded_component("Header"@, components, names, seq![]).followed_by(body).followed_by(
            expanded_component("Trailer"@, components, names, seq![]),
        )
    } else {
        body
    };
    Expanded { required: deduped(whole.required), ..whole }
}

/// A message's tags in dictionary order, those that it must have, and the components that
/// were skipped.
pub fn expand_message_fields(
    msg: &Message,
    components: &TextMap<ComponentDef>,
    name_to_tag: &TextMap<u32>,
    include_header_trailer: bool,
) -> (result: (Vec<u32>, Vec<u32>, Vec<String>))
    ensures
        ({
            let e = expanded_message(
                msg@,
                component_model(components@),
                name_to_tag@,
                include_header_trailer,
            );
            result.0@ == e.order && result.1@ == e.required && texts(result.2@) == e.skipped
        }),
{
    let ghost model = component_model(components@);
    let ghost names = name_to_tag@;
    let ghost parts = msg@.parts;
    components.know_keys();
    let mut order: Vec<u32> = Vec::new();
    let mut required: Vec<u32> = Vec::new();
    let mut skipped: Vec<String> = Vec::new();
    assert(texts(skipped@) =~= seq![]);
    let mut stack: Vec<String> = Vec::new();
    let ghost none = Seq::<Seq<char>>::empty();
    assert(texts(stack@) =~= none);
    assert(model.dom() =~= components@.dom());
    if include_header_trailer {
        append_component_fields(
            "Header",
            components,
            name_to_tag,
            &mut stack,
            &mut order,
            &mut required,
            &mut skipped,
        );
    }
    let ghost start = (order@, required@, texts(skipped@));
    append_field_refs(&msg.fields, name_to_tag, &mut order, &mut required);
    let ghost after_fields = Expanded::of_refs(parts.fields, names);
    let mut i: usize = 0;
    assert(order@ =~= start.0 + after_fields.followed_by(
        expanded_refs(parts.components, 0, model, names, none),
    ).order);
    assert(required@ =~= start.1 + after_fields.followed_by(
        expanded_refs(parts.components, 0, model, names, none),
    ).required);
    assert(texts(skipped@) =~= start.2 + after_fields.followed_by(
        expanded_refs(parts.components, 0, model, names, none),
    ).skipped);
    while i < msg.components.len()
        invariant
            0 <= i <= msg.components@.len(),
            components@.dom().finite(),
            model == component_model(components@),
            names == name_to_tag@,
            parts == msg@.parts,
            texts(stack@) == none,
            extends(
                start,
                (order@, required@, texts(skipped@)),
                after_fields.followed_by(
                    expanded_refs(parts.components, i as int, model, names, none),
                ),
            ),
            model.dom().finite(),
        decreases msg.components@.len() - i,
    {
        append_component_fields(
            msg.components[i].name.as_str(),
            components,
            name_to_tag,
            &mut stack,
            &mut order,
            &mut required,
            &mut skipped,
        );
        assert(parts.components[i as int].name == msg.components@[i as int].name@);
        let ghost more = after_fields.followed_by(
            expanded_refs(parts.components, i + 1, model, names, none),
        );
        assert(order@ =~= start.0 + more.order);
        assert(required@ =~= start.1 + more.required);
        assert(texts(skipped@) =~= start.2 + more.skipped);
        i += 1;
    }
    append_groups(
        &msg.groups,
        components,
        name_to_tag,
        &mut stack,
        &mut order,
        &mut required,
        &mut skipped,
    );
    let ghost body = after_fields.followed_by(
        expanded_refs(parts.components, parts.components.len() as int, model, names, none),
    ).followed_by(
        expanded_groups(parts.groups, parts.groups.len() as int, model, names, none),
    );
    assert(order@ =~= start.0 + body.order);
    assert(required@ =~= start.1 + body.required);
    assert(texts(skipped@) =~= start.2 + body.skipped);
    if include_header_trailer {
        append_component_fields(
            "Trailer",
            components,
            name_to_tag,
            &mut stack,
            &mut order,
            &mut required,
            &mut skipped,
        );
    }
    proof {
        let head = expanded_component("Header"@, model, names, none);
        let tail = expanded_component("Trailer"@, model, names, none);
        if include_header_trailer {
            assert(order@ =~= head.order + body.order + tail.order);
            assert(required@ =~= head.required + body.required + tail.required);
            assert(texts(skipped@) =~= head.skipped + body.skipped + tail.skipped);
        } else {
            assert(order@ =~= body.order);
            assert(required@ =~= body.required);
            assert(texts(skipped@) =~= body.skipped);
        }
    }
    dedupe(&mut required);
    (order, required, skipped)
}

} // verus!
