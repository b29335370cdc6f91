//! What holds of the layouts that a dictionary gives its messages.
use crate::decoded::Notes;
use crate::expansion::{
    deduped, expanded_component, expanded_group, expanded_groups, expanded_message, expanded_refs,
    lemma_deduped, lemma_unused_push, ref_tags, required_tags, unused, ComponentMap, Expanded,
    TagMap,
};
use crate::fixparser::FieldPair;
use crate::groups::{
    entry_with_component, entry_with_components, entry_with_groups, group_at, group_model,
    has_group, lemma_group_at, message_groups, replaced, with_component, with_components,
    with_definitions, EntryModel, GroupModel, GroupsModel,
};
use crate::schema::{
    ComponentRefView, DictionaryView, FieldRefView, FieldView, GroupView, MessageView, ValueView,
};
use crate::tag_lookup::{
    all_components, descriptions_of, enums_of, lookup_of, message_model, messages_of, names_of,
    tags_of, types_of, LookupModel,
};
use crate::tag_order::{added, tag_order, without};
use vstd::prelude::*;

verus! {

/// The reference names a field of the dictionary.
pub open spec fn names_a_field(names: TagMap) -> spec_fn(FieldRefView) -> bool {
    |field: FieldRefView| names.contains_key(field.name)
}

/// The reference names a field of the dictionary that has to be there.
pub open spec fn names_a_required_field(names: TagMap) -> spec_fn(FieldRefView) -> bool {
    |field: FieldRefView| names.contains_key(field.name) && field.required == Some("Y"@)
}

/// The tag of the field that the reference names.
pub open spec fn tag_of(names: TagMap) -> spec_fn(FieldRefView) -> u32 {
    |field: FieldRefView| names[field.name]
}

/// References stand for the tags of their fields, in order; those that name no field stand for
/// nothing, and those that are marked are the ones that have to be there.
pub proof fn law_references_stand_for_their_tags(refs: Seq<FieldRefView>, names: TagMap)
    ensures
        ref_tags(refs, names) == refs.filter(names_a_field(names)).map_values(tag_of(names)),
        required_tags(refs, names) == refs.filter(names_a_required_field(names)).map_values(
            tag_of(names),
        ),
    decreases refs.len(),
{
    reveal(Seq::filter);
    if refs.len() > 0 {
        law_references_stand_for_their_tags(refs.drop_last(), names);
    }
    assert(ref_tags(refs, names) =~= refs.filter(names_a_field(names)).map_values(tag_of(names)));
    assert(required_tags(refs, names) =~= refs.filter(names_a_required_field(names)).map_values(
        tag_of(names),
    ));
}

/// Lists one behind the other.
pub open spec fn strung(lists: Seq<Seq<u32>>) -> Seq<u32>
    decreases lists.len(),
{
    if lists.len() == 0 {
        seq![]
    } else {
        lists[0] + strung(lists.skip(1))
    }
}

proof fn lemma_strung_last(lists: Seq<Seq<u32>>)
    requires
        lists.len() > 0,
    ensures
        strung(lists) == strung(lists.drop_last()) + lists.last(),
    decreases lists.len(),
{
    if lists.len() == 1 {
        assert(lists.skip(1) =~= seq![]);
        assert(lists.drop_last() =~= seq![]);
        assert(strung(seq![]) =~= seq![]);
        assert(strung(lists) =~= strung(lists.drop_last()) + lists.last());
    } else {
        lemma_strung_last(lists.skip(1));
        assert(lists.skip(1).drop_last() =~= lists.drop_last().skip(1));
        assert(strung(lists) =~= strung(lists.drop_last()) + lists.last());
    }
}

/// The tags of the components that are referred to, one list for each.
pub open spec fn component_orders(
    refs: Seq<ComponentRefView>,
    n: int,
    components: ComponentMap,
    names: TagMap,
    stack: Seq<Seq<char>>,
) -> Seq<Seq<u32>> {
    Seq::new(n as nat, |i: int| expanded_component(refs[i].name, components, names, stack).order)
}

/// The required tags of the components that are referred to, one list for each.
pub open spec fn component_needs(
    refs: Seq<ComponentRefView>,
    n: int,
    components: ComponentMap,
    names: TagMap,
    stack: Seq<Seq<char>>,
) -> Seq<Seq<u32>> {
    Seq::new(n as nat, |i: int| expanded_component(refs[i].name, components, names, stack).required)
}

/// The tags of the groups, one list for each.
pub open spec fn group_orders(
    groups: Seq<GroupView>,
    n: int,
    components: ComponentMap,
    names: TagMap,
    stack: Seq<Seq<char>>,
) -> Seq<Seq<u32>> {
    Seq::new(n as nat, |i: int| expanded_group(groups[i], components, names, stack).order)
}

/// The required tags of the groups, one list for each.
pub open spec fn group_needs(
    groups: Seq<GroupView>,
    n: int,
    components: ComponentMap,
    names: TagMap,
    stack: Seq<Seq<char>>,
) -> Seq<Seq<u32>> {
    Seq::new(n as nat, |i: int| expanded_group(groups[i], components, names, stack).required)
}

proof fn lemma_refs(
    refs: Seq<ComponentRefView>,
    n: int,
    components: ComponentMap,
    names: TagMap,
    stack: Seq<Seq<char>>,
)
    requires
        0 <= n <= refs.len(),
        components.dom().finite(),
    ensures
        expanded_refs(refs, n, components, names, stack).order == strung(
            component_orders(refs, n, components, names, stack),
        ),
        expanded_refs(refs, n, components, names, stack).required == strung(
            component_needs(refs, n, components, names, stack),
        ),
    decreases n,
{
    let orders = component_orders(refs, n, components, names, stack);
    let needs = component_needs(refs, n, components, names, stack);
    if n > 0 {
        lemma_refs(refs, n - 1, components, names, stack);
        lemma_strung_last(orders);
        lemma_strung_last(needs);
        assert(orders.drop_last() =~= component_orders(refs, n - 1, components, names, stack));
        assert(needs.drop_last() =~= component_needs(refs, n - 1, components, names, stack));
    }
}

proof fn lemma_groups(
    groups: Seq<GroupView>,
    n: int,
    components: ComponentMap,
    names: TagMap,
    stack: Seq<Seq<char>>,
)
    requires
        0 <= n <= groups.len(),
        components.dom().finite(),
    ensures
        expanded_groups(groups, n, components, names, stack).order == strung(
            group_orders(groups, n, components, names, stack),
        ),
        expanded_groups(groups, n, components, names, stack).required == strung(
            group_needs(groups, n, components, names, stack),
        ),
    decreases n,
{
    let orders = group_orders(groups, n, components, names, stack);
    let needs = group_needs(groups, n, components, names, stack);
    if n > 0 {
        lemma_groups(groups, n - 1, components, names, stack);
        lemma_strung_last(orders);
        lemma_strung_last(needs);
        assert(orders.drop_last() =~= group_orders(groups, n - 1, components, names, stack));
        assert(needs.drop_last() =~= group_needs(groups, n - 1, components, names, stack));
        let one = expanded_group(groups[n - 1], components, names, stack);
        let before = expanded_groups(groups, n - 1, components, names, stack);
        assert(expanded_groups(groups, n, components, names, stack).order =~= before.order
            + one.order);
        assert(expanded_groups(groups, n, components, names, stack).required =~= before.required
            + one.required);
    }
}

/// What the fields, components and groups of something stand for: the fields come first, then
/// the components, one behind the other, and then the groups.
pub open spec fn laid_out(
    whole: Expanded,
    fields: Seq<FieldRefView>,
    refs: Seq<ComponentRefView>,
    groups: Seq<GroupView>,
    components: ComponentMap,
    names: TagMap,
    stack: Seq<Seq<char>>,
) -> bool {
    &&& whole.order == fields.filter(names_a_field(names)).map_values(tag_of(names)) + strung(
        component_orders(refs, refs.len() as int, components, names, stack),
    ) + strung(group_orders(groups, groups.len() as int, components, names, stack))
    &&& whole.required == fields.filter(names_a_required_field(names)).map_values(tag_of(names))
        + strung(component_needs(refs, refs.len() as int, components, names, stack)) + strung(
        group_needs(groups, groups.len() as int, components, names, stack),
    )
}

/// A component stands for its fields, then its components, then its groups. One that the
/// dictionary does not have, or that stands inside itself, stands for nothing; the latter is
/// told.
pub proof fn law_components_stand_for_their_parts(
    name: Seq<char>,
    components: ComponentMap,
    names: TagMap,
    stack: Seq<Seq<char>>,
)
    requires
        components.dom().finite(),
    ensures
        ({
            let whole = expanded_component(name, components, names, stack);
            &&& !stack.contains(name) && components.contains_key(name) ==> laid_out(
                whole,
                components[name].parts.fields,
                components[name].parts.components,
                components[name].parts.groups,
                components,
                names,
                stack.push(name),
            )
            &&& stack.contains(name) || !components.contains_key(name) ==> whole.order.len() == 0
                && whole.required.len() == 0
            &&& stack.contains(name) ==> whole.skipped == seq![name]
        }),
{
    if !stack.contains(name) && components.contains_key(name) {
        let parts = components[name].parts;
        let inner = stack.push(name);
        lemma_unused_push(components, stack, name);
        law_references_stand_for_their_tags(parts.fields, names);
        lemma_refs(parts.components, parts.components.len() as int, components, names, inner);
        lemma_groups(parts.groups, parts.groups.len() as int, components, names, inner);
    }
}

/// A group stands for its fields, then its components, then its groups.
pub proof fn law_groups_stand_for_their_parts(
    group: GroupView,
    components: ComponentMap,
    names: TagMap,
    stack: Seq<Seq<char>>,
)
    requires
        components.dom().finite(),
    ensures
        laid_out(
            expanded_group(group, components, names, stack),
            group.fields,
            group.components,
            group.groups,
            components,
            names,
            stack,
        ),
{
    law_references_stand_for_their_tags(group.fields, names);
    lemma_refs(group.components, group.components.len() as int, components, names, stack);
    lemma_groups(group.groups, group.groups.len() as int, components, names, stack);
}

/// A message stands for its fields, components and groups, with the header ahead and the
/// trailer behind where they are asked for. Each tag that has to be there is named once.
pub proof fn law_messages_stand_for_their_parts(
    msg: MessageView,
    components: ComponentMap,
    names: TagMap,
)
    requires
        components.dom().finite(),
    ensures
        ({
            let bare = expanded_message(msg, components, names, false);
            let framed = expanded_message(msg, components, names, true);
            let header = expanded_component("Header"@, components, names, seq![]);
            let trailer = expanded_component("Trailer"@, components, names, seq![]);
            &&& exists|body: Expanded|
                {
                    &&& bare.order == body.order
                    &&& framed.order == header.order + body.order + trailer.order
                    &&& #[trigger] laid_out(
                        body,
                        msg.parts.fields,
                        msg.parts.components,
                        msg.parts.groups,
                        components,
                        names,
                        seq![],
                    )
                    &&& forall|tag: u32| #[trigger]
                        bare.required.contains(tag) <==> body.required.contains(tag)
                    &&& forall|tag: u32| #[trigger]
                        framed.required.contains(tag) <==> header.required.contains(tag)
                            || body.required.contains(tag) || trailer.required.contains(tag)
                }
            &&& bare.required.no_duplicates()
            &&& framed.required.no_duplicates()
        }),
{
    let parts = msg.parts;
    let body = Expanded::of_refs(parts.fields, names).followed_by(
        expanded_refs(
            parts.components,
            parts.components.len() as int,
            components,
            names,
            seq![],
        ),
    ).followed_by(
        expanded_groups(parts.groups, parts.groups.len() as int, components, names, seq![]),
    );
    law_references_stand_for_their_tags(parts.fields, names);
    lemma_refs(parts.components, parts.components.len() as int, components, names, seq![]);
    lemma_groups(parts.groups, parts.groups.len() as int, components, names, seq![]);
    let header = expanded_component("Header"@, components, names, seq![]);
    let trailer = expanded_component("Trailer"@, components, names, seq![]);
    let all = header.required + body.required + trailer.required;
    lemma_deduped(body.required);
    lemma_deduped(all);
    assert forall|tag: u32| #[trigger] deduped(all).contains(tag) <==> header.required.contains(tag)
        || body.required.contains(tag) || trailer.required.contains(tag) by {
        lemma_contains(header.required + body.required, trailer.required, tag);
        lemma_contains(header.required, body.required, tag);
    }
    assert(laid_out(
        body,
        parts.fields,
        parts.components,
        parts.groups,
        components,
        names,
        seq![],
    ));
}

proof fn lemma_contains(a: Seq<u32>, b: Seq<u32>, tag: u32)
    ensures
        (a + b).contains(tag) <==> a.contains(tag) || b.contains(tag),
{
    if a.contains(tag) {
        let i = choose|i: int| 0 <= i < a.len() && a[i] == tag;
        assert((a + b)[i] == tag);
    }
    if b.contains(tag) {
        let i = choose|i: int| 0 <= i < b.len() && b[i] == tag;
        assert((a + b)[a.len() + i] == tag);
    }
}

/// The second list starts with the first.
pub open spec fn starts<A>(short: Seq<A>, long: Seq<A>) -> bool {
    &&& short.len() <= long.len()
    &&& forall|i: int| 0 <= i < short.len() ==> #[trigger] long[i] == short[i]
}

/// A group with the count tag is among them.
pub open spec fn counted_by(specs: Seq<GroupModel>, tag: u32) -> bool {
    exists|i: int| 0 <= i < specs.len() && (#[trigger] specs[i]).count_tag == tag
}

proof fn lemma_replaced(specs: Seq<GroupModel>, spec: GroupModel)
    ensures
        counted_by(replaced(specs, spec), spec.count_tag),
        forall|tag: u32| counted_by(specs, tag) ==> #[trigger] counted_by(
            replaced(specs, spec),
            tag,
        ),
{
    let now = replaced(specs, spec);
    let at = group_at(specs, spec.count_tag);
    lemma_group_at(specs, spec.count_tag);
    if at < specs.len() {
        assert(now[at].count_tag == spec.count_tag);
    } else {
        assert(now[specs.len() as int].count_tag == spec.count_tag);
    }
    assert forall|tag: u32| counted_by(specs, tag) implies #[trigger] counted_by(now, tag) by {
        let i = choose|i: int| 0 <= i < specs.len() && (#[trigger] specs[i]).count_tag == tag;
        assert(now[i].count_tag == tag);
    }
}

/// What an entry has, it keeps.
spec fn grows(before: EntryModel, after: EntryModel) -> bool {
    &&& starts(before.order, after.order)
    &&& forall|tag: u32|
        counted_by(before.nested, tag) ==> #[trigger] counted_by(after.nested, tag)
}

proof fn lemma_entry_groups(
    groups: Seq<GroupView>,
    n: int,
    components: ComponentMap,
    names: TagMap,
    stack: Seq<Seq<char>>,
    entry: EntryModel,
)
    requires
        components.dom().finite(),
        0 <= n <= groups.len(),
    ensures
        grows(entry, entry_with_groups(groups, n, components, names, stack, entry)),
        forall|i: int|
            0 <= i < n && names.contains_key((#[trigger] groups[i]).name) ==> ({
                let after = entry_with_groups(groups, n, components, names, stack, entry);
                after.order.contains(names[groups[i].name]) && counted_by(
                    after.nested,
                    names[groups[i].name],
                )
            }),
    decreases n,
{
    if n > 0 {
        lemma_entry_groups(groups, n - 1, components, names, stack, entry);
        let before = entry_with_groups(groups, n - 1, components, names, stack, entry);
        let after = entry_with_groups(groups, n, components, names, stack, entry);
        let model = group_model(groups[n - 1], components, names, stack);
        if let Some(spec) = model {
            lemma_replaced(before.nested, spec);
            assert(after.order[before.order.len() as int] == spec.count_tag);
        }
        assert forall|i: int| 0 <= i < n && names.contains_key(
            (#[trigger] groups[i]).name,
        ) implies after.order.contains(names[groups[i].name]) && counted_by(
            after.nested,
            names[groups[i].name],
        ) by {
            if i < n - 1 {
                let at = before.order.index_of(names[groups[i].name]);
                assert(before.order[at] == names[groups[i].name]);
                assert(after.order[at] == names[groups[i].name]);
            }
        }
    }
}

proof fn lemma_entry_components(
    refs: Seq<ComponentRefView>,
    n: int,
    components: ComponentMap,
    names: TagMap,
    stack: Seq<Seq<char>>,
    entry: EntryModel,
)
    requires
        components.dom().finite(),
    ensures
        grows(entry, entry_with_components(refs, n, components, names, stack, entry)),
    decreases unused(components, stack), n, 0int,
{
    if n > 0 {
        lemma_entry_components(refs, n - 1, components, names, stack, entry);
        lemma_entry_component(
            refs[n - 1].name,
            components,
            names,
            stack,
            entry_with_components(refs, n - 1, components, names, stack, entry),
            n,
        );
    }
}

proof fn lemma_entry_component(
    name: Seq<char>,
    components: ComponentMap,
    names: TagMap,
    stack: Seq<Seq<char>>,
    entry: EntryModel,
    n: int,
)
    requires
        components.dom().finite(),
        n > 0,
    ensures
        grows(entry, entry_with_component(name, components, names, stack, entry)),
    decreases unused(components, stack), n - 1, 1int,
{
    if !stack.contains(name) && components.contains_key(name) {
        let parts = components[name].parts;
        let inner = stack.push(name);
        lemma_unused_push(components, stack, name);
        let tagged = entry.with_tags(ref_tags(parts.fields, names));
        let count = parts.components.len() as int;
        lemma_entry_components(parts.components, count, components, names, inner, tagged);
        lemma_entry_groups(
            parts.groups,
            parts.groups.len() as int,
            components,
            names,
            inner,
            entry_with_components(parts.components, count, components, names, inner, tagged),
        );
    }
}

proof fn lemma_refs_listed(refs: Seq<FieldRefView>, names: TagMap, i: int)
    requires
        0 <= i < refs.len(),
        names.contains_key(refs[i].name),
    ensures
        ref_tags(refs, names).contains(names[refs[i].name]),
        i == 0 ==> ref_tags(refs, names)[0] == names[refs[0].name],
    decreases refs.len(),
{
    let tags = ref_tags(refs, names);
    let shorter = refs.drop_last();
    if i < shorter.len() {
        lemma_refs_listed(shorter, names, i);
        let before = ref_tags(shorter, names);
        let at = before.index_of(names[refs[i].name]);
        assert(tags[at] == before[at]);
    } else {
        assert(tags.last() == names[refs[i].name]);
        assert(tags[tags.len() - 1] == tags.last());
        if i == 0 {
            assert(shorter =~= seq![]);
            assert(ref_tags(shorter, names) =~= seq![]);
        }
    }
}

proof fn lemma_deduped_first(values: Seq<u32>)
    requires
        values.len() > 0,
    ensures
        deduped(values).len() > 0,
        deduped(values)[0] == values[0],
    decreases values.len(),
{
    if values.len() > 1 {
        lemma_deduped_first(values.drop_last());
    } else {
        assert(values.drop_last() =~= seq![]);
        assert(deduped(values.drop_last()) =~= seq![]);
    }
}

/// A group is counted by the field of its name, and there is none without such a field. Its
/// first field opens each entry. An entry has the tags of its fields and the count tags of its
/// groups, each once, the first field ahead; and its groups are inside it.
pub proof fn law_groups_follow_their_definition(
    group: GroupView,
    components: ComponentMap,
    names: TagMap,
    stack: Seq<Seq<char>>,
)
    requires
        components.dom().finite(),
    ensures
        group_model(group, components, names, stack) is Some <==> names.contains_key(group.name),
        group_model(group, components, names, stack) matches Some(spec) ==> {
            &&& spec.name == group.name
            &&& spec.count_tag == names[group.name]
            &&& spec.entry_order.no_duplicates()
            &&& group.fields.len() > 0 && names.contains_key(group.fields[0].name) ==> spec.delim
                == names[group.fields[0].name] && spec.entry_order[0] == spec.delim
            &&& forall|i: int|
                0 <= i < group.fields.len() && names.contains_key(
                    (#[trigger] group.fields[i]).name,
                ) ==> spec.entry_order.contains(names[group.fields[i].name])
            &&& forall|i: int|
                0 <= i < group.groups.len() && names.contains_key(
                    (#[trigger] group.groups[i]).name,
                ) ==> spec.entry_order.contains(names[group.groups[i].name]) && counted_by(
                    spec.nested,
                    names[group.groups[i].name],
                )
        },
{
    if names.contains_key(group.name) {
        let fields = EntryModel { order: ref_tags(group.fields, names), nested: seq![] };
        let refs = group.components.len() as int;
        let count = group.groups.len() as int;
        let opened = entry_with_components(group.components, refs, components, names, stack, fields);
        let filled = entry_with_groups(group.groups, count, components, names, stack, opened);
        lemma_entry_components(group.components, refs, components, names, stack, fields);
        lemma_entry_groups(group.groups, count, components, names, stack, opened);
        lemma_deduped(filled.order);
        assert(starts(fields.order, filled.order)) by {
            assert forall|i: int| 0 <= i < fields.order.len() implies #[trigger] filled.order[i]
                == fields.order[i] by {
                assert(opened.order[i] == fields.order[i]);
            }
        }
        assert forall|i: int| 0 <= i < group.fields.len() && names.contains_key(
            (#[trigger] group.fields[i]).name,
        ) implies deduped(filled.order).contains(names[group.fields[i].name]) by {
            lemma_refs_listed(group.fields, names, i);
            let tag = names[group.fields[i].name];
            let at = choose|at: int| 0 <= at < fields.order.len() && fields.order[at] == tag;
            assert(filled.order[at] == fields.order[at]);
            assert(filled.order.contains(tag));
        }
        if group.fields.len() > 0 && names.contains_key(group.fields[0].name) {
            lemma_refs_listed(group.fields, names, 0);
            assert(fields.order.len() > 0);
            assert(filled.order[0] == fields.order[0]);
            lemma_deduped_first(filled.order);
        }
    }
}

proof fn lemma_definitions(
    groups: Seq<GroupView>,
    n: int,
    components: ComponentMap,
    names: TagMap,
    found: GroupsModel,
)
    requires
        components.dom().finite(),
        0 <= n <= groups.len(),
    ensures
        starts(found.specs, with_definitions(groups, n, components, names, found).specs),
        forall|i: int|
            0 <= i < n && names.contains_key((#[trigger] groups[i]).name) ==> counted_by(
                with_definitions(groups, n, components, names, found).specs,
                names[groups[i].name],
            ),
    decreases n,
{
    if n > 0 {
        lemma_definitions(groups, n - 1, components, names, found);
        let before = with_definitions(groups, n - 1, components, names, found);
        let after = with_definitions(groups, n, components, names, found);
        if let Some(spec) = group_model(groups[n - 1], components, names, seq![]) {
            lemma_group_at(before.specs, spec.count_tag);
            if has_group(before.specs, spec.count_tag) {
                let at = group_at(before.specs, spec.count_tag);
                assert(after.specs[at].count_tag == spec.count_tag);
            } else {
                assert(after.specs[before.specs.len() as int] == spec);
            }
        }
        assert forall|i: int| 0 <= i < n && names.contains_key(
            (#[trigger] groups[i]).name,
        ) implies counted_by(after.specs, names[groups[i].name]) by {
            if i < n - 1 {
                let tag = names[groups[i].name];
                let j = choose|j: int|
                    0 <= j < before.specs.len() && (#[trigger] before.specs[j]).count_tag == tag;
                assert(after.specs[j].count_tag == tag);
            }
        }
    }
}

proof fn lemma_found_components(
    refs: Seq<ComponentRefView>,
    n: int,
    components: ComponentMap,
    names: TagMap,
    stack: Seq<Seq<char>>,
    found: GroupsModel,
)
    requires
        components.dom().finite(),
    ensures
        starts(found.specs, with_components(refs, n, components, names, stack, found).specs),
    decreases unused(components, stack), n, 0int,
{
    if n > 0 {
        lemma_found_components(refs, n - 1, components, names, stack, found);
        lemma_found_component(
            refs[n - 1].name,
            components,
            names,
            stack,
            with_components(refs, n - 1, components, names, stack, found),
            n,
        );
    }
}

proof fn lemma_found_component(
    name: Seq<char>,
    components: ComponentMap,
    names: TagMap,
    stack: Seq<Seq<char>>,
    found: GroupsModel,
    n: int,
)
    requires
        components.dom().finite(),
        n > 0,
    ensures
        starts(found.specs, with_component(name, components, names, stack, found).specs),
        !stack.contains(name) && components.contains_key(name) ==> forall|i: int|
            0 <= i < components[name].parts.groups.len() && names.contains_key(
                (#[trigger] components[name].parts.groups[i]).name,
            ) ==> counted_by(
                with_component(name, components, names, stack, found).specs,
                names[components[name].parts.groups[i].name],
            ),
    decreases unused(components, stack), n - 1, 1int,
{
    if !stack.contains(name) && components.contains_key(name) {
        let parts = components[name].parts;
        lemma_unused_push(components, stack, name);
        let count = parts.groups.len() as int;
        let own = with_definitions(parts.groups, count, components, names, found);
        lemma_definitions(parts.groups, count, components, names, found);
        lemma_found_components(
            parts.components,
            parts.components.len() as int,
            components,
            names,
            stack.push(name),
            own,
        );
        let after = with_component(name, components, names, stack, found);
        assert forall|i: int| 0 <= i < count && names.contains_key(
            (#[trigger] parts.groups[i]).name,
        ) implies counted_by(after.specs, names[parts.groups[i].name]) by {
            let tag = names[parts.groups[i].name];
            let j = choose|j: int|
                0 <= j < own.specs.len() && (#[trigger] own.specs[j]).count_tag == tag;
            assert(after.specs[j].count_tag == tag);
        }
    }
}

/// The groups of a message are known: those of its own, first ahead, those of its header and
/// its trailer, and those of its components.
pub proof fn law_messages_know_their_groups(
    msg: MessageView,
    components: ComponentMap,
    names: TagMap,
)
    requires
        components.dom().finite(),
    ensures
        ({
            let specs = message_groups(msg, components, names).specs;
            let own = msg.parts.groups;
            &&& forall|i: int|
                0 <= i < own.len() && names.contains_key((#[trigger] own[i]).name) ==> counted_by(
                    specs,
                    names[own[i].name],
                )
            &&& own.len() > 0 && names.contains_key(own[0].name) ==> Some(specs[0]) == group_model(
                own[0],
                components,
                names,
                seq![],
            )
            &&& forall|name: Seq<char>, i: int|
                (name == "Header"@ || name == "Trailer"@) && #[trigger] components.contains_key(
                    name,
                ) && 0 <= i < components[name].parts.groups.len() && names.contains_key(
                    (#[trigger] components[name].parts.groups[i]).name,
                ) ==> counted_by(specs, names[components[name].parts.groups[i].name])
        }),
{
    let own = msg.parts.groups;
    let nothing = GroupsModel::nothing();
    let mine = with_definitions(own, own.len() as int, components, names, nothing);
    let headed = with_component("Header"@, components, names, seq![], mine);
    let refs = msg.parts.components;
    let body = with_components(refs, refs.len() as int, components, names, seq![], headed);
    let whole = with_component("Trailer"@, components, names, seq![], body);
    lemma_definitions(own, own.len() as int, components, names, nothing);
    lemma_found_component("Header"@, components, names, seq![], mine, 1);
    lemma_found_components(refs, refs.len() as int, components, names, seq![], headed);
    lemma_found_component("Trailer"@, components, names, seq![], body, 1);
    assert forall|tag: u32| counted_by(mine.specs, tag) implies #[trigger] counted_by(
        whole.specs,
        tag,
    ) by {
        let j = choose|j: int|
            0 <= j < mine.specs.len() && (#[trigger] mine.specs[j]).count_tag == tag;
        assert(headed.specs[j] == mine.specs[j]);
        assert(body.specs[j] == headed.specs[j]);
        assert(whole.specs[j] == body.specs[j]);
    }
    assert forall|tag: u32| counted_by(headed.specs, tag) implies #[trigger] counted_by(
        whole.specs,
        tag,
    ) by {
        let j = choose|j: int|
            0 <= j < headed.specs.len() && (#[trigger] headed.specs[j]).count_tag == tag;
        assert(body.specs[j] == headed.specs[j]);
        assert(whole.specs[j] == body.specs[j]);
    }
    if own.len() > 0 && names.contains_key(own[0].name) {
        lemma_first_definition(own, own.len() as int, components, names);
        assert(mine.specs.len() > 0);
        assert(headed.specs[0] == mine.specs[0]);
        assert(body.specs[0] == headed.specs[0]);
        assert(whole.specs[0] == body.specs[0]);
    }
}

proof fn lemma_first_definition(
    groups: Seq<GroupView>,
    n: int,
    components: ComponentMap,
    names: TagMap,
)
    requires
        components.dom().finite(),
        1 <= n <= groups.len(),
        names.contains_key(groups[0].name),
    ensures
        ({
            let specs = with_definitions(
                groups,
                n,
                components,
                names,
                GroupsModel::nothing(),
            ).specs;
            specs.len() > 0 && Some(specs[0]) == group_model(groups[0], components, names, seq![])
        }),
    decreases n,
{
    if n > 1 {
        lemma_first_definition(groups, n - 1, components, names);
    } else {
        let nothing = GroupsModel::nothing();
        assert(with_definitions(groups, 0, components, names, nothing) == nothing);
        lemma_group_at(nothing.specs, names[groups[0].name]);
    }
}

/// The last field with its number.
pub open spec fn is_last_numbered(fields: Seq<FieldView>, i: int) -> bool {
    &&& 0 <= i < fields.len()
    &&& forall|j: int| i < j < fields.len() ==> (#[trigger] fields[j]).number != fields[i].number
}

proof fn lemma_numbered(fields: Seq<FieldView>, i: int)
    requires
        is_last_numbered(fields, i),
    ensures
        names_of(fields).contains_key(fields[i].number),
        names_of(fields)[fields[i].number] == fields[i].name,
        types_of(fields)[fields[i].number] == fields[i].field_type,
        types_of(fields).contains_key(fields[i].number),
        (fields[i].values + fields[i].wrapped).len() > 0 ==> enums_of(fields).contains_key(
            fields[i].number,
        ) && enums_of(fields)[fields[i].number] == descriptions_of(
            fields[i].values + fields[i].wrapped,
        ),
    decreases fields.len(),
{
    if i < fields.len() - 1 {
        let shorter = fields.drop_last();
        assert forall|j: int| i < j < shorter.len() implies (#[trigger] shorter[j]).number
            != shorter[i].number by {
            assert(shorter[j] == fields[j]);
        }
        lemma_numbered(shorter, i);
        assert(fields[fields.len() - 1].number != fields[i].number);
    }
}

proof fn lemma_unnumbered(fields: Seq<FieldView>, tag: u32)
    requires
        forall|i: int| 0 <= i < fields.len() ==> (#[trigger] fields[i]).number != tag,
    ensures
        !names_of(fields).contains_key(tag),
        !types_of(fields).contains_key(tag),
        !enums_of(fields).contains_key(tag),
    decreases fields.len(),
{
    if fields.len() > 0 {
        let shorter = fields.drop_last();
        assert forall|i: int| 0 <= i < shorter.len() implies (#[trigger] shorter[i]).number
            != tag by {
            assert(shorter[i] == fields[i]);
        }
        lemma_unnumbered(shorter, tag);
        assert(fields[fields.len() - 1].number != tag);
    }
}

proof fn lemma_described(values: Seq<ValueView>, k: int)
    requires
        0 <= k < values.len(),
        forall|j: int|
            k < j < values.len() ==> (#[trigger] values[j]).enumeration != values[k].enumeration,
    ensures
        descriptions_of(values).contains_key(values[k].enumeration),
        descriptions_of(values)[values[k].enumeration] == values[k].description,
    decreases values.len(),
{
    if k < values.len() - 1 {
        let shorter = values.drop_last();
        assert forall|j: int| k < j < shorter.len() implies (#[trigger] shorter[j]).enumeration
            != shorter[k].enumeration by {
            assert(shorter[j] == values[j]);
        }
        lemma_described(shorter, k);
        assert(values[values.len() - 1].enumeration != values[k].enumeration);
    }
}

/// A dictionary knows its fields: by their number it gives their name, their type, and the
/// description of each of their values. A number that no field has is not known.
pub proof fn law_dictionaries_know_their_fields(
    dict: DictionaryView,
    key: Seq<char>,
    i: int,
    k: int,
    tag: u32,
)
    ensures
        ({
            let lookup = lookup_of(dict, key);
            let field = dict.fields[i];
            let values = field.values + field.wrapped;
            &&& is_last_numbered(dict.fields, i) ==> lookup.field_name(field.number) == field.name
                && lookup.field_type(field.number) == Some(field.field_type) && lookup.has_tag(
                field.number,
            )
            &&& is_last_numbered(dict.fields, i) && 0 <= k < values.len() && (forall|j: int|
                k < j < values.len() ==> (#[trigger] values[j]).enumeration
                    != values[k].enumeration) ==> lookup.enum_description(
                field.number,
                values[k].enumeration,
            ) == Some(values[k].description)
            &&& (forall|j: int|
                0 <= j < dict.fields.len() ==> (#[trigger] dict.fields[j]).number != tag)
                ==> !lookup.has_tag(tag) && lookup.field_type(tag) is None && lookup.enums_for(
                tag,
            ) is None
        }),
{
    let field = dict.fields[i];
    let values = field.values + field.wrapped;
    if is_last_numbered(dict.fields, i) {
        lemma_numbered(dict.fields, i);
        if 0 <= k < values.len() && forall|j: int|
            k < j < values.len() ==> (#[trigger] values[j]).enumeration != values[k].enumeration {
            lemma_described(values, k);
        }
    }
    if forall|j: int| 0 <= j < dict.fields.len() ==> (#[trigger] dict.fields[j]).number != tag {
        lemma_unnumbered(dict.fields, tag);
    }
}

proof fn lemma_typed_message(
    messages: Seq<MessageView>,
    components: ComponentMap,
    names: TagMap,
    i: int,
)
    requires
        0 <= i < messages.len(),
        forall|j: int|
            i < j < messages.len() ==> (#[trigger] messages[j]).msg_type != messages[i].msg_type,
    ensures
        messages_of(messages, components, names).contains_key(messages[i].msg_type),
        messages_of(messages, components, names)[messages[i].msg_type] == message_model(
            messages[i],
            components,
            names,
        ),
    decreases messages.len(),
{
    if i < messages.len() - 1 {
        let shorter = messages.drop_last();
        assert forall|j: int| i < j < shorter.len() implies (#[trigger] shorter[j]).msg_type
            != shorter[i].msg_type by {
            assert(shorter[j] == messages[j]);
        }
        lemma_typed_message(shorter, components, names, i);
        assert(messages[messages.len() - 1].msg_type != messages[i].msg_type);
    }
}

/// A dictionary knows its messages by their type: their name, whether they are administrative,
/// the tags of their layout with header and trailer, those that have to be there, and their
/// groups.
pub proof fn law_dictionaries_know_their_messages(dict: DictionaryView, key: Seq<char>, i: int)
    requires
        0 <= i < dict.messages.len(),
        forall|j: int|
            i < j < dict.messages.len() ==> (#[trigger] dict.messages[j]).msg_type
                != dict.messages[i].msg_type,
    ensures
        ({
            let msg = dict.messages[i];
            let names = tags_of(dict.fields);
            let components = all_components(dict);
            lookup_of(dict, key).message_def(msg.msg_type) matches Some(def) && {
                &&& def.name == msg.name
                &&& def.msg_type == msg.msg_type
                &&& def.is_admin == (msg.msg_cat == seq!['a', 'd', 'm', 'i', 'n'])
                &&& def.field_order == expanded_message(msg, components, names, true).order
                &&& def.required == expanded_message(msg, components, names, true).required
                &&& def.groups == message_groups(msg, components, names).specs
            }
        }),
        ({
            let components = all_components(dict);
            &&& components.contains_key("Header"@) && components["Header"@].parts
                == dict.header.parts
            &&& components.contains_key("Trailer"@) && components["Trailer"@].parts
                == dict.trailer.parts
        }),
{
    lemma_typed_message(dict.messages, all_components(dict), tags_of(dict.fields), i);
    reveal_strlit("admin");
    reveal_strlit("Header");
    reveal_strlit("Trailer");
    assert("admin"@ =~= seq!['a', 'd', 'm', 'i', 'n']);
    assert("Header"@.len() != "Trailer"@.len());
}

proof fn lemma_added(order: Seq<u32>, tags: Seq<u32>, excluded: Set<u32>)
    ensures
        ({
            let all = added(order, tags, excluded);
            &&& starts(order, all)
            &&& forall|t: u32|
                #![trigger all.contains(t)]
                all.contains(t) <==> order.contains(t) || (tags.contains(t) && !excluded.contains(
                    t,
                ))
            &&& order.no_duplicates() ==> all.no_duplicates()
            &&& forall|i: int|
                order.len() <= i < all.len() ==> tags.contains(#[trigger] all[i])
                    && !excluded.contains(all[i])
        }),
    decreases tags.len(),
{
    let all = added(order, tags, excluded);
    if tags.len() > 0 {
        let shorter = tags.drop_last();
        let last = tags.last();
        lemma_added(order, shorter, excluded);
        let before = added(order, shorter, excluded);
        assert(tags[tags.len() - 1] == last);
        assert forall|t: u32| tags.contains(t) <==> shorter.contains(t) || t == last by {
            if shorter.contains(t) {
                let i = shorter.index_of(t);
                assert(tags[i] == t);
            }
            if tags.contains(t) && t != last {
                let i = tags.index_of(t);
                assert(shorter[i] == t);
            }
        }
        if !excluded.contains(last) && !before.contains(last) {
            assert forall|t: u32| #[trigger] all.contains(t) <==> before.contains(t) || t
                == last by {
                if before.contains(t) {
                    let i = before.index_of(t);
                    assert(all[i] == t);
                }
                if t == last {
                    assert(all[before.len() as int] == t);
                }
                if all.contains(t) && t != last {
                    let i = all.index_of(t);
                    assert(before[i] == t);
                }
            }
            assert forall|i: int| order.len() <= i < all.len() implies tags.contains(
                #[trigger] all[i],
            ) && !excluded.contains(all[i]) by {
                if i < before.len() {
                    assert(all[i] == before[i]);
                }
            }
        } else {
            assert forall|i: int| order.len() <= i < all.len() implies tags.contains(
                #[trigger] all[i],
            ) && !excluded.contains(all[i]) by {
                assert(all[i] == before[i]);
            }
        }
    }
}

proof fn lemma_without_tags(tags: Seq<u32>, excluded: Set<u32>)
    ensures
        without(tags, excluded) == tags.filter(|t: u32| !excluded.contains(t)),
    decreases tags.len(),
{
    reveal(Seq::filter);
    if tags.len() > 0 {
        lemma_without_tags(tags.drop_last(), excluded);
    }
}

proof fn lemma_filtered(tags: Seq<u32>, keep: spec_fn(u32) -> bool)
    ensures
        forall|t: u32| #[trigger]
            tags.filter(keep).contains(t) <==> tags.contains(t) && keep(t),
        tags.no_duplicates() ==> tags.filter(keep).no_duplicates(),
        forall|i: int, j: int|
            0 <= i < j < tags.len() && keep(#[trigger] tags[i]) && keep(#[trigger] tags[j])
                && tags.no_duplicates() ==> tags.filter(keep).index_of(tags[i]) < tags.filter(
                keep,
            ).index_of(tags[j]),
    decreases tags.len(),
{
    reveal(Seq::filter);
    let kept = tags.filter(keep);
    if tags.len() > 0 {
        let shorter = tags.drop_last();
        let last = tags.last();
        lemma_filtered(shorter, keep);
        let before = shorter.filter(keep);
        assert(tags[tags.len() - 1] == last);
        assert forall|t: u32| #[trigger] kept.contains(t) <==> tags.contains(t) && keep(t) by {
            if before.contains(t) {
                let i = before.index_of(t);
                assert(kept[i] == t);
                let j = shorter.index_of(t);
                assert(tags[j] == t);
            }
            if tags.contains(t) && keep(t) && t != last {
                let j = tags.index_of(t);
                assert(shorter[j] == t);
                assert(before.contains(t));
            }
            if t == last && keep(t) {
                assert(kept[kept.len() - 1] == t);
            }
            if kept.contains(t) && !before.contains(t) {
                let j = kept.index_of(t);
                if j < before.len() {
                    assert(before[j] == t);
                }
            }
        }
        if tags.no_duplicates() {
            assert(shorter.no_duplicates());
            assert(!shorter.contains(last)) by {
                if shorter.contains(last) {
                    let j = shorter.index_of(last);
                    assert(tags[j] == tags[tags.len() - 1]);
                }
            }
            assert(!before.contains(last));
            assert(kept.no_duplicates());
            assert forall|i: int, j: int| 0 <= i < j < tags.len() && keep(#[trigger] tags[i])
                && keep(#[trigger] tags[j]) implies kept.index_of(tags[i]) < kept.index_of(
                tags[j],
            ) by {
                assert(shorter[i] == tags[i]);
                assert(before.contains(tags[i]));
                let a = before.index_of(tags[i]);
                assert(kept[a] == tags[i]);
                assert(kept.contains(tags[i]));
                assert(kept.index_of(tags[i]) == a);
                if j < shorter.len() {
                    assert(shorter[j] == tags[j]);
                    assert(before.contains(tags[j]));
                    let b = before.index_of(tags[j]);
                    assert(kept[b] == tags[j]);
                    assert(kept.contains(tags[j]));
                    assert(kept.index_of(tags[j]) == b);
                } else {
                    assert(kept[kept.len() - 1] == tags[j]);
                    assert(kept.contains(tags[j]));
                    assert(kept.index_of(tags[j]) == kept.len() - 1);
                }
            }
        }
    }
}

/// The tags that open every message, in their order.
pub open spec fn opening_tags() -> Seq<u32> {
    seq![8u32, 9u32, 35u32, 49u32, 56u32, 34u32, 52u32]
}

/// The tags of a message are listed once each: those that open every message go first, then
/// those of the layout in its order, and those of the trailer go last. Every tag of a field is
/// among them, wherever the field stands in the message.
pub proof fn law_tags_are_listed_in_order(
    fields: Seq<FieldPair>,
    dict: LookupModel,
    notes: Option<Notes>,
    i: int,
    j: int,
)
    ensures
        ({
            let order = tag_order(fields, dict, notes);
            let closing = if dict.trailer_tags().len() == 0 {
                seq![10u32]
            } else {
                dict.trailer_tags()
            };
            let opening = opening_tags();
            let layout = deduped(
                match crate::tag_order::laid_out_order(fields, dict) {
                    Some(tags) => tags,
                    None => crate::tag_order::plain_order(fields),
                },
            );
            &&& starts(opening, order)
            &&& order.no_duplicates()
            &&& forall|k: int|
                0 <= k < fields.len() ==> order.contains((#[trigger] fields[k]).0)
            &&& 0 <= i < layout.len() ==> order.contains(layout[i])
            &&& 0 <= i < j < layout.len() && !opening.contains(layout[i]) && !opening.contains(
                layout[j],
            ) && !closing.contains(layout[i]) && !closing.contains(layout[j])
                ==> order.index_of(layout[i]) < order.index_of(layout[j])
            &&& 0 <= i < order.len() && 0 <= j < order.len() && closing.contains(order[i])
                && !opening.contains(order[i]) && !closing.contains(order[j]) ==> j < i
        }),
{
    let order = tag_order(fields, dict, notes);
    let closing = crate::tag_order::closing_tags(dict);
    let excluded = closing.to_set();
    let opening = opening_tags();
    assert(crate::tag_order::header_tags() =~= opening);
    let layout = crate::tag_order::base_order(fields, dict);
    let raw = match crate::tag_order::laid_out_order(fields, dict) {
        Some(tags) => tags,
        None => crate::tag_order::plain_order(fields),
    };
    lemma_deduped(raw);
    let skip = excluded.union(opening.to_set());
    let keep = |t: u32| !skip.contains(t);
    let body = without(layout, skip);
    lemma_without_tags(layout, skip);
    lemma_filtered(layout, keep);
    assert(body == layout.filter(keep));
    let laid = opening + body;
    assert(opening.no_duplicates());
    assert forall|t: u32| opening.contains(t) implies skip.contains(t) by {
        assert(opening.to_set().contains(t));
    }
    assert(laid.no_duplicates()) by {
        assert forall|a: int, b: int| 0 <= a < b < laid.len() implies laid[a] != laid[b] by {
            if a < 7 && b >= 7 {
                assert(laid[b] == body[b - 7]);
                assert(body.contains(body[b - 7]));
                assert(opening.contains(opening[a]));
            } else if a >= 7 {
                assert(body[a - 7] != body[b - 7]);
            } else {
                assert(opening[a] != opening[b]);
            }
        }
    }
    let noted = match notes {
        Some(map) => added(laid, crate::sorting::ascending_numbers(map.dom()), excluded),
        None => laid,
    };
    if let Some(map) = notes {
        lemma_added(laid, crate::sorting::ascending_numbers(map.dom()), excluded);
    }
    let own = crate::tag_order::tags_of(fields);
    let present = crate::tag_order::closing_present(fields, dict, notes);
    lemma_added(noted, own, excluded);
    let most = added(noted, own, excluded);
    lemma_added(most, closing, present.complement());
    assert(starts(laid, order)) by {
        assert forall|k: int| 0 <= k < laid.len() implies #[trigger] order[k] == laid[k] by {
            assert(noted[k] == laid[k]);
            assert(most[k] == noted[k]);
        }
    }
    assert(starts(opening, order)) by {
        assert forall|k: int| 0 <= k < opening.len() implies #[trigger] order[k] == opening[k] by {
            assert(order[k] == laid[k]);
        }
    }
    assert forall|k: int| 0 <= k < fields.len() implies order.contains((#[trigger] fields[k]).0) by {
        let tag = fields[k].0;
        assert(own[k] == tag);
        assert(own.contains(tag));
        if closing.contains(tag) {
            assert(present.contains(tag));
            assert(!present.complement().contains(tag));
        } else {
            assert(!excluded.contains(tag));
            assert(most.contains(tag));
        }
    }
    if 0 <= i < layout.len() {
        let tag = layout[i];
        assert(layout.contains(tag));
        if closing.contains(tag) {
            assert(present.contains(tag));
            assert(!present.complement().contains(tag));
            assert(order.contains(tag));
        } else if opening.contains(tag) {
            let k = opening.index_of(tag);
            assert(order[k] == tag);
        } else {
            assert(!opening.to_set().contains(tag));
            assert(keep(tag));
            assert(body.contains(tag));
            let k = body.index_of(tag);
            assert(laid[7 + k] == tag);
            assert(order[7 + k] == tag);
        }
        if i < j && j < layout.len() && !opening.contains(layout[i]) && !opening.contains(
            layout[j],
        ) && !closing.contains(layout[i]) && !closing.contains(layout[j]) {
            let other = layout[j];
            assert(!opening.to_set().contains(tag) && !opening.to_set().contains(other));
            assert(keep(layout[i]) && keep(layout[j]));
            assert(body.index_of(tag) < body.index_of(other));
            assert(layout.contains(other));
            assert(body.contains(tag) && body.contains(other));
            let a = body.index_of(tag);
            let b = body.index_of(other);
            assert(laid[7 + a] == tag && laid[7 + b] == other);
            assert(order[7 + a] == tag && order[7 + b] == other);
            assert(order.contains(tag) && order.contains(other));
            assert(order.index_of(tag) == 7 + a);
            assert(order.index_of(other) == 7 + b);
        }
    }
    if 0 <= i < order.len() && 0 <= j < order.len() && closing.contains(order[i])
        && !opening.contains(order[i]) && !closing.contains(order[j]) {
        if j >= most.len() {
            assert(closing.contains(order[j]));
        }
        if i < most.len() {
            assert(most[i] == order[i]);
            assert(most.contains(order[i]));
            assert(excluded.contains(order[i]));
            assert(noted.contains(order[i]));
            assert(laid.contains(order[i]));
            let k = laid.index_of(order[i]);
            if k < 7 {
                assert(opening[k] == order[i]);
                assert(opening.contains(order[i]));
            } else {
                assert(body[k - 7] == order[i]);
                assert(body.contains(order[i]));
                assert(keep(order[i]));
            }
        }
    }
}

} // verus!
