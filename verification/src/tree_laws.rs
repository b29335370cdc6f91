//! What holds of the tree of a dictionary and of how it is shown.
use crate::colours::NEST_INDENT;
use crate::decoded_laws::stands_in;
use crate::display::{
    body_line, component_line, deeper, entries_text, field_part, group_line, message_line,
    message_style, message_text, wanted_component, DisplayStyle, LayoutCache, RenderEnv,
};
use crate::expansion::ComponentMap;
use crate::schema::{DictionaryView, EntryView, FieldRefView, FieldView, GroupView, MessageView};
use crate::schema_tree::{
    built_body, built_entries, built_groups, built_messages, field_nodes, field_table, tree_of,
    FieldNodeView, FieldTable, MessageNodeView, NodeView, Progress,
};
use vstd::prelude::*;

verus! {

/// The field that a reference names, with whether it has to be there.
pub open spec fn node_for(table: FieldTable) -> spec_fn(FieldRefView) -> FieldNodeView {
    |field: FieldRefView|
        FieldNodeView { required: field.required == Some("Y"@), field: table[field.name] }
}

/// The reference names a known field.
pub open spec fn is_known(table: FieldTable) -> spec_fn(FieldRefView) -> bool {
    |field: FieldRefView| table.contains_key(field.name)
}

proof fn lemma_field_nodes(refs: Seq<FieldRefView>, table: FieldTable)
    ensures
        field_nodes(refs, table) == refs.filter(is_known(table)).map_values(node_for(table)),
    decreases refs.len(),
{
    reveal(Seq::filter);
    if refs.len() > 0 {
        lemma_field_nodes(refs.drop_last(), table);
    }
    assert(field_nodes(refs, table) =~= refs.filter(is_known(table)).map_values(node_for(table)));
}

proof fn lemma_body_fields(
    parts: GroupView,
    defs: ComponentMap,
    table: FieldTable,
    stack: Seq<Seq<char>>,
    cache: Progress,
)
    requires
        defs.dom().finite(),
    ensures
        built_body(parts, defs, table, stack, cache).body.fields == parts.fields.filter(
            is_known(table),
        ).map_values(node_for(table)),
{
    lemma_field_nodes(parts.fields, table);
}

proof fn lemma_group_nodes(
    groups: Seq<GroupView>,
    n: int,
    defs: ComponentMap,
    table: FieldTable,
    stack: Seq<Seq<char>>,
    cache: Progress,
)
    requires
        defs.dom().finite(),
        0 <= n <= groups.len(),
    ensures
        ({
            let nodes = built_groups(groups, n, defs, table, stack, cache).nodes;
            &&& nodes.len() == n
            &&& forall|i: int|
                0 <= i < n ==> (#[trigger] nodes[i]).name == groups[i].name && nodes[i].required
                    == (groups[i].required == Some("Y"@)) && nodes[i].body.fields
                    == groups[i].fields.filter(is_known(table)).map_values(node_for(table))
        }),
    decreases n,
{
    if n > 0 {
        lemma_group_nodes(groups, n - 1, defs, table, stack, cache);
        let before = built_groups(groups, n - 1, defs, table, stack, cache);
        lemma_body_fields(groups[n - 1], defs, table, stack, before.cache);
        let nodes = built_groups(groups, n, defs, table, stack, cache).nodes;
        assert forall|i: int| 0 <= i < n - 1 implies #[trigger] nodes[i] == before.nodes[i] by {}
    }
}

/// An entry is built: the field, or the group, that it names stands for it.
pub open spec fn stands_for(node: NodeView, entry: EntryView, table: FieldTable) -> bool {
    match entry {
        EntryView::Field(field) => node == NodeView::Field(node_for(table)(field)),
        EntryView::Group(group) => node matches NodeView::Group(built) && built.name == group.name
            && built.required == (group.required == Some("Y"@)) && built.body.fields
            == group.fields.filter(is_known(table)).map_values(node_for(table)),
        EntryView::Component(_) => false,
    }
}

proof fn lemma_entry_nodes(
    entries: Seq<EntryView>,
    n: int,
    defs: ComponentMap,
    table: FieldTable,
    stack: Seq<Seq<char>>,
    cache: Progress,
)
    requires
        defs.dom().finite(),
        0 <= n <= entries.len(),
        forall|i: int|
            0 <= i < entries.len() ==> match #[trigger] entries[i] {
                EntryView::Field(field) => table.contains_key(field.name),
                EntryView::Group(_) => true,
                EntryView::Component(_) => false,
            },
    ensures
        ({
            let nodes = built_entries(entries, n, defs, table, stack, cache).nodes;
            &&& nodes.len() == n
            &&& forall|i: int| 0 <= i < n ==> stands_for(#[trigger] nodes[i], entries[i], table)
        }),
    decreases n,
{
    if n > 0 {
        lemma_entry_nodes(entries, n - 1, defs, table, stack, cache);
        let before = built_entries(entries, n - 1, defs, table, stack, cache);
        let nodes = built_entries(entries, n, defs, table, stack, cache).nodes;
        if let EntryView::Group(group) = entries[n - 1] {
            lemma_body_fields(group, defs, table, stack, before.cache);
        }
        assert forall|i: int| 0 <= i < n implies stands_for(
            #[trigger] nodes[i],
            entries[i],
            table,
        ) by {
            if i < n - 1 {
                assert(nodes[i] == before.nodes[i]);
            }
        }
    }
}

/// What a container holds is built from its parts: its fields where they are known, each with
/// whether it has to be there, and all its groups. Where it has no components and all its
/// fields are known, its entries are those that it was given, in the same order.
pub proof fn law_bodies_are_built_from_their_parts(
    parts: GroupView,
    defs: ComponentMap,
    table: FieldTable,
    stack: Seq<Seq<char>>,
    cache: Progress,
)
    requires
        defs.dom().finite(),
    ensures
        ({
            let body = built_body(parts, defs, table, stack, cache).body;
            &&& body.fields == parts.fields.filter(is_known(table)).map_values(node_for(table))
            &&& body.groups.len() == parts.groups.len()
            &&& forall|i: int|
                0 <= i < parts.groups.len() ==> (#[trigger] body.groups[i]).name
                    == parts.groups[i].name && body.groups[i].required == (parts.groups[i].required
                    == Some("Y"@)) && body.groups[i].body.fields == parts.groups[i].fields.filter(
                    is_known(table),
                ).map_values(node_for(table))
            &&& (forall|i: int|
                0 <= i < parts.entries.len() ==> match #[trigger] parts.entries[i] {
                    EntryView::Field(field) => table.contains_key(field.name),
                    EntryView::Group(_) => true,
                    EntryView::Component(_) => false,
                }) ==> body.entries.len() == parts.entries.len() && forall|i: int|
                0 <= i < parts.entries.len() ==> stands_for(
                    #[trigger] body.entries[i],
                    parts.entries[i],
                    table,
                )
        }),
{
    let components = crate::schema_tree::built_components(
        parts.components,
        parts.components.len() as int,
        defs,
        table,
        stack,
        cache,
    );
    let count = parts.groups.len() as int;
    let groups = built_groups(parts.groups, count, defs, table, stack, components.cache);
    lemma_field_nodes(parts.fields, table);
    lemma_group_nodes(parts.groups, count, defs, table, stack, components.cache);
    if forall|i: int|
        0 <= i < parts.entries.len() ==> match #[trigger] parts.entries[i] {
            EntryView::Field(field) => table.contains_key(field.name),
            EntryView::Group(_) => true,
            EntryView::Component(_) => false,
        } {
        lemma_entry_nodes(
            parts.entries,
            parts.entries.len() as int,
            defs,
            table,
            stack,
            Progress { skipped: seq![], ..groups.cache },
        );
    }
}

proof fn lemma_message_nodes(
    messages: Seq<MessageView>,
    n: int,
    defs: ComponentMap,
    table: FieldTable,
    cache: Progress,
    i: int,
)
    requires
        0 <= i < n <= messages.len(),
        forall|j: int| i < j < n ==> (#[trigger] messages[j]).name != messages[i].name,
        defs.dom().finite(),
    ensures
        ({
            let nodes = built_messages(messages, n, defs, table, cache).nodes;
            let node = nodes[messages[i].name];
            &&& nodes.contains_key(messages[i].name)
            &&& node.name == messages[i].name
            &&& node.msg_type == messages[i].msg_type
            &&& node.msg_cat == messages[i].msg_cat
            &&& node.body.fields == messages[i].parts.fields.filter(is_known(table)).map_values(
                node_for(table),
            )
        }),
    decreases n,
{
    if i < n - 1 {
        lemma_message_nodes(messages, n - 1, defs, table, cache, i);
        assert(messages[n - 1].name != messages[i].name);
    } else {
        lemma_field_nodes(messages[i].parts.fields, table);
    }
}

proof fn lemma_table(fields: Seq<FieldView>, i: int)
    requires
        0 <= i < fields.len(),
        forall|j: int| i < j < fields.len() ==> (#[trigger] fields[j]).name != fields[i].name,
    ensures
        field_table(fields).contains_key(fields[i].name),
        field_table(fields)[fields[i].name] == fields[i],
    decreases fields.len(),
{
    if i < fields.len() - 1 {
        let shorter = fields.drop_last();
        assert forall|j: int| i < j < shorter.len() implies (#[trigger] shorter[j]).name
            != shorter[i].name by {
            assert(shorter[j] == fields[j]);
        }
        lemma_table(shorter, i);
        assert(fields[fields.len() - 1].name != fields[i].name);
    }
}

/// A tree has the messages and the fields of its dictionary, under their names.
pub proof fn law_trees_have_messages_and_fields(dict: DictionaryView, i: int)
    requires
        crate::schema_tree::all_components(dict).dom().finite(),
    ensures
        ({
            let tree = tree_of(dict);
            let table = field_table(dict.fields);
            &&& 0 <= i < dict.messages.len() && (forall|j: int|
                i < j < dict.messages.len() ==> (#[trigger] dict.messages[j]).name
                    != dict.messages[i].name) ==> {
                let msg = dict.messages[i];
                let node = tree.messages[msg.name];
                &&& tree.messages.contains_key(msg.name)
                &&& node.name == msg.name && node.msg_type == msg.msg_type && node.msg_cat
                    == msg.msg_cat
                &&& node.body.fields == msg.parts.fields.filter(is_known(table)).map_values(
                    node_for(table),
                )
            }
            &&& 0 <= i < dict.fields.len() && (forall|j: int|
                i < j < dict.fields.len() ==> (#[trigger] dict.fields[j]).name
                    != dict.fields[i].name) ==> tree.fields.contains_key(dict.fields[i].name)
                && tree.fields[dict.fields[i].name] == dict.fields[i]
        }),
{
    let table = field_table(dict.fields);
    let defs = crate::schema_tree::all_components(dict);
    let names = crate::textmap::sorted(defs.dom());
    let components = crate::schema_tree::built_table(names, names.len() as int, defs, table);
    let count = dict.messages.len() as int;
    if 0 <= i < dict.messages.len() && forall|j: int|
        i < j < dict.messages.len() ==> (#[trigger] dict.messages[j]).name
            != dict.messages[i].name {
        lemma_message_nodes(dict.messages, count, defs, table, components.cache, i);
    }
    if 0 <= i < dict.fields.len() && forall|j: int|
        i < j < dict.fields.len() ==> (#[trigger] dict.fields[j]).name != dict.fields[i].name {
        lemma_table(dict.fields, i);
    }
}

proof fn lemma_in_first(part: Seq<char>, a: Seq<char>, b: Seq<char>)
    requires
        stands_in(part, a),
    ensures
        stands_in(part, a + b),
{
    let i = choose|i: int|
        0 <= i <= a.len() - part.len() && #[trigger] a.subrange(i, i + part.len()) == part;
    assert((a + b).subrange(i, i + part.len()) =~= a.subrange(i, i + part.len()));
}

proof fn lemma_in_second(part: Seq<char>, a: Seq<char>, b: Seq<char>)
    requires
        stands_in(part, b),
    ensures
        stands_in(part, a + b),
{
    let i = choose|i: int|
        0 <= i <= b.len() - part.len() && #[trigger] b.subrange(i, i + part.len()) == part;
    assert((a + b).subrange(a.len() + i, a.len() + i + part.len()) =~= b.subrange(
        i,
        i + part.len(),
    ));
}

proof fn lemma_in_itself(part: Seq<char>)
    ensures
        stands_in(part, part),
{
    let n = part.len() as int;
    assert(part.subrange(0, 0 + n) =~= part);
}

/// The parts of a container stand in the text, those inside its groups and components deeper.
pub open spec fn shows_entry(
    text: Seq<char>,
    entry: NodeView,
    level: usize,
    style: DisplayStyle,
    msg_type: Option<Seq<char>>,
    env: RenderEnv,
) -> bool {
    match entry {
        NodeView::Field(field) => stands_in(field_part(field, level, style, msg_type, env), text),
        NodeView::Group(group) => stands_in(
            group_line(group, level, env.tree, style.colours),
            text,
        ) && exists|inner: DisplayStyle, cache: LayoutCache|
            inner.colours == style.colours && stands_in(
                (#[trigger] entries_text(
                    group.body.entries,
                    group.body.entries.len() as int,
                    deeper(level, NEST_INDENT),
                    inner,
                    msg_type,
                    env,
                    cache,
                )).text,
                text,
            ),
        NodeView::Component(component) => stands_in(
            component_line(component.name, level, style.colours),
            text,
        ) && exists|inner: DisplayStyle, cache: LayoutCache|
            inner.colours == style.colours && stands_in(
                (#[trigger] entries_text(
                    component.body.entries,
                    component.body.entries.len() as int,
                    deeper(level, NEST_INDENT),
                    inner,
                    msg_type,
                    env,
                    cache,
                )).text,
                text,
            ),
    }
}

proof fn lemma_shows_further(
    text: Seq<char>,
    more: Seq<char>,
    entry: NodeView,
    level: usize,
    style: DisplayStyle,
    msg_type: Option<Seq<char>>,
    env: RenderEnv,
)
    requires
        shows_entry(text, entry, level, style, msg_type, env),
    ensures
        shows_entry(text + more, entry, level, style, msg_type, env),
{
    match entry {
        NodeView::Field(field) => {
            lemma_in_first(field_part(field, level, style, msg_type, env), text, more);
        },
        NodeView::Group(group) => {
            lemma_in_first(group_line(group, level, env.tree, style.colours), text, more);
            let entries = group.body.entries;
            let n = entries.len() as int;
            let l = deeper(level, NEST_INDENT);
            let (inner, cache) = choose|inner: DisplayStyle, cache: LayoutCache|
                inner.colours == style.colours && stands_in(
                    (#[trigger] entries_text(entries, n, l, inner, msg_type, env, cache)).text,
                    text,
                );
            lemma_in_first(
                entries_text(entries, n, l, inner, msg_type, env, cache).text,
                text,
                more,
            );
        },
        NodeView::Component(component) => {
            lemma_in_first(component_line(component.name, level, style.colours), text, more);
            let entries = component.body.entries;
            let n = entries.len() as int;
            let l = deeper(level, NEST_INDENT);
            let (inner, cache) = choose|inner: DisplayStyle, cache: LayoutCache|
                inner.colours == style.colours && stands_in(
                    (#[trigger] entries_text(entries, n, l, inner, msg_type, env, cache)).text,
                    text,
                );
            lemma_in_first(
                entries_text(entries, n, l, inner, msg_type, env, cache).text,
                text,
                more,
            );
        },
    }
}

/// Every part of a container is shown: its fields with their values, and the lines of its
/// groups and components with everything inside them.
pub proof fn law_every_part_is_shown(
    entries: Seq<NodeView>,
    n: int,
    level: usize,
    style: DisplayStyle,
    msg_type: Option<Seq<char>>,
    env: RenderEnv,
    cache: LayoutCache,
)
    requires
        0 <= n <= entries.len(),
    ensures
        forall|i: int|
            0 <= i < n ==> shows_entry(
                entries_text(entries, n, level, style, msg_type, env, cache).text,
                #[trigger] entries[i],
                level,
                style,
                msg_type,
                env,
            ),
    decreases n,
{
    if n > 0 {
        law_every_part_is_shown(entries, n - 1, level, style, msg_type, env, cache);
        let before = entries_text(entries, n - 1, level, style, msg_type, env, cache);
        let whole = entries_text(entries, n, level, style, msg_type, env, cache);
        let c = style.colours;
        assert forall|i: int| 0 <= i < n implies shows_entry(
            whole.text,
            #[trigger] entries[i],
            level,
            style,
            msg_type,
            env,
        ) by {
            if i < n - 1 {
                let more = whole.text.skip(before.text.len() as int);
                assert(whole.text =~= before.text + more);
                lemma_shows_further(before.text, more, entries[i], level, style, msg_type, env);
            } else {
                match entries[i] {
                    NodeView::Field(field) => {
                        let part = field_part(field, level, style, msg_type, env);
                        lemma_in_itself(part);
                        lemma_in_second(part, before.text, part);
                    },
                    NodeView::Group(group) => {
                        let own = group.body.entries;
                        let inner = crate::display::styled(
                            style,
                            true,
                            group.name,
                            own,
                            level,
                            env,
                            before.cache,
                        );
                        let l = deeper(level, NEST_INDENT);
                        let rest = entries_text(
                            own,
                            own.len() as int,
                            l,
                            inner.style,
                            msg_type,
                            env,
                            inner.cache,
                        );
                        let line = group_line(group, level, env.tree, c);
                        lemma_in_itself(line);
                        lemma_in_first(line, line, rest.text);
                        lemma_in_second(line, before.text, line + rest.text);
                        lemma_in_itself(rest.text);
                        lemma_in_second(rest.text, line, rest.text);
                        lemma_in_second(rest.text, before.text, line + rest.text);
                    },
                    NodeView::Component(component) => {
                        let own = component.body.entries;
                        let inner = crate::display::styled(
                            style,
                            false,
                            component.name,
                            own,
                            level,
                            env,
                            before.cache,
                        );
                        let l = deeper(level, NEST_INDENT);
                        let rest = entries_text(
                            own,
                            own.len() as int,
                            l,
                            inner.style,
                            msg_type,
                            env,
                            inner.cache,
                        );
                        let line = component_line(component.name, level, c);
                        lemma_in_itself(line);
                        lemma_in_first(line, line, rest.text);
                        lemma_in_second(line, before.text, line + rest.text);
                        lemma_in_itself(rest.text);
                        lemma_in_second(rest.text, line, rest.text);
                        lemma_in_second(rest.text, before.text, line + rest.text);
                    },
                }
            }
        }
    }
}

/// A message is shown under its line with everything in it; the header ahead and the trailer
/// behind where they are wanted.
pub proof fn law_messages_are_shown_whole(
    msg: MessageNodeView,
    header: bool,
    trailer: bool,
    level: usize,
    style: DisplayStyle,
    env: RenderEnv,
    cache: LayoutCache,
)
    ensures
        ({
            let text = message_text(msg, header, trailer, level, style, env, cache).text;
            let c = style.colours;
            &&& stands_in(message_line(msg, c), text)
            &&& header && env.tree.components.contains_key("Header"@) ==> stands_in(
                component_line(env.tree.components["Header"@].name, level, c),
                text,
            )
            &&& trailer && env.tree.components.contains_key("Trailer"@) ==> stands_in(
                component_line(env.tree.components["Trailer"@].name, level, c),
                text,
            )
            &&& exists|inner: DisplayStyle, before: LayoutCache|
                inner.colours == c && stands_in(
                    (#[trigger] entries_text(
                        msg.body.entries,
                        msg.body.entries.len() as int,
                        deeper(level, NEST_INDENT),
                        inner,
                        Some(msg.msg_type),
                        env,
                        before,
                    )).text,
                    text,
                )
            &&& !header && !trailer ==> exists|inner: DisplayStyle, before: LayoutCache|
                inner.colours == c && text == message_line(msg, c) + body_line(level, c) + (
                #[trigger] entries_text(
                    msg.body.entries,
                    msg.body.entries.len() as int,
                    deeper(level, NEST_INDENT),
                    inner,
                    Some(msg.msg_type),
                    env,
                    before,
                )).text
        }),
{
    let c = style.colours;
    let shared = message_style(msg, header, trailer, level, style, env);
    let top = wanted_component(header, "Header"@, level, shared, msg.msg_type, env, cache);
    let entries = msg.body.entries;
    let body = entries_text(
        entries,
        entries.len() as int,
        deeper(level, NEST_INDENT),
        shared,
        Some(msg.msg_type),
        env,
        top.cache,
    );
    let end = wanted_component(
        trailer,
        "Trailer"@,
        level,
        shared,
        msg.msg_type,
        env,
        body.cache,
    );
    let first = message_line(msg, c);
    let second = first + top.text;
    let third = second + body_line(level, c);
    let fourth = third + body.text;
    lemma_in_itself(first);
    lemma_in_first(first, first, top.text);
    lemma_in_first(first, second, body_line(level, c));
    lemma_in_first(first, third, body.text);
    lemma_in_first(first, fourth, end.text);
    lemma_in_itself(body.text);
    lemma_in_second(body.text, third, body.text);
    lemma_in_first(body.text, fourth, end.text);
    if header && env.tree.components.contains_key("Header"@) {
        let line = component_line(env.tree.components["Header"@].name, level, c);
        let rest = top.text.skip(line.len() as int);
        assert(top.text =~= line + rest);
        lemma_in_itself(line);
        lemma_in_first(line, line, rest);
        lemma_in_second(line, first, top.text);
        lemma_in_first(line, second, body_line(level, c));
        lemma_in_first(line, third, body.text);
        lemma_in_first(line, fourth, end.text);
    }
    if trailer && env.tree.components.contains_key("Trailer"@) {
        let line = component_line(env.tree.components["Trailer"@].name, level, c);
        let rest = end.text.skip(line.len() as int);
        assert(end.text =~= line + rest);
        lemma_in_itself(line);
        lemma_in_first(line, line, rest);
        lemma_in_second(line, fourth, end.text);
    }
    if !header && !trailer {
        assert(fourth + end.text =~= first + body_line(level, c) + body.text);
    }
}

} // verus!
