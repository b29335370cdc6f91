//! The tree of a dictionary: fields, components and messages with everything resolved.
use crate::collections::share;
use crate::expansion::{component_model, is_required, lemma_unused_push, unused, ComponentMap};
use crate::schema::{
    component_refs, component_views, entry_models, field_refs, field_views, group_models,
    ComponentDef, ComponentRef, ComponentRefView, ComponentView, ContainerEntry, DictionaryView,
    EntryView, Field, FieldRef, FieldRefView, FieldView, FixDictionary, GroupDef, GroupView,
    message_views, Message, MessageView, PartsView,
};
use crate::text::{contains_text, copy_of, same, text_view, texts};
use crate::textmap::{sorted, TextMap};
use std::sync::Arc;
use vstd::prelude::*;

verus! {

broadcast use vstd::seq_lib::group_seq_properties;

/// A field in its place.
#[derive(Debug)]
pub struct FieldNode {
    pub required: bool,
    pub field: Arc<Field>,
}

/// One part of a container, in the order of the dictionary.
#[derive(Debug)]
pub enum ContainerNode {
    Field(FieldNode),
    Group(GroupNode),
    Component(ComponentNode),
}

/// A component with everything in it.
#[derive(Debug)]
pub struct ComponentNode {
    pub name: String,
    pub fields: Vec<FieldNode>,
    pub groups: Vec<GroupNode>,
    pub components: Vec<ComponentNode>,
    pub entries: Vec<ContainerNode>,
}

/// A repeating group with everything in it.
#[derive(Debug)]
pub struct GroupNode {
    pub name: String,
    pub required: bool,
    pub fields: Vec<FieldNode>,
    pub components: Vec<ComponentNode>,
    pub groups: Vec<GroupNode>,
    pub entries: Vec<ContainerNode>,
}

/// A message with everything in it.
#[derive(Debug)]
pub struct MessageNode {
    pub name: String,
    pub msg_type: String,
    pub msg_cat: String,
    pub fields: Vec<FieldNode>,
    pub components: Vec<ComponentNode>,
    pub groups: Vec<GroupNode>,
    pub entries: Vec<ContainerNode>,
}

pub struct FieldNodeView {
    pub required: bool,
    pub field: FieldView,
}

/// What a container holds.
pub struct BodyView {
    pub fields: Seq<FieldNodeView>,
    pub components: Seq<ComponentNodeView>,
    pub groups: Seq<GroupNodeView>,
    pub entries: Seq<NodeView>,
}

pub struct ComponentNodeView {
    pub name: Seq<char>,
    pub body: BodyView,
}

pub struct GroupNodeView {
    pub name: Seq<char>,
    pub required: bool,
    pub body: BodyView,
}

pub enum NodeView {
    Field(FieldNodeView),
    Group(GroupNodeView),
    Component(ComponentNodeView),
}

pub struct MessageNodeView {
    pub name: Seq<char>,
    pub msg_type: Seq<char>,
    pub msg_cat: Seq<char>,
    pub body: BodyView,
}

impl View for FieldNode {
    type V = FieldNodeView;

    open spec fn view(&self) -> FieldNodeView {
        FieldNodeView { required: self.required, field: self.field@ }
    }
}

pub open spec fn field_node_views(nodes: Seq<FieldNode>) -> Seq<FieldNodeView> {
    nodes.map_values(|n: FieldNode| n@)
}

impl ComponentNode {
    /// The mathematical content of a component.
    pub open spec fn model(self) -> ComponentNodeView
        decreases self,
    {
        ComponentNodeView {
            name: self.name@,
            body: BodyView {
                fields: field_node_views(self.fields@),
                components: Seq::new(
                    self.components@.len(),
                    |i: int|
                        if 0 <= i < self.components@.len() {
                            self.components@[i].model()
                        } else {
                            arbitrary()
                        },
                ),
                groups: Seq::new(
                    self.groups@.len(),
                    |i: int|
                        if 0 <= i < self.groups@.len() {
                            self.groups@[i].model()
                        } else {
                            arbitrary()
                        },
                ),
                entries: Seq::new(
                    self.entries@.len(),
                    |i: int|
                        if 0 <= i < self.entries@.len() {
                            self.entries@[i].model()
                        } else {
                            arbitrary()
                        },
                ),
            },
        }
    }
}

impl GroupNode {
    /// The mathematical content of a group.
    pub open spec fn model(self) -> GroupNodeView
        decreases self,
    {
        GroupNodeView {
            name: self.name@,
            required: self.required,
            body: BodyView {
                fields: field_node_views(self.fields@),
                components: Seq::new(
                    self.components@.len(),
                    |i: int|
                        if 0 <= i < self.components@.len() {
                            self.components@[i].model()
                        } else {
                            arbitrary()
                        },
                ),
                groups: Seq::new(
                    self.groups@.len(),
                    |i: int|
                        if 0 <= i < self.groups@.len() {
                            self.groups@[i].model()
                        } else {
                            arbitrary()
                        },
                ),
                entries: Seq::new(
                    self.entries@.len(),
                    |i: int|
                        if 0 <= i < self.entries@.len() {
                            self.entries@[i].model()
                        } else {
                            arbitrary()
                        },
                ),
            },
        }
    }
}

impl ContainerNode {
    /// The mathematical content of a part.
    pub open spec fn model(self) -> NodeView
        decreases self,
    {
        match self {
            ContainerNode::Field(field) => NodeView::Field(field@),
            ContainerNode::Group(group) => NodeView::Group(group.model()),
            ContainerNode::Component(component) => NodeView::Component(component.model()),
        }
    }
}

pub open spec fn component_nodes(nodes: Seq<ComponentNode>) -> Seq<ComponentNodeView> {
    nodes.map_values(|n: ComponentNode| n.model())
}

pub open spec fn group_nodes(nodes: Seq<GroupNode>) -> Seq<GroupNodeView> {
    nodes.map_values(|n: GroupNode| n.model())
}

pub open spec fn container_nodes(nodes: Seq<ContainerNode>) -> Seq<NodeView> {
    nodes.map_values(|n: ContainerNode| n.model())
}

pub open spec fn body_of(
    fields: Seq<FieldNode>,
    components: Seq<ComponentNode>,
    groups: Seq<GroupNode>,
    entries: Seq<ContainerNode>,
) -> BodyView {
    BodyView {
        fields: field_node_views(fields),
        components: component_nodes(components),
        groups: group_nodes(groups),
        entries: container_nodes(entries),
    }
}

impl ComponentNode {
    pub proof fn lemma_model(self)
        ensures
            self.model() == (ComponentNodeView {
                name: self.name@,
                body: body_of(self.fields@, self.components@, self.groups@, self.entries@),
            }),
    {
        assert(self.model().body.components =~= component_nodes(self.components@));
        assert(self.model().body.groups =~= group_nodes(self.groups@));
        assert(self.model().body.entries =~= container_nodes(self.entries@));
    }
}

impl GroupNode {
    pub proof fn lemma_model(self)
        ensures
            self.model() == (GroupNodeView {
                name: self.name@,
                required: self.required,
                body: body_of(self.fields@, self.components@, self.groups@, self.entries@),
            }),
    {
        assert(self.model().body.components =~= component_nodes(self.components@));
        assert(self.model().body.groups =~= group_nodes(self.groups@));
        assert(self.model().body.entries =~= container_nodes(self.entries@));
    }
}

impl View for MessageNode {
    type V = MessageNodeView;

    open spec fn view(&self) -> MessageNodeView {
        MessageNodeView {
            name: self.name@,
            msg_type: self.msg_type@,
            msg_cat: self.msg_cat@,
            body: body_of(self.fields@, self.components@, self.groups@, self.entries@),
        }
    }
}

/// The fields of a dictionary by name.
pub type FieldTable = Map<Seq<char>, FieldView>;

/// The components that were built so far.
pub type NodeCache = Map<Seq<char>, ComponentNodeView>;

/// The field that a reference stands for, if it is known.
pub open spec fn field_node(field: FieldRefView, table: FieldTable) -> Option<FieldNodeView> {
    if table.contains_key(field.name) {
        Some(FieldNodeView { required: is_required(field), field: table[field.name] })
    } else {
        None
    }
}

/// The fields that references stand for; unknown ones are left out.
pub open spec fn field_nodes(refs: Seq<FieldRefView>, table: FieldTable) -> Seq<FieldNodeView>
    decreases refs.len(),
{
    if refs.len() == 0 {
        seq![]
    } else {
        match field_node(refs.last(), table) {
            Some(node) => field_nodes(refs.drop_last(), table).push(node),
            None => field_nodes(refs.drop_last(), table),
        }
    }
}

/// What was built so far: the components, and the names of those that were left out since they
/// stand inside themselves.
#[verifier::ext_equal]
pub struct Progress {
    pub nodes: NodeCache,
    pub skipped: Seq<Seq<char>>,
}

impl Progress {
    pub open spec fn none() -> Progress {
        Progress { nodes: Map::empty(), skipped: seq![] }
    }
}

/// A component, if it could be built, and the components built by then.
pub struct BuiltComponent {
    pub node: Option<ComponentNodeView>,
    pub cache: Progress,
}

pub struct BuiltComponents {
    pub nodes: Seq<ComponentNodeView>,
    pub cache: Progress,
}

pub struct BuiltGroups {
    pub nodes: Seq<GroupNodeView>,
    pub cache: Progress,
}

pub struct BuiltEntries {
    pub nodes: Seq<NodeView>,
    pub cache: Progress,
}

pub struct BuiltBody {
    pub body: BodyView,
    pub cache: Progress,
}

/// A container without a name of its own.
pub open spec fn nameless(parts: PartsView) -> GroupView {
    GroupView {
        name: seq![],
        required: None,
        fields: parts.fields,
        groups: parts.groups,
        components: parts.components,
        entries: parts.entries,
    }
}

/// A component as it was built before, or built now. One that is unknown, or that is being
/// built further up, is left out.
pub open spec fn built_component(
    name: Seq<char>,
    defs: ComponentMap,
    table: FieldTable,
    stack: Seq<Seq<char>>,
    cache: Progress,
) -> BuiltComponent
    decreases unused(defs, stack), 0int, Seq::<GroupView>::empty(), 0int,
    when defs.dom().finite()
{
    if cache.nodes.contains_key(name) {
        BuiltComponent { node: Some(cache.nodes[name]), cache }
    } else if stack.contains(name) {
        BuiltComponent {
            node: None,
            cache: Progress { skipped: cache.skipped.push(name), ..cache },
        }
    } else if !defs.contains_key(name) {
        BuiltComponent { node: None, cache }
    } else {
        proof {
            lemma_unused_push(defs, stack, name);
        }
        let built = built_body(nameless(defs[name].parts), defs, table, stack.push(name), cache);
        let node = ComponentNodeView { name: defs[name].name, body: built.body };
        BuiltComponent {
            node: Some(node),
            cache: Progress { nodes: built.cache.nodes.insert(name, node), ..built.cache },
        }
    }
}

/// The first `n` of some components.
pub open spec fn built_components(
    refs: Seq<ComponentRefView>,
    n: int,
    defs: ComponentMap,
    table: FieldTable,
    stack: Seq<Seq<char>>,
    cache: Progress,
) -> BuiltComponents
    decreases unused(defs, stack), 1int, Seq::<GroupView>::empty(), n,
    when defs.dom().finite()
{
    if n <= 0 || n > refs.len() {
        BuiltComponents { nodes: seq![], cache }
    } else {
        let before = built_components(refs, n - 1, defs, table, stack, cache);
        let built = built_component(refs[n - 1].name, defs, table, stack, before.cache);
        BuiltComponents {
            nodes: match built.node {
                Some(node) => before.nodes.push(node),
                None => before.nodes,
            },
            cache: built.cache,
        }
    }
}

/// The first `n` of some groups.
pub open spec fn built_groups(
    groups: Seq<GroupView>,
    n: int,
    defs: ComponentMap,
    table: FieldTable,
    stack: Seq<Seq<char>>,
    cache: Progress,
) -> BuiltGroups
    decreases unused(defs, stack), 2int, groups, n,
    when defs.dom().finite()
{
    if n <= 0 || n > groups.len() {
        BuiltGroups { nodes: seq![], cache }
    } else {
        proof {
            assert(decreases_to!(groups => groups[n - 1]));
        }
        let before = built_groups(groups, n - 1, defs, table, stack, cache);
        let built = built_body(groups[n - 1], defs, table, stack, before.cache);
        BuiltGroups {
            nodes: before.nodes.push(group_node(groups[n - 1], built.body)),
            cache: built.cache,
        }
    }
}

pub open spec fn group_node(group: GroupView, body: BodyView) -> GroupNodeView {
    GroupNodeView { name: group.name, required: group.required == Some("Y"@), body }
}

/// The first `n` of some entries.
pub open spec fn built_entries(
    entries: Seq<EntryView>,
    n: int,
    defs: ComponentMap,
    table: FieldTable,
    stack: Seq<Seq<char>>,
    cache: Progress,
) -> BuiltEntries
    decreases unused(defs, stack), 2int, entries, n,
    when defs.dom().finite()
{
    if n <= 0 || n > entries.len() {
        BuiltEntries { nodes: seq![], cache }
    } else {
        let before = built_entries(entries, n - 1, defs, table, stack, cache);
        match entries[n - 1] {
            EntryView::Field(field) => BuiltEntries {
                nodes: match field_node(field, table) {
                    Some(node) => before.nodes.push(NodeView::Field(node)),
                    None => before.nodes,
                },
                cache: before.cache,
            },
            EntryView::Group(group) => {
                proof {
                    assert(decreases_to!(entries => entries[n - 1]));
                    assert(decreases_to!(entries[n - 1] => entries[n - 1]->Group_0));
                }
                let built = built_body(group, defs, table, stack, before.cache);
                BuiltEntries {
                    nodes: before.nodes.push(NodeView::Group(group_node(group, built.body))),
                    cache: built.cache,
                }
            },
            EntryView::Component(component) => {
                let built = built_component(component.name, defs, table, stack, before.cache);
                BuiltEntries {
                    nodes: match built.node {
                        Some(node) => before.nodes.push(NodeView::Component(node)),
                        None => before.nodes,
                    },
                    cache: built.cache,
                }
            },
        }
    }
}

/// What a container holds, its components built first, then its groups, then its entries in
/// order. The entries are the same components and groups once more, so what is left out there
/// is not noted again.
pub open spec fn built_body(
    parts: GroupView,
    defs: ComponentMap,
    table: FieldTable,
    stack: Seq<Seq<char>>,
    cache: Progress,
) -> BuiltBody
    decreases unused(defs, stack), 2int, parts, 0int,
    when defs.dom().finite()
{
    let components = built_components(
        parts.components,
        parts.components.len() as int,
        defs,
        table,
        stack,
        cache,
    );
    let groups = built_groups(
        parts.groups,
        parts.groups.len() as int,
        defs,
        table,
        stack,
        components.cache,
    );
    let entries = built_entries(
        parts.entries,
        parts.entries.len() as int,
        defs,
        table,
        stack,
        Progress { skipped: seq![], ..groups.cache },
    );
    BuiltBody {
        body: BodyView {
            fields: field_nodes(parts.fields, table),
            components: components.nodes,
            groups: groups.nodes,
            entries: entries.nodes,
        },
        cache: Progress { skipped: groups.cache.skipped, ..entries.cache },
    }
}

impl FieldNode {
    /// The same node once more; the field is shared.
    pub fn duplicate(&self) -> (copy: FieldNode)
        ensures
            copy@ == self@,
    {
        FieldNode { required: self.required, field: share(&self.field) }
    }
}

fn duplicate_fields(nodes: &Vec<FieldNode>) -> (copy: Vec<FieldNode>)
    ensures
        field_node_views(copy@) == field_node_views(nodes@),
{
    let mut copy: Vec<FieldNode> = Vec::new();
    let mut i: usize = 0;
    while i < nodes.len()
        invariant
            0 <= i <= nodes@.len(),
            copy@.len() == i,
            forall|j: int| 0 <= j < i ==> (#[trigger] copy@[j])@ == nodes@[j]@,
        decreases nodes@.len() - i,
    {
        copy.push(nodes[i].duplicate());
        i += 1;
    }
    assert(field_node_views(copy@) =~= field_node_views(nodes@));
    copy
}

fn duplicate_components(nodes: &Vec<ComponentNode>) -> (copy: Vec<ComponentNode>)
    ensures
        component_nodes(copy@) == component_nodes(nodes@),
    decreases nodes,
{
    let mut copy: Vec<ComponentNode> = Vec::new();
    let mut i: usize = 0;
    while i < nodes.len()
        invariant
            0 <= i <= nodes@.len(),
            copy@.len() == i,
            forall|j: int| 0 <= j < i ==> (#[trigger] copy@[j]).model() == nodes@[j].model(),
        decreases nodes@.len() - i,
    {
        assert(decreases_to!(nodes => nodes@[i as int]));
        copy.push(nodes[i].duplicate());
        i += 1;
    }
    assert(component_nodes(copy@) =~= component_nodes(nodes@));
    copy
}

fn duplicate_groups(nodes: &Vec<GroupNode>) -> (copy: Vec<GroupNode>)
    ensures
        group_nodes(copy@) == group_nodes(nodes@),
    decreases nodes,
{
    let mut copy: Vec<GroupNode> = Vec::new();
    let mut i: usize = 0;
    while i < nodes.len()
        invariant
            0 <= i <= nodes@.len(),
            copy@.len() == i,
            forall|j: int| 0 <= j < i ==> (#[trigger] copy@[j]).model() == nodes@[j].model(),
        decreases nodes@.len() - i,
    {
        assert(decreases_to!(nodes => nodes@[i as int]));
        copy.push(nodes[i].duplicate());
        i += 1;
    }
    assert(group_nodes(copy@) =~= group_nodes(nodes@));
    copy
}

fn duplicate_entries(nodes: &Vec<ContainerNode>) -> (copy: Vec<ContainerNode>)
    ensures
        container_nodes(copy@) == container_nodes(nodes@),
    decreases nodes,
{
    let mut copy: Vec<ContainerNode> = Vec::new();
    let mut i: usize = 0;
    while i < nodes.len()
        invariant
            0 <= i <= nodes@.len(),
            copy@.len() == i,
            forall|j: int| 0 <= j < i ==> (#[trigger] copy@[j]).model() == nodes@[j].model(),
        decreases nodes@.len() - i,
    {
        assert(decreases_to!(nodes => nodes@[i as int]));
        copy.push(nodes[i].duplicate());
        i += 1;
    }
    assert(container_nodes(copy@) =~= container_nodes(nodes@));
    copy
}

impl ComponentNode {
    /// The same component once more.
    pub fn duplicate(&self) -> (copy: ComponentNode)
        ensures
            copy.model() == self.model(),
        decreases self,
    {
        let copy = ComponentNode {
            name: copy_of(self.name.as_str()),
            fields: duplicate_fields(&self.fields),
            groups: duplicate_groups(&self.groups),
            components: duplicate_components(&self.components),
            entries: duplicate_entries(&self.entries),
        };
        proof {
            copy.lemma_model();
            self.lemma_model();
        }
        copy
    }
}

impl GroupNode {
    /// The same group once more.
    pub fn duplicate(&self) -> (copy: GroupNode)
        ensures
            copy.model() == self.model(),
        decreases self,
    {
        let copy = GroupNode {
            name: copy_of(self.name.as_str()),
            required: self.required,
            fields: duplicate_fields(&self.fields),
            components: duplicate_components(&self.components),
            groups: duplicate_groups(&self.groups),
            entries: duplicate_entries(&self.entries),
        };
        proof {
            copy.lemma_model();
            self.lemma_model();
        }
        copy
    }
}

impl ContainerNode {
    /// The same part once more.
    pub fn duplicate(&self) -> (copy: ContainerNode)
        ensures
            copy.model() == self.model(),
        decreases self,
    {
        match self {
            ContainerNode::Field(field) => ContainerNode::Field(field.duplicate()),
            ContainerNode::Group(group) => ContainerNode::Group(group.duplicate()),
            ContainerNode::Component(component) => ContainerNode::Component(
                component.duplicate(),
            ),
        }
    }
}

pub open spec fn shared_fields(map: Map<Seq<char>, Arc<Field>>) -> FieldTable {
    map.map_values(|f: Arc<Field>| f@)
}

pub open spec fn component_cache(map: Map<Seq<char>, ComponentNode>) -> NodeCache {
    map.map_values(|n: ComponentNode| n.model())
}

fn is_yes(required: &Option<String>) -> (yes: bool)
    ensures
        yes == (text_view(*required) == Some("Y"@)),
{
    match required {
        Some(text) => same(text.as_str(), "Y"),
        None => false,
    }
}

fn build_field_node(field: &FieldRef, fields: &TextMap<Arc<Field>>) -> (node: Option<FieldNode>)
    ensures
        (match node {
            Some(node) => Some(node@),
            None => None,
        }) == field_node(field@, shared_fields(fields@)),
{
    match fields.get(field.name.as_str()) {
        Some(found) => Some(
            FieldNode { required: is_yes(&field.required), field: share(found) },
        ),
        None => None,
    }
}

fn build_field_nodes(refs: &Vec<FieldRef>, fields: &TextMap<Arc<Field>>) -> (nodes: Vec<FieldNode>)
    ensures
        field_node_views(nodes@) == field_nodes(field_refs(refs@), shared_fields(fields@)),
{
    let ghost all = field_refs(refs@);
    let ghost table = shared_fields(fields@);
    let mut nodes: Vec<FieldNode> = Vec::new();
    let mut i: usize = 0;
    assert(field_node_views(nodes@) =~= field_nodes(all.take(0), table));
    while i < refs.len()
        invariant
            0 <= i <= refs@.len(),
            all == field_refs(refs@),
            table == shared_fields(fields@),
            field_node_views(nodes@) == field_nodes(all.take(i as int), table),
        decreases refs@.len() - i,
    {
        assert(all.take(i + 1).drop_last() =~= all.take(i as int));
        assert(all.take(i + 1).last() == refs@[i as int]@);
        let ghost before = nodes@;
        if let Some(node) = build_field_node(&refs[i], fields) {
            let ghost view = node@;
            nodes.push(node);
            assert(field_node_views(nodes@) =~= field_node_views(before).push(view));
        }
        i += 1;
    }
    assert(all.take(all.len() as int) =~= all);
    nodes
}

/// Builds components, each once; a component inside itself is left out.
struct ComponentBuilder<'a> {
    fields: &'a TextMap<Arc<Field>>,
    defs: &'a TextMap<ComponentDef>,
    cache: TextMap<ComponentNode>,
    stack: Vec<String>,
    skipped: Vec<String>,
}

/// What a container holds, as it is put together.
struct Body {
    fields: Vec<FieldNode>,
    components: Vec<ComponentNode>,
    groups: Vec<GroupNode>,
    entries: Vec<ContainerNode>,
}

impl<'a> ComponentBuilder<'a> {
    spec fn table(self) -> FieldTable {
        shared_fields(self.fields@)
    }

    spec fn known(self) -> ComponentMap {
        component_model(self.defs@)
    }

    spec fn built(self) -> Progress {
        Progress { nodes: component_cache(self.cache@), skipped: texts(self.skipped@) }
    }

    spec fn open(self) -> Seq<Seq<char>> {
        texts(self.stack@)
    }

    /// Everything but what was built is as it was.
    spec fn continues(self, before: ComponentBuilder<'a>) -> bool {
        self.fields == before.fields && self.defs == before.defs && self.open() == before.open()
    }

    spec fn finite(self) -> bool {
        self.known().dom().finite()
    }

    fn build_component(&mut self, name: &str) -> (node: Option<ComponentNode>)
        requires
            old(self).finite(),
        ensures
            ({
                let built = built_component(
                    name@,
                    old(self).known(),
                    old(self).table(),
                    old(self).open(),
                    old(self).built(),
                );
                &&& (match node {
                    Some(node) => Some(node.model()),
                    None => None,
                }) == built.node
                &&& final(self).built() == built.cache
            }),
            final(self).continues(*old(self)),
        decreases unused(old(self).known(), old(self).open()), 0int, Seq::<GroupView>::empty(), 0int,
    {
        let ghost start = *self;
        if let Some(node) = self.cache.get(name) {
            return Some(node.duplicate());
        }
        if contains_text(&self.stack, name) {
            self.skipped.push(copy_of(name));
            assert(texts(self.skipped@) =~= texts(start.skipped@).push(name@));
            return None;
        }
        let def = match self.defs.get(name) {
            Some(def) => def,
            None => {
                return None;
            },
        };
        proof {
            lemma_unused_push(start.known(), start.open(), name@);
        }
        let ghost before = self.stack@;
        self.stack.push(copy_of(name));
        assert(texts(self.stack@) =~= start.open().push(name@));
        let body = self.build_body(
            &def.fields,
            &def.components,
            &def.groups,
            &def.entries,
            Ghost(nameless(def@.parts)),
        );
        let node = ComponentNode {
            name: copy_of(def.name.as_str()),
            fields: body.fields,
            groups: body.groups,
            components: body.components,
            entries: body.entries,
        };
        proof {
            node.lemma_model();
        }
        let ghost cached = self.cache@;
        let copy = node.duplicate();
        self.cache.insert(name, copy);
        assert(component_cache(self.cache@) =~= component_cache(cached).insert(
            name@,
            node.model(),
        ));
        let ghost open = self.stack@;
        self.stack.pop();
        assert(texts(self.stack@) =~= texts(open).drop_last());
        assert(start.open().push(name@).drop_last() =~= start.open());
        Some(node)
    }

    fn build_components(&mut self, refs: &Vec<ComponentRef>) -> (nodes: Vec<ComponentNode>)
        requires
            old(self).finite(),
        ensures
            ({
                let built = built_components(
                    component_refs(refs@),
                    refs@.len() as int,
                    old(self).known(),
                    old(self).table(),
                    old(self).open(),
                    old(self).built(),
                );
                component_nodes(nodes@) == built.nodes && final(self).built() == built.cache
            }),
            final(self).continues(*old(self)),
        decreases unused(old(self).known(), old(self).open()), 1int, Seq::<GroupView>::empty(), 0int,
    {
        let ghost start = *self;
        let ghost all = component_refs(refs@);
        let mut nodes: Vec<ComponentNode> = Vec::new();
        let mut i: usize = 0;
        assert(component_nodes(nodes@) =~= seq![]);
        while i < refs.len()
            invariant
                0 <= i <= refs@.len(),
                all == component_refs(refs@),
                start.finite(),
                start == *old(self),
                self.continues(start),
                ({
                    let built = built_components(
                        all,
                        i as int,
                        start.known(),
                        start.table(),
                        start.open(),
                        start.built(),
                    );
                    component_nodes(nodes@) == built.nodes && self.built() == built.cache
                }),
            decreases refs@.len() - i,
        {
            let ghost before = nodes@;
            assert(all[i as int].name == refs@[i as int].name@);
            if let Some(node) = self.build_component(refs[i].name.as_str()) {
                let ghost view = node.model();
                nodes.push(node);
                assert(component_nodes(nodes@) =~= component_nodes(before).push(view));
            }
            i += 1;
        }
        nodes
    }

    fn build_group_from_def(&mut self, group: &GroupDef) -> (node: GroupNode)
        requires
            old(self).finite(),
        ensures
            ({
                let built = built_body(
                    group.model(),
                    old(self).known(),
                    old(self).table(),
                    old(self).open(),
                    old(self).built(),
                );
                node.model() == group_node(group.model(), built.body) && final(self).built()
                    == built.cache
            }),
            final(self).continues(*old(self)),
        decreases unused(old(self).known(), old(self).open()), 2int, group.model(), 1int,
    {
        proof {
            group.lemma_model();
        }
        let body = self.build_body(
            &group.fields,
            &group.components,
            &group.groups,
            &group.entries,
            Ghost(group.model()),
        );
        let node = GroupNode {
            name: copy_of(group.name.as_str()),
            required: is_yes(&group.required),
            fields: body.fields,
            components: body.components,
            groups: body.groups,
            entries: body.entries,
        };
        proof {
            node.lemma_model();
        }
        node
    }

    fn build_groups(&mut self, groups: &Vec<GroupDef>) -> (nodes: Vec<GroupNode>)
        requires
            old(self).finite(),
        ensures
            ({
                let built = built_groups(
                    group_models(groups@),
                    groups@.len() as int,
                    old(self).known(),
                    old(self).table(),
                    old(self).open(),
                    old(self).built(),
                );
                group_nodes(nodes@) == built.nodes && final(self).built() == built.cache
            }),
            final(self).continues(*old(self)),
        decreases unused(old(self).known(), old(self).open()), 2int, group_models(groups@), 0int,
    {
        let ghost start = *self;
        let ghost all = group_models(groups@);
        let mut nodes: Vec<GroupNode> = Vec::new();
        let mut i: usize = 0;
        assert(group_nodes(nodes@) =~= seq![]);
        while i < groups.len()
            invariant
                0 <= i <= groups@.len(),
                all == group_models(groups@),
                start.finite(),
                start == *old(self),
                self.continues(start),
                ({
                    let built = built_groups(
                        all,
                        i as int,
                        start.known(),
                        start.table(),
                        start.open(),
                        start.built(),
                    );
                    group_nodes(nodes@) == built.nodes && self.built() == built.cache
                }),
            decreases groups@.len() - i,
        {
            let ghost before = nodes@;
            assert(all[i as int] == groups@[i as int].model());
            assert(decreases_to!(all => all[i as int]));
            let node = self.build_group_from_def(&groups[i]);
            let ghost view = node.model();
            nodes.push(node);
            assert(group_nodes(nodes@) =~= group_nodes(before).push(view));
            i += 1;
        }
        nodes
    }

    fn build_entries(&mut self, entries: &Vec<ContainerEntry>) -> (nodes: Vec<ContainerNode>)
        requires
            old(self).finite(),
        ensures
            ({
                let built = built_entries(
                    entry_models(entries@),
                    entries@.len() as int,
                    old(self).known(),
                    old(self).table(),
                    old(self).open(),
                    old(self).built(),
                );
                container_nodes(nodes@) == built.nodes && final(self).built() == built.cache
            }),
            final(self).continues(*old(self)),
        decreases unused(old(self).known(), old(self).open()), 2int, entry_models(entries@), 0int,
    {
        let ghost start = *self;
        let ghost all = entry_models(entries@);
        let mut nodes: Vec<ContainerNode> = Vec::new();
        let mut i: usize = 0;
        assert(container_nodes(nodes@) =~= seq![]);
        while i < entries.len()
            invariant
                0 <= i <= entries@.len(),
                all == entry_models(entries@),
                start.finite(),
                start == *old(self),
                self.continues(start),
                ({
                    let built = built_entries(
                        all,
                        i as int,
                        start.known(),
                        start.table(),
                        start.open(),
                        start.built(),
                    );
                    container_nodes(nodes@) == built.nodes && self.built() == built.cache
                }),
            decreases entries@.len() - i,
        {
            let ghost before = nodes@;
            assert(all[i as int] == entries@[i as int].model());
            assert(decreases_to!(all => all[i as int]));
            let part: Option<ContainerNode> = match &entries[i] {
                ContainerEntry::Field(field) => match build_field_node(field, self.fields) {
                    Some(node) => Some(ContainerNode::Field(node)),
                    None => None,
                },
                ContainerEntry::Group(group) => {
                    assert(decreases_to!(all[i as int] => all[i as int]->Group_0));
                    Some(ContainerNode::Group(self.build_group_from_def(group)))
                },
                ContainerEntry::Component(component) => match self.build_component(
                    component.name.as_str(),
                ) {
                    Some(node) => Some(ContainerNode::Component(node)),
                    None => None,
                },
            };
            if let Some(part) = part {
                let ghost view = part.model();
                nodes.push(part);
                assert(container_nodes(nodes@) =~= container_nodes(before).push(view));
            }
            i += 1;
        }
        nodes
    }

    fn build_body(
        &mut self,
        fields: &Vec<FieldRef>,
        components: &Vec<ComponentRef>,
        groups: &Vec<GroupDef>,
        entries: &Vec<ContainerEntry>,
        Ghost(parts): Ghost<GroupView>,
    ) -> (body: Body)
        requires
            old(self).finite(),
            parts.fields == field_refs(fields@),
            parts.components == component_refs(components@),
            parts.groups == group_models(groups@),
            parts.entries == entry_models(entries@),
        ensures
            ({
                let built = built_body(
                    parts,
                    old(self).known(),
                    old(self).table(),
                    old(self).open(),
                    old(self).built(),
                );
                body_of(body.fields@, body.components@, body.groups@, body.entries@) == built.body
                    && final(self).built() == built.cache
            }),
            final(self).continues(*old(self)),
        decreases unused(old(self).known(), old(self).open()), 2int, parts, 0int,
    {
        assert(decreases_to!(parts => parts.groups));
        assert(decreases_to!(parts => parts.entries));
        let nodes = build_field_nodes(fields, self.fields);
        let components = self.build_components(components);
        let groups = self.build_groups(groups);
        let mut noted: Vec<String> = Vec::new();
        assert(texts(noted@) =~= seq![]);
        std::mem::swap(&mut noted, &mut self.skipped);
        let entries = self.build_entries(entries);
        self.skipped = noted;
        Body { fields: nodes, components, groups, entries }
    }
}

/// A message with everything in it, and the components built by then.
pub struct BuiltMessage {
    pub node: MessageNodeView,
    pub cache: Progress,
}

pub open spec fn built_message(
    msg: MessageView,
    defs: ComponentMap,
    table: FieldTable,
    cache: Progress,
) -> BuiltMessage {
    let built = built_body(nameless(msg.parts), defs, table, seq![], cache);
    BuiltMessage {
        node: MessageNodeView {
            name: msg.name,
            msg_type: msg.msg_type,
            msg_cat: msg.msg_cat,
            body: built.body,
        },
        cache: built.cache,
    }
}

fn build_message_node<'a>(msg: &Message, builder: &mut ComponentBuilder<'a>) -> (node: MessageNode)
    requires
        old(builder).finite(),
        old(builder).open().len() == 0,
    ensures
        ({
            let built = built_message(
                msg@,
                old(builder).known(),
                old(builder).table(),
                old(builder).built(),
            );
            node@ == built.node && final(builder).built() == built.cache
        }),
        final(builder).continues(*old(builder)),
{
    assert(builder.open() =~= seq![]);
    let body = builder.build_body(
        &msg.fields,
        &msg.components,
        &msg.groups,
        &msg.entries,
        Ghost(nameless(msg@.parts)),
    );
    MessageNode {
        name: copy_of(msg.name.as_str()),
        msg_type: copy_of(msg.msg_type.as_str()),
        msg_cat: copy_of(msg.msg_cat.as_str()),
        fields: body.fields,
        components: body.components,
        groups: body.groups,
        entries: body.entries,
    }
}

/// The tree of a dictionary.
#[derive(Debug)]
pub struct SchemaTree {
    pub fields: TextMap<Arc<Field>>,
    pub components: TextMap<ComponentNode>,
    pub messages: TextMap<MessageNode>,
    pub version: String,
    pub service_pack: String,
}

/// The mathematical content of a `SchemaTree`.
#[verifier::ext_equal]
pub struct TreeView {
    pub fields: FieldTable,
    pub components: NodeCache,
    pub messages: Map<Seq<char>, MessageNodeView>,
    pub version: Seq<char>,
    pub service_pack: Seq<char>,
}

pub open spec fn message_nodes(map: Map<Seq<char>, MessageNode>) -> Map<
    Seq<char>,
    MessageNodeView,
> {
    map.map_values(|n: MessageNode| n@)
}

impl View for SchemaTree {
    type V = TreeView;

    open spec fn view(&self) -> TreeView {
        TreeView {
            fields: shared_fields(self.fields@),
            components: component_cache(self.components@),
            messages: message_nodes(self.messages@),
            version: self.version@,
            service_pack: self.service_pack@,
        }
    }
}

/// The fields by name, the last one where a name comes twice.
pub open spec fn field_table(fields: Seq<FieldView>) -> FieldTable
    decreases fields.len(),
{
    if fields.len() == 0 {
        Map::empty()
    } else {
        field_table(fields.drop_last()).insert(fields.last().name, fields.last())
    }
}

/// The components by name, the last one where a name comes twice.
pub open spec fn named_components(components: Seq<ComponentView>) -> ComponentMap
    decreases components.len(),
{
    if components.len() == 0 {
        Map::empty()
    } else {
        named_components(components.drop_last()).insert(
            components.last().name,
            components.last(),
        )
    }
}

/// The components of a dictionary, header and trailer among them.
pub open spec fn all_components(dict: DictionaryView) -> ComponentMap {
    named_components(dict.components).insert(
        "Header"@,
        ComponentView { name: "Header"@, parts: dict.header.parts },
    ).insert("Trailer"@, ComponentView { name: "Trailer"@, parts: dict.trailer.parts })
}

/// The first `n` of the named components that could be built, by name.
pub struct BuiltTable {
    pub nodes: NodeCache,
    pub cache: Progress,
}

pub open spec fn built_table(
    names: Seq<Seq<char>>,
    n: int,
    defs: ComponentMap,
    table: FieldTable,
) -> BuiltTable
    decreases n,
{
    if n <= 0 || n > names.len() {
        BuiltTable { nodes: Map::empty(), cache: Progress::none() }
    } else {
        let before = built_table(names, n - 1, defs, table);
        let built = built_component(names[n - 1], defs, table, seq![], before.cache);
        BuiltTable {
            nodes: match built.node {
                Some(node) => before.nodes.insert(names[n - 1], node),
                None => before.nodes,
            },
            cache: built.cache,
        }
    }
}

/// The first `n` messages by name.
pub struct BuiltMessages {
    pub nodes: Map<Seq<char>, MessageNodeView>,
    pub cache: Progress,
}

pub open spec fn built_messages(
    messages: Seq<MessageView>,
    n: int,
    defs: ComponentMap,
    table: FieldTable,
    cache: Progress,
) -> BuiltMessages
    decreases n,
{
    if n <= 0 || n > messages.len() {
        BuiltMessages { nodes: Map::empty(), cache }
    } else {
        let before = built_messages(messages, n - 1, defs, table, cache);
        let built = built_message(messages[n - 1], defs, table, before.cache);
        BuiltMessages {
            nodes: before.nodes.insert(messages[n - 1].name, built.node),
            cache: built.cache,
        }
    }
}

/// The service pack, or a dash.
pub open spec fn pack_text(service_pack: Option<Seq<char>>) -> Seq<char> {
    match service_pack {
        Some(text) => if text.len() > 0 {
            text
        } else {
            "-"@
        },
        None => "-"@,
    }
}

/// The tree of a dictionary: components are built in the order of their names, then the
/// messages in the order of the dictionary.
pub open spec fn tree_of(dict: DictionaryView) -> TreeView {
    let table = field_table(dict.fields);
    let defs = all_components(dict);
    let names = sorted(defs.dom());
    let components = built_table(names, names.len() as int, defs, table);
    let messages = built_messages(
        dict.messages,
        dict.messages.len() as int,
        defs,
        table,
        components.cache,
    );
    TreeView {
        fields: table,
        components: components.nodes,
        messages: messages.nodes,
        version: dict.typ + " "@ + dict.major + "."@ + dict.minor,
        service_pack: pack_text(dict.service_pack),
    }
}

/// The warning about a component that stands inside itself.
pub open spec fn left_out_warning(name: Seq<char>) -> Seq<char> {
    "warning: recursive component detected at "@ + name + ", skipping"@
}

/// What there is to warn of when the tree of a dictionary is built.
pub open spec fn tree_warnings(dict: DictionaryView) -> Seq<Seq<char>> {
    let table = field_table(dict.fields);
    let defs = all_components(dict);
    let names = sorted(defs.dom());
    let components = built_table(names, names.len() as int, defs, table);
    let messages = built_messages(
        dict.messages,
        dict.messages.len() as int,
        defs,
        table,
        components.cache,
    );
    messages.cache.skipped.map_values(|name: Seq<char>| left_out_warning(name))
}

fn word_warnings(skipped: &Vec<String>) -> (warnings: Vec<String>)
    ensures
        texts(warnings@) == texts(skipped@).map_values(|name: Seq<char>| left_out_warning(name)),
{
    let ghost all = texts(skipped@).map_values(|name: Seq<char>| left_out_warning(name));
    let mut warnings: Vec<String> = Vec::new();
    let mut i: usize = 0;
    assert(texts(warnings@) =~= all.take(0));
    while i < skipped.len()
        invariant
            i <= skipped@.len(),
            all == texts(skipped@).map_values(|name: Seq<char>| left_out_warning(name)),
            texts(warnings@) == all.take(i as int),
        decreases skipped@.len() - i,
    {
        let ghost before = texts(warnings@);
        let mut text = copy_of("warning: recursive component detected at ");
        text.append(skipped[i].as_str());
        text.append(", skipping");
        let ghost view = text@;
        warnings.push(text);
        assert(texts(warnings@) =~= before.push(view));
        assert(texts(skipped@)[i as int] == skipped@[i as int]@);
        assert(all.take(i + 1) =~= before.push(view));
        i += 1;
    }
    assert(all.take(i as int) =~= all);
    warnings
}

/// The first field, in the order of the names from `from` on, with the number.
pub open spec fn numbered_field(
    names: Seq<Seq<char>>,
    from: int,
    table: FieldTable,
    number: u32,
) -> Option<FieldView>
    decreases names.len() - from,
{
    if from < 0 || from >= names.len() {
        None
    } else if table[names[from]].number == number {
        Some(table[names[from]])
    } else {
        numbered_field(names, from + 1, table, number)
    }
}

fn collect_fields(dict: &FixDictionary) -> (fields: TextMap<Arc<Field>>)
    ensures
        shared_fields(fields@) == field_table(dict@.fields),
{
    let ghost all = field_views(dict.fields.items@);
    let mut fields: TextMap<Arc<Field>> = TextMap::new();
    let mut i: usize = 0;
    assert(shared_fields(fields@) =~= field_table(all.take(0)));
    while i < dict.fields.items.len()
        invariant
            0 <= i <= dict.fields.items@.len(),
            all == field_views(dict.fields.items@),
            shared_fields(fields@) == field_table(all.take(i as int)),
        decreases dict.fields.items@.len() - i,
    {
        assert(all.take(i + 1).drop_last() =~= all.take(i as int));
        assert(all.take(i + 1).last() == dict.fields.items@[i as int]@);
        let ghost before = fields@;
        let field = dict.fields.items[i].duplicate();
        let name = copy_of(field.name.as_str());
        let ghost view = field@;
        fields.insert(name.as_str(), Arc::new(field));
        assert(shared_fields(fields@) =~= shared_fields(before).insert(name@, view));
        i += 1;
    }
    assert(all.take(all.len() as int) =~= all);
    fields
}

fn renamed(component: &ComponentDef, name: &str) -> (copy: ComponentDef)
    ensures
        copy@ == (ComponentView { name: name@, parts: component@.parts }),
{
    let copy = component.duplicate();
    ComponentDef {
        name: copy_of(name),
        fields: copy.fields,
        groups: copy.groups,
        components: copy.components,
        entries: copy.entries,
    }
}

fn collect_components(dict: &FixDictionary) -> (defs: TextMap<ComponentDef>)
    ensures
        component_model(defs@) == all_components(dict@),
{
    let ghost all = component_views(dict.components.items@);
    let mut defs: TextMap<ComponentDef> = TextMap::new();
    let mut i: usize = 0;
    assert(component_model(defs@) =~= named_components(all.take(0)));
    while i < dict.components.items.len()
        invariant
            0 <= i <= dict.components.items@.len(),
            all == component_views(dict.components.items@),
            component_model(defs@) == named_components(all.take(i as int)),
        decreases dict.components.items@.len() - i,
    {
        assert(all.take(i + 1).drop_last() =~= all.take(i as int));
        assert(all.take(i + 1).last() == dict.components.items@[i as int]@);
        let ghost before = defs@;
        let component = dict.components.items[i].duplicate();
        let name = copy_of(component.name.as_str());
        let ghost view = component@;
        defs.insert(name.as_str(), component);
        assert(component_model(defs@) =~= component_model(before).insert(name@, view));
        i += 1;
    }
    assert(all.take(all.len() as int) =~= all);
    let ghost before = defs@;
    let header = renamed(&dict.header, "Header");
    let ghost view = header@;
    defs.insert("Header", header);
    assert(component_model(defs@) =~= component_model(before).insert("Header"@, view));
    let ghost before = defs@;
    let trailer = renamed(&dict.trailer, "Trailer");
    let ghost view = trailer@;
    defs.insert("Trailer", trailer);
    assert(component_model(defs@) =~= component_model(before).insert("Trailer"@, view));
    defs
}

impl SchemaTree {
    /// Builds the tree of a dictionary.
    pub fn build(dict: FixDictionary) -> (tree: SchemaTree)
        ensures
            tree@ == tree_of(dict@),
    {
        SchemaTree::build_with_warnings(dict).0
    }

    /// Builds the tree of a dictionary, and words what there is to warn of.
    pub fn build_with_warnings(dict: FixDictionary) -> (built: (SchemaTree, Vec<String>))
        ensures
            built.0@ == tree_of(dict@),
            texts(built.1@) == tree_warnings(dict@),
    {
        let fields = collect_fields(&dict);
        let defs = collect_components(&dict);
        let ghost table = shared_fields(fields@);
        let ghost known = component_model(defs@);
        defs.know_keys();
        let ghost names = defs.keys();
        assert(known.dom() =~= defs@.dom());
        let mut builder = ComponentBuilder {
            fields: &fields,
            defs: &defs,
            cache: TextMap::new(),
            stack: Vec::new(),
            skipped: Vec::new(),
        };
        let mut components: TextMap<ComponentNode> = TextMap::new();
        let mut i: usize = 0;
        assert(builder.built() =~= Progress::none());
        assert(component_cache(components@) =~= Map::<Seq<char>, ComponentNodeView>::empty());
        assert(builder.open() =~= seq![]);
        let count: usize = defs.len();
        while i < count
            invariant
                i <= count,
                count == names.len(),
                names == defs.keys(),
                builder.finite(),
                builder.known() == known,
                builder.table() == table,
                builder.open() == Seq::<Seq<char>>::empty(),
                ({
                    let built = built_table(names, i as int, known, table);
                    component_cache(components@) == built.nodes && builder.built() == built.cache
                }),
            decreases count - i,
        {
            let (name, _) = defs.entry(i);
            let ghost before = components@;
            if let Some(node) = builder.build_component(name.as_str()) {
                let ghost view = node.model();
                components.insert(name.as_str(), node);
                assert(component_cache(components@) =~= component_cache(before).insert(
                    name@,
                    view,
                ));
            }
            i += 1;
        }
        let ghost cache = builder.built();
        let ghost all = message_views(dict.messages.items@);
        let mut messages: TextMap<MessageNode> = TextMap::new();
        let mut k: usize = 0;
        assert(message_nodes(messages@) =~= Map::<Seq<char>, MessageNodeView>::empty());
        while k < dict.messages.items.len()
            invariant
                k <= dict.messages.items@.len(),
                all == message_views(dict.messages.items@),
                builder.finite(),
                builder.known() == known,
                builder.table() == table,
                builder.open() == Seq::<Seq<char>>::empty(),
                ({
                    let built = built_messages(all, k as int, known, table, cache);
                    message_nodes(messages@) == built.nodes && builder.built() == built.cache
                }),
            decreases dict.messages.items@.len() - k,
        {
            assert(all[k as int] == dict.messages.items@[k as int]@);
            let ghost before = messages@;
            let node = build_message_node(&dict.messages.items[k], &mut builder);
            let ghost view = node@;
            messages.insert(dict.messages.items[k].name.as_str(), node);
            assert(message_nodes(messages@) =~= message_nodes(before).insert(
                all[k as int].name,
                view,
            ));
            k += 1;
        }
        let service_pack = match &dict.service_pack {
            Some(text) => if text.as_str().unicode_len() > 0 {
                copy_of(text.as_str())
            } else {
                copy_of("-")
            },
            None => copy_of("-"),
        };
        let mut version = copy_of(dict.typ.as_str());
        version.append(" ");
        version.append(dict.major.as_str());
        version.append(".");
        version.append(dict.minor.as_str());
        let warnings = word_warnings(&builder.skipped);
        (SchemaTree { fields, components, messages, version, service_pack }, warnings)
    }

    /// The field with the given number; the first in the order of names where there are
    /// more.
    pub fn find_field_by_number(&self, number: u32) -> (field: Option<&Field>)
        ensures
            (match field {
                Some(field) => Some(field@),
                None => None,
            }) == numbered_field(sorted(self@.fields.dom()), 0, self@.fields, number),
    {
        self.fields.know_keys();
        let ghost names = self.fields.keys();
        assert(self@.fields.dom() =~= self.fields@.dom());
        let count: usize = self.fields.len();
        let mut i: usize = 0;
        while i < count
            invariant
                i <= count,
                count == names.len(),
                names == self.fields.keys(),
                names == sorted(self@.fields.dom()),
                numbered_field(names, 0, self@.fields, number) == numbered_field(
                    names,
                    i as int,
                    self@.fields,
                    number,
                ),
            decreases count - i,
        {
            let (_, field) = self.fields.entry(i);
            assert(self@.fields[names[i as int]] == field@);
            if field.number == number {
                return Some(&**field);
            }
            i += 1;
        }
        None
    }
}

} // verus!
