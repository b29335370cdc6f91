//! FIX dictionaries: fields, messages, components and repeating groups, read from XML.
use crate::text::{copy_of, parse_u32, parsed_unsigned, push_char, same, text_view};
use crate::xml::{
    child_named, child_of, find_child, find_root, is_child, node_views, parse_document, root_element,
    xml_document, NodeView, XmlNode,
};
use vstd::prelude::*;

verus! {

/// One allowed value of a field.
#[derive(Debug)]
pub struct Value {
    pub enumeration: String,
    pub description: String,
}

/// Values given in a `<values>` element of their own.
#[derive(Debug)]
pub struct ValuesWrapper {
    pub value: Vec<Value>,
}

/// The definition of a field.
#[derive(Debug)]
pub struct Field {
    pub name: String,
    pub number: u32,
    pub field_type: String,
    pub values: Vec<Value>,
    pub values_wrapper: ValuesWrapper,
}

/// A field's place in a message, component or group.
#[derive(Debug)]
pub struct FieldRef {
    pub name: String,
    pub required: Option<String>,
}

/// A component's place in a message, component or group.
#[derive(Debug)]
pub struct ComponentRef {
    pub name: String,
    pub _required: Option<String>,
}

/// One entry of a container, in the order of the dictionary.
#[derive(Debug)]
pub enum ContainerEntry {
    Field(FieldRef),
    Group(GroupDef),
    Component(ComponentRef),
}

/// The definition of a repeating group.
#[derive(Debug)]
pub struct GroupDef {
    pub name: String,
    pub required: Option<String>,
    pub fields: Vec<FieldRef>,
    pub groups: Vec<GroupDef>,
    pub components: Vec<ComponentRef>,
    pub entries: Vec<ContainerEntry>,
}

/// The definition of a component.
#[derive(Debug)]
pub struct ComponentDef {
    pub name: String,
    pub fields: Vec<FieldRef>,
    pub groups: Vec<GroupDef>,
    pub components: Vec<ComponentRef>,
    pub entries: Vec<ContainerEntry>,
}

/// The definition of a message.
#[derive(Debug)]
pub struct Message {
    pub name: String,
    pub msg_type: String,
    pub msg_cat: String,
    pub fields: Vec<FieldRef>,
    pub groups: Vec<GroupDef>,
    pub components: Vec<ComponentRef>,
    pub entries: Vec<ContainerEntry>,
}

#[derive(Debug)]
pub struct FieldContainer {
    pub items: Vec<Field>,
}

#[derive(Debug)]
pub struct MessageContainer {
    pub items: Vec<Message>,
}

#[derive(Debug)]
pub struct ComponentContainer {
    pub items: Vec<ComponentDef>,
}

/// A FIX dictionary.
#[derive(Debug)]
pub struct FixDictionary {
    pub typ: String,
    pub major: String,
    pub minor: String,
    pub service_pack: Option<String>,
    pub fields: FieldContainer,
    pub messages: MessageContainer,
    pub components: ComponentContainer,
    pub header: ComponentDef,
    pub trailer: ComponentDef,
}

/// Why a dictionary could not be read.
#[derive(Debug)]
pub enum SchemaError {
    Xml(String),
    NoRoot,
    MissingSection(String),
    MissingAttribute { attribute: String, element: String },
    InvalidFieldNumber,
}

// ---------------------------------------------------------------------------
// Models
// ---------------------------------------------------------------------------
pub struct ValueView {
    pub enumeration: Seq<char>,
    pub description: Seq<char>,
}

pub struct FieldView {
    pub name: Seq<char>,
    pub number: u32,
    pub field_type: Seq<char>,
    pub values: Seq<ValueView>,
    pub wrapped: Seq<ValueView>,
}

pub struct FieldRefView {
    pub name: Seq<char>,
    pub required: Option<Seq<char>>,
}

pub struct ComponentRefView {
    pub name: Seq<char>,
    pub required: Option<Seq<char>>,
}

pub enum EntryView {
    Field(FieldRefView),
    Group(GroupView),
    Component(ComponentRefView),
}

pub struct GroupView {
    pub name: Seq<char>,
    pub required: Option<Seq<char>>,
    pub fields: Seq<FieldRefView>,
    pub groups: Seq<GroupView>,
    pub components: Seq<ComponentRefView>,
    pub entries: Seq<EntryView>,
}

/// What a container element holds: its fields, groups and components, and all of them in
/// document order.
pub struct PartsView {
    pub fields: Seq<FieldRefView>,
    pub groups: Seq<GroupView>,
    pub components: Seq<ComponentRefView>,
    pub entries: Seq<EntryView>,
}

pub struct ComponentView {
    pub name: Seq<char>,
    pub parts: PartsView,
}

pub struct MessageView {
    pub name: Seq<char>,
    pub msg_type: Seq<char>,
    pub msg_cat: Seq<char>,
    pub parts: PartsView,
}

pub struct DictionaryView {
    pub typ: Seq<char>,
    pub major: Seq<char>,
    pub minor: Seq<char>,
    pub service_pack: Option<Seq<char>>,
    pub fields: Seq<FieldView>,
    pub messages: Seq<MessageView>,
    pub components: Seq<ComponentView>,
    pub header: ComponentView,
    pub trailer: ComponentView,
}

pub enum ErrorView {
    Xml(Seq<char>),
    NoRoot,
    MissingSection(Seq<char>),
    MissingAttribute { attribute: Seq<char>, element: Seq<char> },
    InvalidFieldNumber,
}

impl View for SchemaError {
    type V = ErrorView;

    open spec fn view(&self) -> ErrorView {
        match self {
            SchemaError::Xml(text) => ErrorView::Xml(text@),
            SchemaError::NoRoot => ErrorView::NoRoot,
            SchemaError::MissingSection(name) => ErrorView::MissingSection(name@),
            SchemaError::MissingAttribute { attribute, element } => ErrorView::MissingAttribute {
                attribute: attribute@,
                element: element@,
            },
            SchemaError::InvalidFieldNumber => ErrorView::InvalidFieldNumber,
        }
    }
}

impl View for Value {
    type V = ValueView;

    open spec fn view(&self) -> ValueView {
        ValueView { enumeration: self.enumeration@, description: self.description@ }
    }
}

pub open spec fn value_views(values: Seq<Value>) -> Seq<ValueView> {
    values.map_values(|v: Value| v@)
}

impl View for Field {
    type V = FieldView;

    open spec fn view(&self) -> FieldView {
        FieldView {
            name: self.name@,
            number: self.number,
            field_type: self.field_type@,
            values: value_views(self.values@),
            wrapped: value_views(self.values_wrapper.value@),
        }
    }
}

impl View for FieldRef {
    type V = FieldRefView;

    open spec fn view(&self) -> FieldRefView {
        FieldRefView { name: self.name@, required: text_view(self.required) }
    }
}

impl View for ComponentRef {
    type V = ComponentRefView;

    open spec fn view(&self) -> ComponentRefView {
        ComponentRefView { name: self.name@, required: text_view(self._required) }
    }
}

pub open spec fn field_refs(refs: Seq<FieldRef>) -> Seq<FieldRefView> {
    refs.map_values(|r: FieldRef| r@)
}

pub open spec fn component_refs(refs: Seq<ComponentRef>) -> Seq<ComponentRefView> {
    refs.map_values(|r: ComponentRef| r@)
}

impl GroupDef {
    /// The mathematical content of a group.
    pub open spec fn model(self) -> GroupView
        decreases self,
    {
        GroupView {
            name: self.name@,
            required: text_view(self.required),
            fields: field_refs(self.fields@),
            groups: Seq::new(
                self.groups@.len(),
                |i: int|
                    if 0 <= i < self.groups@.len() {
                        self.groups@[i].model()
                    } else {
                        arbitrary()
                    },
            ),
            components: component_refs(self.components@),
            entries: Seq::new(
                self.entries@.len(),
                |i: int|
                    if 0 <= i < self.entries@.len() {
                        self.entries@[i].model()
                    } else {
                        arbitrary()
                    },
            ),
        }
    }
}

impl ContainerEntry {
    /// The mathematical content of an entry.
    pub open spec fn model(self) -> EntryView
        decreases self,
    {
        match self {
            ContainerEntry::Field(field) => EntryView::Field(field@),
            ContainerEntry::Group(group) => EntryView::Group(group.model()),
            ContainerEntry::Component(component) => EntryView::Component(component@),
        }
    }
}

pub open spec fn group_models(groups: Seq<GroupDef>) -> Seq<GroupView> {
    groups.map_values(|g: GroupDef| g.model())
}

pub open spec fn entry_models(entries: Seq<ContainerEntry>) -> Seq<EntryView> {
    entries.map_values(|e: ContainerEntry| e.model())
}

impl GroupDef {
    pub proof fn lemma_model(self)
        ensures
            self.model() == (GroupView {
                name: self.name@,
                required: text_view(self.required),
                fields: field_refs(self.fields@),
                groups: group_models(self.groups@),
                components: component_refs(self.components@),
                entries: entry_models(self.entries@),
            }),
    {
        assert(self.model().groups =~= group_models(self.groups@));
        assert(self.model().entries =~= entry_models(self.entries@));
    }
}

pub open spec fn parts_of(
    fields: Seq<FieldRef>,
    groups: Seq<GroupDef>,
    components: Seq<ComponentRef>,
    entries: Seq<ContainerEntry>,
) -> PartsView {
    PartsView {
        fields: field_refs(fields),
        groups: group_models(groups),
        components: component_refs(components),
        entries: entry_models(entries),
    }
}

impl View for ComponentDef {
    type V = ComponentView;

    open spec fn view(&self) -> ComponentView {
        ComponentView {
            name: self.name@,
            parts: parts_of(self.fields@, self.groups@, self.components@, self.entries@),
        }
    }
}

impl View for Message {
    type V = MessageView;

    open spec fn view(&self) -> MessageView {
        MessageView {
            name: self.name@,
            msg_type: self.msg_type@,
            msg_cat: self.msg_cat@,
            parts: parts_of(self.fields@, self.groups@, self.components@, self.entries@),
        }
    }
}

pub open spec fn field_views(fields: Seq<Field>) -> Seq<FieldView> {
    fields.map_values(|f: Field| f@)
}

pub open spec fn message_views(messages: Seq<Message>) -> Seq<MessageView> {
    messages.map_values(|m: Message| m@)
}

pub open spec fn component_views(components: Seq<ComponentDef>) -> Seq<ComponentView> {
    components.map_values(|c: ComponentDef| c@)
}

impl View for FixDictionary {
    type V = DictionaryView;

    open spec fn view(&self) -> DictionaryView {
        DictionaryView {
            typ: self.typ@,
            major: self.major@,
            minor: self.minor@,
            service_pack: text_view(self.service_pack),
            fields: field_views(self.fields.items@),
            messages: message_views(self.messages.items@),
            components: component_views(self.components.items@),
            header: self.header@,
            trailer: self.trailer@,
        }
    }
}

// ---------------------------------------------------------------------------
// Reading attributes
// ---------------------------------------------------------------------------
/// `text` with every character outside ASCII replaced by `?`.
pub open spec fn sanitized(text: Seq<char>) -> Seq<char> {
    text.map_values(
        |c: char|
            if '\u{80}' > c {
                c
            } else {
                '?'
            },
    )
}

/// Replaces every character outside ASCII by `?`.
pub fn sanitize_ascii(input: &str) -> (clean: String)
    ensures
        clean@ == sanitized(input@),
{
    let mut clean = String::new();
    for c in it: input.chars()
        invariant
            clean@ =~= sanitized(it.seq().take(it.index() as int)),
    {
        if '\u{80}' > c {
            push_char(&mut clean, c);
        } else {
            push_char(&mut clean, '?');
        }
    }
    assert(clean@ =~= sanitized(input@));
    clean
}

pub open spec fn optional_attribute(node: NodeView, name: Seq<char>) -> Option<Seq<char>> {
    match node.attribute(name) {
        Some(value) => Some(sanitized(value)),
        None => None,
    }
}

pub open spec fn attribute_or_empty(node: NodeView, name: Seq<char>) -> Seq<char> {
    match node.attribute(name) {
        Some(value) => sanitized(value),
        None => seq![],
    }
}

pub open spec fn needed_attribute(node: NodeView, name: Seq<char>) -> Result<Seq<char>, ErrorView> {
    match node.attribute(name) {
        Some(value) => Ok(sanitized(value)),
        None => Err(ErrorView::MissingAttribute { attribute: name, element: node.name }),
    }
}

pub open spec fn text_result(result: Result<String, SchemaError>) -> Result<Seq<char>, ErrorView> {
    match result {
        Ok(text) => Ok(text@),
        Err(error) => Err(error@),
    }
}

/// An attribute that the element must have.
fn attr(node: &XmlNode, name: &str) -> (value: Result<String, SchemaError>)
    ensures
        text_result(value) == needed_attribute(node@, name@),
{
    match node.attribute(name) {
        Some(value) => Ok(sanitize_ascii(value.as_str())),
        None => Err(
            SchemaError::MissingAttribute {
                attribute: copy_of(name),
                element: copy_of(node.name.as_str()),
            },
        ),
    }
}

fn optional_attr(node: &XmlNode, name: &str) -> (value: Option<String>)
    ensures
        text_view(value) == optional_attribute(node@, name@),
{
    match node.attribute(name) {
        Some(value) => Some(sanitize_ascii(value.as_str())),
        None => None,
    }
}

fn attr_or_empty(node: &XmlNode, name: &str) -> (value: String)
    ensures
        value@ == attribute_or_empty(node@, name@),
{
    match node.attribute(name) {
        Some(value) => sanitize_ascii(value.as_str()),
        None => {
            let empty = String::new();
            assert(empty@ =~= seq![]);
            empty
        },
    }
}

// ---------------------------------------------------------------------------
// Fields and their values
// ---------------------------------------------------------------------------
pub open spec fn value_of(node: NodeView) -> Result<ValueView, ErrorView> {
    match needed_attribute(node, "enum"@) {
        Ok(enumeration) => Ok(
            ValueView { enumeration, description: attribute_or_empty(node, "description"@) },
        ),
        Err(error) => Err(error),
    }
}

/// The `<value>` elements under `parent` up to node `upto`.
pub open spec fn values_under(nodes: Seq<NodeView>, parent: int, upto: int) -> Result<
    Seq<ValueView>,
    ErrorView,
>
    decreases upto - parent,
{
    if upto <= parent + 1 {
        Ok(seq![])
    } else {
        match values_under(nodes, parent, upto - 1) {
            Err(error) => Err(error),
            Ok(found) => if is_child(nodes, upto - 1, parent) && nodes[upto - 1].name == "value"@ {
                match value_of(nodes[upto - 1]) {
                    Ok(value) => Ok(found.push(value)),
                    Err(error) => Err(error),
                }
            } else {
                Ok(found)
            },
        }
    }
}

/// The values of the field element `parent` up to node `upto`: those directly under it, and
/// those in `<values>` elements.
pub open spec fn field_values(nodes: Seq<NodeView>, parent: int, upto: int) -> Result<
    (Seq<ValueView>, Seq<ValueView>),
    ErrorView,
>
    decreases upto - parent,
{
    if upto <= parent + 1 {
        Ok((seq![], seq![]))
    } else {
        match field_values(nodes, parent, upto - 1) {
            Err(error) => Err(error),
            Ok((inline, wrapped)) => if !is_child(nodes, upto - 1, parent) {
                Ok((inline, wrapped))
            } else if nodes[upto - 1].name == "value"@ {
                match value_of(nodes[upto - 1]) {
                    Ok(value) => Ok((inline.push(value), wrapped)),
                    Err(error) => Err(error),
                }
            } else if nodes[upto - 1].name == "values"@ {
                match values_under(nodes, upto - 1, nodes.len() as int) {
                    Ok(more) => Ok((inline, wrapped + more)),
                    Err(error) => Err(error),
                }
            } else {
                Ok((inline, wrapped))
            },
        }
    }
}

pub open spec fn field_of(nodes: Seq<NodeView>, at: int) -> Result<FieldView, ErrorView> {
    match field_values(nodes, at, nodes.len() as int) {
        Err(error) => Err(error),
        Ok((values, wrapped)) => match needed_attribute(nodes[at], "name"@) {
            Err(error) => Err(error),
            Ok(name) => match needed_attribute(nodes[at], "number"@) {
                Err(error) => Err(error),
                Ok(number) => match parsed_unsigned(number, u32::MAX as nat) {
                    None => Err(ErrorView::InvalidFieldNumber),
                    Some(number) => match needed_attribute(nodes[at], "type"@) {
                        Err(error) => Err(error),
                        Ok(field_type) => Ok(
                            FieldView { name, number: number as u32, field_type, values, wrapped },
                        ),
                    },
                },
            },
        },
    }
}

pub open spec fn fields_under(nodes: Seq<NodeView>, parent: int, upto: int) -> Result<
    Seq<FieldView>,
    ErrorView,
>
    decreases upto - parent,
{
    if upto <= parent + 1 {
        Ok(seq![])
    } else {
        match fields_under(nodes, parent, upto - 1) {
            Err(error) => Err(error),
            Ok(found) => if is_child(nodes, upto - 1, parent) && nodes[upto - 1].name == "field"@ {
                match field_of(nodes, upto - 1) {
                    Ok(field) => Ok(found.push(field)),
                    Err(error) => Err(error),
                }
            } else {
                Ok(found)
            },
        }
    }
}

fn parse_value(node: &XmlNode) -> (value: Result<Value, SchemaError>)
    ensures
        (match value {
            Ok(v) => Ok(v@),
            Err(e) => Err(e@),
        }) == value_of(node@),
{
    match attr(node, "enum") {
        Ok(enumeration) => Ok(
            Value { enumeration, description: attr_or_empty(node, "description") },
        ),
        Err(error) => Err(error),
    }
}

fn push_value(values: &mut Vec<Value>, value: Value)
    ensures
        value_views(final(values)@) == value_views(old(values)@).push(value@),
{
    let ghost before = values@;
    values.push(value);
    assert(value_views(values@) =~= value_views(before).push(value@));
}

/// An error stays the outcome, however many more nodes are looked at.
proof fn lemma_values_error(nodes: Seq<NodeView>, parent: int, upto: int, more: int)
    requires
        upto <= more,
        values_under(nodes, parent, upto) is Err,
    ensures
        values_under(nodes, parent, more) == values_under(nodes, parent, upto),
    decreases more - upto,
{
    if upto < more {
        lemma_values_error(nodes, parent, upto, more - 1);
    }
}

fn parse_values(nodes: &Vec<XmlNode>, parent: usize, values: &mut Vec<Value>) -> (result: Result<
    (),
    SchemaError,
>)
    requires
        parent < nodes@.len(),
    ensures
        match (result, values_under(node_views(nodes@), parent as int, nodes@.len() as int)) {
            (Ok(()), Ok(found)) => value_views(final(values)@) == value_views(old(values)@) + found,
            (Err(error), Err(expected)) => error@ == expected,
            _ => false,
        },
{
    let ghost all = node_views(nodes@);
    let ghost start = value_views(values@);
    let total: usize = nodes.len();
    let mut i: usize = parent + 1;
    assert(start + Seq::<ValueView>::empty() =~= start);
    while i < total
        invariant
            total == nodes@.len(),
            parent < i <= total,
            all == node_views(nodes@),
            values_under(all, parent as int, i as int) is Ok,
            value_views(values@) == start + values_under(all, parent as int, i as int)->Ok_0,
        decreases total - i,
    {
        let ghost found = values_under(all, parent as int, i as int)->Ok_0;
        if child_of(nodes, i, parent) && same(nodes[i].name.as_str(), "value") {
            match parse_value(&nodes[i]) {
                Ok(value) => {
                    let ghost view = value@;
                    push_value(values, value);
                    assert(value_views(values@) =~= start + found.push(view));
                },
                Err(error) => {
                    proof {
                        lemma_values_error(all, parent as int, i + 1, total as int);
                    }
                    return Err(error);
                },
            }
        }
        i += 1;
    }
    Ok(())
}

proof fn lemma_field_values_error(nodes: Seq<NodeView>, parent: int, upto: int, more: int)
    requires
        upto <= more,
        field_values(nodes, parent, upto) is Err,
    ensures
        field_values(nodes, parent, more) == field_values(nodes, parent, upto),
    decreases more - upto,
{
    if upto < more {
        lemma_field_values_error(nodes, parent, upto, more - 1);
    }
}

pub open spec fn field_result(result: Result<Field, SchemaError>) -> Result<FieldView, ErrorView> {
    match result {
        Ok(field) => Ok(field@),
        Err(error) => Err(error@),
    }
}

fn parse_field(nodes: &Vec<XmlNode>, at: usize) -> (field: Result<Field, SchemaError>)
    requires
        at < nodes@.len(),
    ensures
        field_result(field) == field_of(node_views(nodes@), at as int),
{
    let ghost all = node_views(nodes@);
    let mut inline: Vec<Value> = Vec::new();
    let mut wrapper: Vec<Value> = Vec::new();
    let total: usize = nodes.len();
    let mut i: usize = at + 1;
    assert(value_views(inline@) =~= seq![]);
    assert(value_views(wrapper@) =~= seq![]);
    while i < total
        invariant
            total == nodes@.len(),
            at < i <= total,
            all == node_views(nodes@),
            field_values(all, at as int, i as int) == Ok::<_, ErrorView>(
                (value_views(inline@), value_views(wrapper@)),
            ),
        decreases total - i,
    {
        if child_of(nodes, i, at) {
            if same(nodes[i].name.as_str(), "value") {
                match parse_value(&nodes[i]) {
                    Ok(value) => {
                        push_value(&mut inline, value);
                    },
                    Err(error) => {
                        proof {
                            lemma_field_values_error(all, at as int, i + 1, total as int);
                        }
                        return Err(error);
                    },
                }
            } else if same(nodes[i].name.as_str(), "values") {
                if let Err(error) = parse_values(nodes, i, &mut wrapper) {
                    proof {
                        lemma_field_values_error(all, at as int, i + 1, total as int);
                    }
                    return Err(error);
                }
            }
        }
        i += 1;
    }
    let name = match attr(&nodes[at], "name") {
        Ok(name) => name,
        Err(error) => {
            return Err(error);
        },
    };
    let digits = match attr(&nodes[at], "number") {
        Ok(digits) => digits,
        Err(error) => {
            return Err(error);
        },
    };
    let number: u32 = match parse_u32(digits.as_str()) {
        Some(number) => number,
        None => {
            return Err(SchemaError::InvalidFieldNumber);
        },
    };
    let field_type = match attr(&nodes[at], "type") {
        Ok(field_type) => field_type,
        Err(error) => {
            return Err(error);
        },
    };
    Ok(
        Field {
            name,
            number,
            field_type,
            values: inline,
            values_wrapper: ValuesWrapper { value: wrapper },
        },
    )
}

proof fn lemma_fields_error(nodes: Seq<NodeView>, parent: int, upto: int, more: int)
    requires
        upto <= more,
        fields_under(nodes, parent, upto) is Err,
    ensures
        fields_under(nodes, parent, more) == fields_under(nodes, parent, upto),
    decreases more - upto,
{
    if upto < more {
        lemma_fields_error(nodes, parent, upto, more - 1);
    }
}

fn parse_fields(nodes: &Vec<XmlNode>, parent: usize) -> (fields: Result<Vec<Field>, SchemaError>)
    requires
        parent < nodes@.len(),
    ensures
        (match fields {
            Ok(f) => Ok(field_views(f@)),
            Err(e) => Err(e@),
        }) == fields_under(node_views(nodes@), parent as int, nodes@.len() as int),
{
    let ghost all = node_views(nodes@);
    let mut fields: Vec<Field> = Vec::new();
    let total: usize = nodes.len();
    let mut i: usize = parent + 1;
    assert(field_views(fields@) =~= seq![]);
    while i < total
        invariant
            total == nodes@.len(),
            parent < i <= total,
            all == node_views(nodes@),
            fields_under(all, parent as int, i as int) == Ok::<_, ErrorView>(field_views(fields@)),
        decreases total - i,
    {
        if child_of(nodes, i, parent) && same(nodes[i].name.as_str(), "field") {
            match parse_field(nodes, i) {
                Ok(field) => {
                    let ghost before = fields@;
                    fields.push(field);
                    assert(field_views(fields@) =~= field_views(before).push(field@));
                },
                Err(error) => {
                    proof {
                        lemma_fields_error(all, parent as int, i + 1, total as int);
                    }
                    return Err(error);
                },
            }
        }
        i += 1;
    }
    Ok(fields)
}

// ---------------------------------------------------------------------------
// Containers: messages, components and groups
// ---------------------------------------------------------------------------
pub open spec fn field_ref_of(node: NodeView) -> Result<FieldRefView, ErrorView> {
    match needed_attribute(node, "name"@) {
        Ok(name) => Ok(FieldRefView { name, required: optional_attribute(node, "required"@) }),
        Err(error) => Err(error),
    }
}

pub open spec fn component_ref_of(node: NodeView) -> Result<ComponentRefView, ErrorView> {
    match needed_attribute(node, "name"@) {
        Ok(name) => Ok(ComponentRefView { name, required: optional_attribute(node, "required"@) }),
        Err(error) => Err(error),
    }
}

/// What the container element `parent` holds up to node `upto`.
pub open spec fn parts_under(nodes: Seq<NodeView>, parent: int, upto: int) -> Result<
    PartsView,
    ErrorView,
>
    decreases nodes.len() - parent, upto,
{
    if upto <= parent + 1 || parent < 0 || upto > nodes.len() {
        Ok(PartsView { fields: seq![], groups: seq![], components: seq![], entries: seq![] })
    } else {
        match parts_under(nodes, parent, upto - 1) {
            Err(error) => Err(error),
            Ok(parts) => if !is_child(nodes, upto - 1, parent) {
                Ok(parts)
            } else if nodes[upto - 1].name == "field"@ {
                match field_ref_of(nodes[upto - 1]) {
                    Ok(field) => Ok(
                        PartsView {
                            fields: parts.fields.push(field),
                            entries: parts.entries.push(EntryView::Field(field)),
                            ..parts
                        },
                    ),
                    Err(error) => Err(error),
                }
            } else if nodes[upto - 1].name == "group"@ {
                match group_of(nodes, upto - 1) {
                    Ok(group) => Ok(
                        PartsView {
                            groups: parts.groups.push(group),
                            entries: parts.entries.push(EntryView::Group(group)),
                            ..parts
                        },
                    ),
                    Err(error) => Err(error),
                }
            } else if nodes[upto - 1].name == "component"@ {
                match component_ref_of(nodes[upto - 1]) {
                    Ok(component) => Ok(
                        PartsView {
                            components: parts.components.push(component),
                            entries: parts.entries.push(EntryView::Component(component)),
                            ..parts
                        },
                    ),
                    Err(error) => Err(error),
                }
            } else {
                Ok(parts)
            },
        }
    }
}

/// The repeating group that the element `at` defines.
pub open spec fn group_of(nodes: Seq<NodeView>, at: int) -> Result<GroupView, ErrorView>
    decreases nodes.len() - at, nodes.len() + 1,
{
    match parts_under(nodes, at, nodes.len() as int) {
        Err(error) => Err(error),
        Ok(parts) => match needed_attribute(nodes[at], "name"@) {
            Err(error) => Err(error),
            Ok(name) => Ok(
                GroupView {
                    name,
                    required: optional_attribute(nodes[at], "required"@),
                    fields: parts.fields,
                    groups: parts.groups,
                    components: parts.components,
                    entries: parts.entries,
                },
            ),
        },
    }
}

proof fn lemma_parts_error(nodes: Seq<NodeView>, parent: int, upto: int, more: int)
    requires
        0 <= parent < upto <= more <= nodes.len(),
        parts_under(nodes, parent, upto) is Err,
    ensures
        parts_under(nodes, parent, more) == parts_under(nodes, parent, upto),
    decreases more - upto,
{
    if upto < more {
        lemma_parts_error(nodes, parent, upto, more - 1);
    }
}

/// The parts of a container while they are read.
struct ParsedEntries {
    fields: Vec<FieldRef>,
    groups: Vec<GroupDef>,
    components: Vec<ComponentRef>,
    entries: Vec<ContainerEntry>,
}

impl ParsedEntries {
    spec fn parts(self) -> PartsView {
        parts_of(self.fields@, self.groups@, self.components@, self.entries@)
    }
}

fn copy_optional(text: &Option<String>) -> (copy: Option<String>)
    ensures
        text_view(copy) == text_view(*text),
{
    match text {
        Some(text) => Some(copy_of(text.as_str())),
        None => None,
    }
}

impl FieldRef {
    /// A copy of this reference.
    pub fn duplicate(&self) -> (copy: FieldRef)
        ensures
            copy@ == self@,
    {
        FieldRef { name: copy_of(self.name.as_str()), required: copy_optional(&self.required) }
    }
}

impl ComponentRef {
    /// A copy of this reference.
    pub fn duplicate(&self) -> (copy: ComponentRef)
        ensures
            copy@ == self@,
    {
        ComponentRef { name: copy_of(self.name.as_str()), _required: copy_optional(&self._required) }
    }
}

fn duplicate_fields(refs: &Vec<FieldRef>) -> (copy: Vec<FieldRef>)
    ensures
        field_refs(copy@) == field_refs(refs@),
{
    let mut copy: Vec<FieldRef> = Vec::new();
    let mut i: usize = 0;
    while i < refs.len()
        invariant
            0 <= i <= refs@.len(),
            copy@.len() == i,
            forall|j: int| 0 <= j < i ==> (#[trigger] copy@[j])@ == refs@[j]@,
        decreases refs@.len() - i,
    {
        copy.push(refs[i].duplicate());
        i += 1;
    }
    assert(field_refs(copy@) =~= field_refs(refs@));
    copy
}

fn duplicate_components(refs: &Vec<ComponentRef>) -> (copy: Vec<ComponentRef>)
    ensures
        component_refs(copy@) == component_refs(refs@),
{
    let mut copy: Vec<ComponentRef> = Vec::new();
    let mut i: usize = 0;
    while i < refs.len()
        invariant
            0 <= i <= refs@.len(),
            copy@.len() == i,
            forall|j: int| 0 <= j < i ==> (#[trigger] copy@[j])@ == refs@[j]@,
        decreases refs@.len() - i,
    {
        copy.push(refs[i].duplicate());
        i += 1;
    }
    assert(component_refs(copy@) =~= component_refs(refs@));
    copy
}

fn duplicate_groups(groups: &Vec<GroupDef>) -> (copy: Vec<GroupDef>)
    ensures
        group_models(copy@) == group_models(groups@),
    decreases groups,
{
    let mut copy: Vec<GroupDef> = Vec::new();
    let mut i: usize = 0;
    while i < groups.len()
        invariant
            0 <= i <= groups@.len(),
            copy@.len() == i,
            forall|j: int| 0 <= j < i ==> (#[trigger] copy@[j]).model() == groups@[j].model(),
        decreases groups@.len() - i,
    {
        assert(decreases_to!(groups => groups@[i as int]));
        copy.push(groups[i].duplicate());
        i += 1;
    }
    assert(group_models(copy@) =~= group_models(groups@));
    copy
}

fn duplicate_entries(entries: &Vec<ContainerEntry>) -> (copy: Vec<ContainerEntry>)
    ensures
        entry_models(copy@) == entry_models(entries@),
    decreases entries,
{
    let mut copy: Vec<ContainerEntry> = Vec::new();
    let mut i: usize = 0;
    while i < entries.len()
        invariant
            0 <= i <= entries@.len(),
            copy@.len() == i,
            forall|j: int| 0 <= j < i ==> (#[trigger] copy@[j]).model() == entries@[j].model(),
        decreases entries@.len() - i,
    {
        assert(decreases_to!(entries => entries@[i as int]));
        copy.push(entries[i].duplicate());
        i += 1;
    }
    assert(entry_models(copy@) =~= entry_models(entries@));
    copy
}

impl GroupDef {
    /// A copy of this group and all it holds.
    pub fn duplicate(&self) -> (copy: GroupDef)
        ensures
            copy.model() == self.model(),
        decreases self,
    {
        let copy = GroupDef {
            name: copy_of(self.name.as_str()),
            required: copy_optional(&self.required),
            fields: duplicate_fields(&self.fields),
            groups: duplicate_groups(&self.groups),
            components: duplicate_components(&self.components),
            entries: duplicate_entries(&self.entries),
        };
        proof {
            copy.lemma_model();
            self.lemma_model();
        }
        copy
    }
}

impl ContainerEntry {
    /// A copy of this entry.
    pub fn duplicate(&self) -> (copy: ContainerEntry)
        ensures
            copy.model() == self.model(),
        decreases self,
    {
        match self {
            ContainerEntry::Field(field) => ContainerEntry::Field(field.duplicate()),
            ContainerEntry::Group(group) => ContainerEntry::Group(group.duplicate()),
            ContainerEntry::Component(component) => ContainerEntry::Component(
                component.duplicate(),
            ),
        }
    }
}

impl ComponentDef {
    /// A copy of this component.
    pub fn duplicate(&self) -> (copy: ComponentDef)
        ensures
            copy@ == self@,
    {
        ComponentDef {
            name: copy_of(self.name.as_str()),
            fields: duplicate_fields(&self.fields),
            groups: duplicate_groups(&self.groups),
            components: duplicate_components(&self.components),
            entries: duplicate_entries(&self.entries),
        }
    }
}

pub open spec fn group_result(result: Result<GroupDef, SchemaError>) -> Result<
    GroupView,
    ErrorView,
> {
    match result {
        Ok(group) => Ok(group.model()),
        Err(error) => Err(error@),
    }
}

fn parse_group(nodes: &Vec<XmlNode>, at: usize) -> (group: Result<GroupDef, SchemaError>)
    requires
        at < nodes@.len(),
    ensures
        group_result(group) == group_of(node_views(nodes@), at as int),
    decreases nodes@.len() - at, 1int,
{
    let parsed = match parse_container_entries(nodes, at) {
        Ok(parsed) => parsed,
        Err(error) => {
            return Err(error);
        },
    };
    let name = match attr(&nodes[at], "name") {
        Ok(name) => name,
        Err(error) => {
            return Err(error);
        },
    };
    let group = GroupDef {
        name,
        required: optional_attr(&nodes[at], "required"),
        fields: parsed.fields,
        groups: parsed.groups,
        components: parsed.components,
        entries: parsed.entries,
    };
    proof {
        group.lemma_model();
    }
    Ok(group)
}

fn parse_container_entries(nodes: &Vec<XmlNode>, parent: usize) -> (parsed: Result<
    ParsedEntries,
    SchemaError,
>)
    requires
        parent < nodes@.len(),
    ensures
        (match parsed {
            Ok(p) => Ok(p.parts()),
            Err(e) => Err(e@),
        }) == parts_under(node_views(nodes@), parent as int, nodes@.len() as int),
    decreases nodes@.len() - parent, 0int,
{
    let ghost all = node_views(nodes@);
    let mut parsed = ParsedEntries {
        fields: Vec::new(),
        groups: Vec::new(),
        components: Vec::new(),
        entries: Vec::new(),
    };
    let total: usize = nodes.len();
    let mut i: usize = parent + 1;
    assert(parsed.parts().fields =~= seq![]);
    assert(parsed.parts().groups =~= seq![]);
    assert(parsed.parts().components =~= seq![]);
    assert(parsed.parts().entries =~= seq![]);
    while i < total
        invariant
            total == nodes@.len(),
            parent < i <= total,
            all == node_views(nodes@),
            parts_under(all, parent as int, i as int) == Ok::<_, ErrorView>(parsed.parts()),
        decreases total - i,
    {
        let ghost before = parsed.parts();
        if child_of(nodes, i, parent) {
            if same(nodes[i].name.as_str(), "field") {
                match attr(&nodes[i], "name") {
                    Ok(name) => {
                        let field = FieldRef { name, required: optional_attr(&nodes[i], "required") };
                        let ghost view = field@;
                        parsed.entries.push(ContainerEntry::Field(field.duplicate()));
                        parsed.fields.push(field);
                        assert(parsed.parts().fields =~= before.fields.push(view));
                        assert(parsed.parts().entries =~= before.entries.push(
                            EntryView::Field(view),
                        ));
                    },
                    Err(error) => {
                        proof {
                            lemma_parts_error(all, parent as int, i + 1, total as int);
                        }
                        return Err(error);
                    },
                }
            } else if same(nodes[i].name.as_str(), "group") {
                match parse_group(nodes, i) {
                    Ok(group) => {
                        let ghost view = group.model();
                        parsed.entries.push(ContainerEntry::Group(group.duplicate()));
                        parsed.groups.push(group);
                        assert(parsed.parts().groups =~= before.groups.push(view));
                        assert(parsed.parts().entries =~= before.entries.push(
                            EntryView::Group(view),
                        ));
                    },
                    Err(error) => {
                        proof {
                            lemma_parts_error(all, parent as int, i + 1, total as int);
                        }
                        return Err(error);
                    },
                }
            } else if same(nodes[i].name.as_str(), "component") {
                match attr(&nodes[i], "name") {
                    Ok(name) => {
                        let component = ComponentRef {
                            name,
                            _required: optional_attr(&nodes[i], "required"),
                        };
                        let ghost view = component@;
                        parsed.entries.push(ContainerEntry::Component(component.duplicate()));
                        parsed.components.push(component);
                        assert(parsed.parts().components =~= before.components.push(view));
                        assert(parsed.parts().entries =~= before.entries.push(
                            EntryView::Component(view),
                        ));
                    },
                    Err(error) => {
                        proof {
                            lemma_parts_error(all, parent as int, i + 1, total as int);
                        }
                        return Err(error);
                    },
                }
            }
        }
        i += 1;
    }
    Ok(parsed)
}

pub open spec fn message_of(nodes: Seq<NodeView>, at: int) -> Result<MessageView, ErrorView> {
    match parts_under(nodes, at, nodes.len() as int) {
        Err(error) => Err(error),
        Ok(parts) => match needed_attribute(nodes[at], "name"@) {
            Err(error) => Err(error),
            Ok(name) => match needed_attribute(nodes[at], "msgtype"@) {
                Err(error) => Err(error),
                Ok(msg_type) => Ok(
                    MessageView {
                        name,
                        msg_type,
                        msg_cat: attribute_or_empty(nodes[at], "msgcat"@),
                        parts,
                    },
                ),
            },
        },
    }
}

/// A component; only one listed under `<components>` needs a name.
pub open spec fn component_of(nodes: Seq<NodeView>, at: int, require_name: bool) -> Result<
    ComponentView,
    ErrorView,
> {
    let name = if require_name {
        needed_attribute(nodes[at], "name"@)
    } else {
        Ok(attribute_or_empty(nodes[at], "name"@))
    };
    match name {
        Err(error) => Err(error),
        Ok(name) => match parts_under(nodes, at, nodes.len() as int) {
            Err(error) => Err(error),
            Ok(parts) => Ok(ComponentView { name, parts }),
        },
    }
}

pub open spec fn messages_under(nodes: Seq<NodeView>, parent: int, upto: int) -> Result<
    Seq<MessageView>,
    ErrorView,
>
    decreases upto - parent,
{
    if upto <= parent + 1 {
        Ok(seq![])
    } else {
        match messages_under(nodes, parent, upto - 1) {
            Err(error) => Err(error),
            Ok(found) => if is_child(nodes, upto - 1, parent) && nodes[upto - 1].name
                == "message"@ {
                match message_of(nodes, upto - 1) {
                    Ok(message) => Ok(found.push(message)),
                    Err(error) => Err(error),
                }
            } else {
                Ok(found)
            },
        }
    }
}

pub open spec fn components_under(nodes: Seq<NodeView>, parent: int, upto: int) -> Result<
    Seq<ComponentView>,
    ErrorView,
>
    decreases upto - parent,
{
    if upto <= parent + 1 {
        Ok(seq![])
    } else {
        match components_under(nodes, parent, upto - 1) {
            Err(error) => Err(error),
            Ok(found) => if is_child(nodes, upto - 1, parent) && nodes[upto - 1].name
                == "component"@ {
                match component_of(nodes, upto - 1, true) {
                    Ok(component) => Ok(found.push(component)),
                    Err(error) => Err(error),
                }
            } else {
                Ok(found)
            },
        }
    }
}

fn parse_message(nodes: &Vec<XmlNode>, at: usize) -> (message: Result<Message, SchemaError>)
    requires
        at < nodes@.len(),
    ensures
        (match message {
            Ok(m) => Ok(m@),
            Err(e) => Err(e@),
        }) == message_of(node_views(nodes@), at as int),
{
    let parsed = match parse_container_entries(nodes, at) {
        Ok(parsed) => parsed,
        Err(error) => {
            return Err(error);
        },
    };
    let name = match attr(&nodes[at], "name") {
        Ok(name) => name,
        Err(error) => {
            return Err(error);
        },
    };
    let msg_type = match attr(&nodes[at], "msgtype") {
        Ok(msg_type) => msg_type,
        Err(error) => {
            return Err(error);
        },
    };
    Ok(
        Message {
            name,
            msg_type,
            msg_cat: attr_or_empty(&nodes[at], "msgcat"),
            fields: parsed.fields,
            groups: parsed.groups,
            components: parsed.components,
            entries: parsed.entries,
        },
    )
}

fn parse_component_def(nodes: &Vec<XmlNode>, at: usize, require_name: bool) -> (component: Result<
    ComponentDef,
    SchemaError,
>)
    requires
        at < nodes@.len(),
    ensures
        (match component {
            Ok(c) => Ok(c@),
            Err(e) => Err(e@),
        }) == component_of(node_views(nodes@), at as int, require_name),
{
    let name = if require_name {
        match attr(&nodes[at], "name") {
            Ok(name) => name,
            Err(error) => {
                return Err(error);
            },
        }
    } else {
        attr_or_empty(&nodes[at], "name")
    };
    let parsed = match parse_container_entries(nodes, at) {
        Ok(parsed) => parsed,
        Err(error) => {
            return Err(error);
        },
    };
    Ok(
        ComponentDef {
            name,
            fields: parsed.fields,
            groups: parsed.groups,
            components: parsed.components,
            entries: parsed.entries,
        },
    )
}

proof fn lemma_messages_error(nodes: Seq<NodeView>, parent: int, upto: int, more: int)
    requires
        upto <= more,
        messages_under(nodes, parent, upto) is Err,
    ensures
        messages_under(nodes, parent, more) == messages_under(nodes, parent, upto),
    decreases more - upto,
{
    if upto < more {
        lemma_messages_error(nodes, parent, upto, more - 1);
    }
}

proof fn lemma_components_error(nodes: Seq<NodeView>, parent: int, upto: int, more: int)
    requires
        upto <= more,
        components_under(nodes, parent, upto) is Err,
    ensures
        components_under(nodes, parent, more) == components_under(nodes, parent, upto),
    decreases more - upto,
{
    if upto < more {
        lemma_components_error(nodes, parent, upto, more - 1);
    }
}

fn parse_messages(nodes: &Vec<XmlNode>, parent: usize) -> (messages: Result<
    Vec<Message>,
    SchemaError,
>)
    requires
        parent < nodes@.len(),
    ensures
        (match messages {
            Ok(m) => Ok(message_views(m@)),
            Err(e) => Err(e@),
        }) == messages_under(node_views(nodes@), parent as int, nodes@.len() as int),
{
    let ghost all = node_views(nodes@);
    let mut messages: Vec<Message> = Vec::new();
    let total: usize = nodes.len();
    let mut i: usize = parent + 1;
    assert(message_views(messages@) =~= seq![]);
    while i < total
        invariant
            total == nodes@.len(),
            parent < i <= total,
            all == node_views(nodes@),
            messages_under(all, parent as int, i as int) == Ok::<_, ErrorView>(
                message_views(messages@),
            ),
        decreases total - i,
    {
        if child_of(nodes, i, parent) && same(nodes[i].name.as_str(), "message") {
            match parse_message(nodes, i) {
                Ok(message) => {
                    let ghost before = messages@;
                    messages.push(message);
                    assert(message_views(messages@) =~= message_views(before).push(message@));
                },
                Err(error) => {
                    proof {
                        lemma_messages_error(all, parent as int, i + 1, total as int);
                    }
                    return Err(error);
                },
            }
        }
        i += 1;
    }
    Ok(messages)
}

fn parse_components(nodes: &Vec<XmlNode>, parent: usize) -> (components: Result<
    Vec<ComponentDef>,
    SchemaError,
>)
    requires
        parent < nodes@.len(),
    ensures
        (match components {
            Ok(c) => Ok(component_views(c@)),
            Err(e) => Err(e@),
        }) == components_under(node_views(nodes@), parent as int, nodes@.len() as int),
{
    let ghost all = node_views(nodes@);
    let mut components: Vec<ComponentDef> = Vec::new();
    let total: usize = nodes.len();
    let mut i: usize = parent + 1;
    assert(component_views(components@) =~= seq![]);
    while i < total
        invariant
            total == nodes@.len(),
            parent < i <= total,
            all == node_views(nodes@),
            components_under(all, parent as int, i as int) == Ok::<_, ErrorView>(
                component_views(components@),
            ),
        decreases total - i,
    {
        if child_of(nodes, i, parent) && same(nodes[i].name.as_str(), "component") {
            match parse_component_def(nodes, i, true) {
                Ok(component) => {
                    let ghost before = components@;
                    components.push(component);
                    assert(component_views(components@) =~= component_views(before).push(
                        component@,
                    ));
                },
                Err(error) => {
                    proof {
                        lemma_components_error(all, parent as int, i + 1, total as int);
                    }
                    return Err(error);
                },
            }
        }
        i += 1;
    }
    Ok(components)
}

// ---------------------------------------------------------------------------
// Whole dictionaries
// ---------------------------------------------------------------------------
pub open spec fn section(nodes: Seq<NodeView>, root: int, name: Seq<char>) -> Result<int, ErrorView> {
    match child_named(nodes, root, name, root + 1) {
        Some(at) => Ok(at),
        None => Err(ErrorView::MissingSection(name)),
    }
}

/// The root's attribute as it stands, or `fallback`.
pub open spec fn root_attribute(node: NodeView, name: Seq<char>, fallback: Seq<char>) -> Seq<char> {
    match node.attribute(name) {
        Some(value) => value,
        None => fallback,
    }
}

pub open spec fn service_pack_of(node: NodeView) -> Option<Seq<char>> {
    match node.attribute("servicepack"@) {
        Some(value) => if value.len() > 0 {
            Some(value)
        } else {
            None
        },
        None => None,
    }
}

/// The dictionary that a document holds: its five sections must be there, and each must read.
pub open spec fn dictionary_of(nodes: Seq<NodeView>) -> Result<DictionaryView, ErrorView> {
    let len = nodes.len() as int;
    match root_element(nodes, 0) {
        None => Err(ErrorView::NoRoot),
        Some(root) => match (
            section(nodes, root, "fields"@),
            section(nodes, root, "messages"@),
            section(nodes, root, "components"@),
            section(nodes, root, "header"@),
            section(nodes, root, "trailer"@),
        ) {
            (Err(error), _, _, _, _) => Err(error),
            (_, Err(error), _, _, _) => Err(error),
            (_, _, Err(error), _, _) => Err(error),
            (_, _, _, Err(error), _) => Err(error),
            (_, _, _, _, Err(error)) => Err(error),
            (Ok(f), Ok(m), Ok(c), Ok(h), Ok(t)) => match (
                fields_under(nodes, f, len),
                messages_under(nodes, m, len),
                components_under(nodes, c, len),
                component_of(nodes, h, false),
                component_of(nodes, t, false),
            ) {
                (Err(error), _, _, _, _) => Err(error),
                (_, Err(error), _, _, _) => Err(error),
                (_, _, Err(error), _, _) => Err(error),
                (_, _, _, Err(error), _) => Err(error),
                (_, _, _, _, Err(error)) => Err(error),
                (Ok(fields), Ok(messages), Ok(components), Ok(header), Ok(trailer)) => Ok(
                    DictionaryView {
                        typ: root_attribute(nodes[root], "type"@, "FIX"@),
                        major: root_attribute(nodes[root], "major"@, ""@),
                        minor: root_attribute(nodes[root], "minor"@, ""@),
                        service_pack: service_pack_of(nodes[root]),
                        fields,
                        messages,
                        components,
                        header,
                        trailer,
                    },
                ),
            },
        },
    }
}

fn needed_section(nodes: &Vec<XmlNode>, root: usize, name: &str) -> (found: Result<
    usize,
    SchemaError,
>)
    requires
        root < nodes@.len(),
    ensures
        (match found {
            Ok(at) => Ok(at as int),
            Err(e) => Err(e@),
        }) == section(node_views(nodes@), root as int, name@),
        found matches Ok(at) ==> at < nodes@.len(),
{
    match find_child(nodes, root, name) {
        Some(at) => Ok(at),
        None => Err(SchemaError::MissingSection(copy_of(name))),
    }
}

fn root_attr(node: &XmlNode, name: &str, fallback: &str) -> (value: String)
    ensures
        value@ == root_attribute(node@, name@, fallback@),
{
    match node.attribute(name) {
        Some(value) => copy_of(value.as_str()),
        None => copy_of(fallback),
    }
}

pub open spec fn dictionary_result(result: Result<FixDictionary, SchemaError>) -> Result<
    DictionaryView,
    ErrorView,
> {
    match result {
        Ok(dictionary) => Ok(dictionary@),
        Err(error) => Err(error@),
    }
}

/// Reads a dictionary from the nodes of its document.
pub fn dictionary_from_nodes(nodes: &Vec<XmlNode>) -> (dictionary: Result<
    FixDictionary,
    SchemaError,
>)
    ensures
        dictionary_result(dictionary) == dictionary_of(node_views(nodes@)),
{
    let root: usize = match find_root(nodes) {
        Some(root) => root,
        None => {
            return Err(SchemaError::NoRoot);
        },
    };
    let fields_at: usize = match needed_section(nodes, root, "fields") {
        Ok(at) => at,
        Err(error) => {
            return Err(error);
        },
    };
    let messages_at: usize = match needed_section(nodes, root, "messages") {
        Ok(at) => at,
        Err(error) => {
            return Err(error);
        },
    };
    let components_at: usize = match needed_section(nodes, root, "components") {
        Ok(at) => at,
        Err(error) => {
            return Err(error);
        },
    };
    let header_at: usize = match needed_section(nodes, root, "header") {
        Ok(at) => at,
        Err(error) => {
            return Err(error);
        },
    };
    let trailer_at: usize = match needed_section(nodes, root, "trailer") {
        Ok(at) => at,
        Err(error) => {
            return Err(error);
        },
    };
    let fields = match parse_fields(nodes, fields_at) {
        Ok(fields) => fields,
        Err(error) => {
            return Err(error);
        },
    };
    let messages = match parse_messages(nodes, messages_at) {
        Ok(messages) => messages,
        Err(error) => {
            return Err(error);
        },
    };
    let components = match parse_components(nodes, components_at) {
        Ok(components) => components,
        Err(error) => {
            return Err(error);
        },
    };
    let header = match parse_component_def(nodes, header_at, false) {
        Ok(header) => header,
        Err(error) => {
            return Err(error);
        },
    };
    let trailer = match parse_component_def(nodes, trailer_at, false) {
        Ok(trailer) => trailer,
        Err(error) => {
            return Err(error);
        },
    };
    let service_pack = match nodes[root].attribute("servicepack") {
        Some(value) => if value.as_str().is_empty() {
            None
        } else {
            Some(copy_of(value.as_str()))
        },
        None => None,
    };
    Ok(
        FixDictionary {
            typ: root_attr(&nodes[root], "type", "FIX"),
            major: root_attr(&nodes[root], "major", ""),
            minor: root_attr(&nodes[root], "minor", ""),
            service_pack,
            fields: FieldContainer { items: fields },
            messages: MessageContainer { items: messages },
            components: ComponentContainer { items: components },
            header,
            trailer,
        },
    )
}

/// The dictionary that an XML text holds.
pub open spec fn dictionary_in(xml: Seq<char>) -> Result<DictionaryView, ErrorView> {
    match xml_document(xml) {
        Ok(nodes) => dictionary_of(nodes),
        Err(text) => Err(ErrorView::Xml(text)),
    }
}

impl FixDictionary {
    /// Reads a dictionary from XML.
    pub fn from_xml(xml: &str) -> (dictionary: Result<FixDictionary, SchemaError>)
        ensures
            dictionary_result(dictionary) == dictionary_in(xml@),
    {
        match parse_document(xml) {
            Ok(nodes) => dictionary_from_nodes(&nodes),
            Err(text) => Err(SchemaError::Xml(text)),
        }
    }
}

pub open spec fn borrowed_values(values: Seq<&Value>) -> Seq<ValueView> {
    values.map_values(|v: &Value| v@)
}

fn duplicate_values(values: &Vec<Value>) -> (copy: Vec<Value>)
    ensures
        value_views(copy@) == value_views(values@),
{
    let mut copy: Vec<Value> = Vec::new();
    let mut i: usize = 0;
    while i < values.len()
        invariant
            0 <= i <= values@.len(),
            copy@.len() == i,
            forall|j: int| 0 <= j < i ==> (#[trigger] copy@[j])@ == values@[j]@,
        decreases values@.len() - i,
    {
        copy.push(
            Value {
                enumeration: copy_of(values[i].enumeration.as_str()),
                description: copy_of(values[i].description.as_str()),
            },
        );
        i += 1;
    }
    assert(value_views(copy@) =~= value_views(values@));
    copy
}

impl Field {
    /// A copy of this definition.
    pub fn duplicate(&self) -> (copy: Field)
        ensures
            copy@ == self@,
    {
        Field {
            name: copy_of(self.name.as_str()),
            number: self.number,
            field_type: copy_of(self.field_type.as_str()),
            values: duplicate_values(&self.values),
            values_wrapper: ValuesWrapper { value: duplicate_values(&self.values_wrapper.value) },
        }
    }

    /// Every value of the field: those directly under it first.
    pub fn values_iter(&self) -> (values: Vec<&Value>)
        ensures
            borrowed_values(values@) == self@.values + self@.wrapped,
    {
        let mut values: Vec<&Value> = Vec::new();
        let mut i: usize = 0;
        while i < self.values.len()
            invariant
                0 <= i <= self.values@.len(),
                borrowed_values(values@) =~= self@.values.take(i as int),
            decreases self.values@.len() - i,
        {
            let ghost before = values@;
            values.push(&self.values[i]);
            assert(borrowed_values(values@) =~= borrowed_values(before).push(
                self.values@[i as int]@,
            ));
            i += 1;
        }
        let mut k: usize = 0;
        while k < self.values_wrapper.value.len()
            invariant
                0 <= k <= self.values_wrapper.value@.len(),
                borrowed_values(values@) =~= self@.values + self@.wrapped.take(k as int),
            decreases self.values_wrapper.value@.len() - k,
        {
            let ghost before = values@;
            values.push(&self.values_wrapper.value[k]);
            assert(borrowed_values(values@) =~= borrowed_values(before).push(
                self.values_wrapper.value@[k as int]@,
            ));
            k += 1;
        }
        values
    }
}

impl Message {
    /// A copy of this definition.
    pub fn duplicate(&self) -> (copy: Message)
        ensures
            copy@ == self@,
    {
        Message {
            name: copy_of(self.name.as_str()),
            msg_type: copy_of(self.msg_type.as_str()),
            msg_cat: copy_of(self.msg_cat.as_str()),
            fields: duplicate_fields(&self.fields),
            groups: duplicate_groups(&self.groups),
            components: duplicate_components(&self.components),
            entries: duplicate_entries(&self.entries),
        }
    }
}

impl FixDictionary {
    /// A copy of this dictionary.
    pub fn duplicate(&self) -> (copy: FixDictionary)
        ensures
            copy@ == self@,
    {
        let mut fields: Vec<Field> = Vec::new();
        let mut i: usize = 0;
        while i < self.fields.items.len()
            invariant
                i <= self.fields.items@.len(),
                fields@.len() == i,
                forall|j: int| 0 <= j < i ==> (#[trigger] fields@[j])@ == self.fields.items@[j]@,
            decreases self.fields.items@.len() - i,
        {
            fields.push(self.fields.items[i].duplicate());
            i += 1;
        }
        let mut messages: Vec<Message> = Vec::new();
        let mut k: usize = 0;
        while k < self.messages.items.len()
            invariant
                k <= self.messages.items@.len(),
                messages@.len() == k,
                forall|j: int|
                    0 <= j < k ==> (#[trigger] messages@[j])@ == self.messages.items@[j]@,
            decreases self.messages.items@.len() - k,
        {
            messages.push(self.messages.items[k].duplicate());
            k += 1;
        }
        let mut components: Vec<ComponentDef> = Vec::new();
        let mut n: usize = 0;
        while n < self.components.items.len()
            invariant
                n <= self.components.items@.len(),
                components@.len() == n,
                forall|j: int|
                    0 <= j < n ==> (#[trigger] components@[j])@ == self.components.items@[j]@,
            decreases self.components.items@.len() - n,
        {
            components.push(self.components.items[n].duplicate());
            n += 1;
        }
        let copy = FixDictionary {
            typ: copy_of(self.typ.as_str()),
            major: copy_of(self.major.as_str()),
            minor: copy_of(self.minor.as_str()),
            service_pack: copy_optional(&self.service_pack),
            fields: FieldContainer { items: fields },
            messages: MessageContainer { items: messages },
            components: ComponentContainer { items: components },
            header: self.header.duplicate(),
            trailer: self.trailer.duplicate(),
        };
        assert(copy@.fields =~= self@.fields);
        assert(copy@.messages =~= self@.messages);
        assert(copy@.components =~= self@.components);
        copy
    }
}

/// The text that reports an error.
pub open spec fn error_text(error: ErrorView) -> Seq<char> {
    match error {
        ErrorView::Xml(text) => text,
        ErrorView::NoRoot => "missing root element"@,
        ErrorView::MissingSection(name) => "missing <"@ + name + "> section"@,
        ErrorView::MissingAttribute { attribute, element } => "missing attribute @"@ + attribute
            + " on <"@ + element + ">"@,
        ErrorView::InvalidFieldNumber => "invalid field number"@,
    }
}

impl SchemaError {
    /// The text reported to the user.
    pub fn message(&self) -> (text: String)
        ensures
            text@ == error_text(self@),
    {
        match self {
            SchemaError::Xml(text) => copy_of(text.as_str()),
            SchemaError::NoRoot => copy_of("missing root element"),
            SchemaError::MissingSection(name) => {
                let mut text = copy_of("missing <");
                text.append(name.as_str());
                text.append("> section");
                text
            },
            SchemaError::MissingAttribute { attribute, element } => {
                let mut text = copy_of("missing attribute @");
                text.append(attribute.as_str());
                text.append(" on <");
                text.append(element.as_str());
                text.append(">");
                text
            },
            SchemaError::InvalidFieldNumber => copy_of("invalid field number"),
        }
    }
}

impl Default for ValuesWrapper {
    fn default() -> (empty: ValuesWrapper)
        ensures
            empty.value@.len() == 0,
    {
        ValuesWrapper { value: Vec::new() }
    }
}

impl Default for FieldContainer {
    fn default() -> (empty: FieldContainer)
        ensures
            empty.items@.len() == 0,
    {
        FieldContainer { items: Vec::new() }
    }
}

impl Default for MessageContainer {
    fn default() -> (empty: MessageContainer)
        ensures
            empty.items@.len() == 0,
    {
        MessageContainer { items: Vec::new() }
    }
}

impl Default for ComponentContainer {
    fn default() -> (empty: ComponentContainer)
        ensures
            empty.items@.len() == 0,
    {
        ComponentContainer { items: Vec::new() }
    }
}

impl Default for ComponentDef {
    fn default() -> (empty: ComponentDef)
        ensures
            empty.name@.len() == 0,
            empty.fields@.len() == 0,
            empty.groups@.len() == 0,
            empty.components@.len() == 0,
            empty.entries@.len() == 0,
    {
        ComponentDef {
            name: String::new(),
            fields: Vec::new(),
            groups: Vec::new(),
            components: Vec::new(),
            entries: Vec::new(),
        }
    }
}

} // verus!
