//! What holds of a dictionary that is read from the elements of a document.
use crate::schema::{
    component_of, components_under, dictionary_of, field_of, field_values, fields_under, group_of,
    message_of, messages_under, parts_under, sanitized, values_under,
};
use crate::text::parsed_unsigned;
use crate::xml::{is_child, NodeView};
use vstd::prelude::*;

verus! {

/// The elements of a name directly under another.
pub open spec fn is_named_child(nodes: Seq<NodeView>, parent: int, name: Seq<char>) -> spec_fn(
    int,
) -> bool {
    |i: int| parent < i && is_child(nodes, i, parent) && nodes[i].name == name
}

/// Where they stand among the first `upto` nodes, in order.
pub open spec fn children(
    nodes: Seq<NodeView>,
    parent: int,
    upto: int,
    name: Seq<char>,
) -> Seq<int> {
    Seq::new(upto as nat, |i: int| i).filter(is_named_child(nodes, parent, name))
}

proof fn lemma_children(nodes: Seq<NodeView>, parent: int, upto: int, name: Seq<char>)
    requires
        0 <= upto,
    ensures
        upto > 0 && is_named_child(nodes, parent, name)(upto - 1) ==> children(
            nodes,
            parent,
            upto,
            name,
        ) == children(nodes, parent, upto - 1, name).push(upto - 1),
        upto > 0 && !is_named_child(nodes, parent, name)(upto - 1) ==> children(
            nodes,
            parent,
            upto,
            name,
        ) == children(nodes, parent, upto - 1, name),
        upto <= parent + 1 ==> children(nodes, parent, upto, name).len() == 0,
    decreases upto,
{
    reveal(Seq::filter);
    let all = Seq::new(upto as nat, |i: int| i);
    if upto > 0 {
        assert(all.drop_last() =~= Seq::new((upto - 1) as nat, |i: int| i));
        assert(all.last() == upto - 1);
        if upto <= parent + 1 {
            lemma_children(nodes, parent, upto - 1, name);
        }
    } else {
        assert(all =~= seq![]);
    }
}

/// The fields of a section are read one by one, in the order of their elements; all of them
/// have to be readable.
pub proof fn law_fields_are_read(nodes: Seq<NodeView>, parent: int, upto: int)
    requires
        0 <= parent,
        0 <= upto,
    ensures
        ({
            let places = children(nodes, parent, upto, "field"@);
            match fields_under(nodes, parent, upto) {
                Ok(found) => {
                    &&& found.len() == places.len()
                    &&& forall|k: int|
                        0 <= k < places.len() ==> field_of(nodes, #[trigger] places[k]) is Ok
                            && field_of(nodes, places[k])->Ok_0 == found[k]
                },
                Err(_) => exists|k: int|
                    0 <= k < places.len() && field_of(nodes, #[trigger] places[k]) is Err,
            }
        }),
    decreases upto - parent,
{
    let places = children(nodes, parent, upto, "field"@);
    lemma_children(nodes, parent, upto, "field"@);
    if upto > parent + 1 {
        law_fields_are_read(nodes, parent, upto - 1);
        let before = children(nodes, parent, upto - 1, "field"@);
        if fields_under(nodes, parent, upto - 1) is Err {
            let k = choose|k: int|
                0 <= k < before.len() && field_of(nodes, #[trigger] before[k]) is Err;
            assert(places[k] == before[k]);
        } else if is_named_child(nodes, parent, "field"@)(upto - 1) {
            assert(places[before.len() as int] == upto - 1);
            assert(forall|k: int| 0 <= k < before.len() ==> #[trigger] places[k] == before[k]);
        }
    }
}

/// The messages of a section are read one by one, in the order of their elements; all of them
/// have to be readable.
pub proof fn law_messages_are_read(nodes: Seq<NodeView>, parent: int, upto: int)
    requires
        0 <= parent,
        0 <= upto,
    ensures
        ({
            let places = children(nodes, parent, upto, "message"@);
            match messages_under(nodes, parent, upto) {
                Ok(found) => {
                    &&& found.len() == places.len()
                    &&& forall|k: int|
                        0 <= k < places.len() ==> message_of(nodes, #[trigger] places[k]) is Ok
                            && message_of(nodes, places[k])->Ok_0 == found[k]
                },
                Err(_) => exists|k: int|
                    0 <= k < places.len() && message_of(nodes, #[trigger] places[k]) is Err,
            }
        }),
    decreases upto - parent,
{
    let places = children(nodes, parent, upto, "message"@);
    lemma_children(nodes, parent, upto, "message"@);
    if upto > parent + 1 {
        law_messages_are_read(nodes, parent, upto - 1);
        let before = children(nodes, parent, upto - 1, "message"@);
        if messages_under(nodes, parent, upto - 1) is Err {
            let k = choose|k: int|
                0 <= k < before.len() && message_of(nodes, #[trigger] before[k]) is Err;
            assert(places[k] == before[k]);
        } else if is_named_child(nodes, parent, "message"@)(upto - 1) {
            assert(places[before.len() as int] == upto - 1);
            assert(forall|k: int| 0 <= k < before.len() ==> #[trigger] places[k] == before[k]);
        }
    }
}

/// The components of a section are read one by one, in the order of their elements; all of
/// them have to be readable and to have a name.
pub proof fn law_components_are_read(nodes: Seq<NodeView>, parent: int, upto: int)
    requires
        0 <= parent,
        0 <= upto,
    ensures
        ({
            let places = children(nodes, parent, upto, "component"@);
            match components_under(nodes, parent, upto) {
                Ok(found) => {
                    &&& found.len() == places.len()
                    &&& forall|k: int|
                        0 <= k < places.len() ==> component_of(
                            nodes,
                            #[trigger] places[k],
                            true,
                        ) is Ok && component_of(nodes, places[k], true)->Ok_0 == found[k]
                },
                Err(_) => exists|k: int|
                    0 <= k < places.len() && component_of(nodes, #[trigger] places[k], true) is Err,
            }
        }),
    decreases upto - parent,
{
    let places = children(nodes, parent, upto, "component"@);
    lemma_children(nodes, parent, upto, "component"@);
    if upto > parent + 1 {
        law_components_are_read(nodes, parent, upto - 1);
        let before = children(nodes, parent, upto - 1, "component"@);
        if components_under(nodes, parent, upto - 1) is Err {
            let k = choose|k: int|
                0 <= k < before.len() && component_of(nodes, #[trigger] before[k], true) is Err;
            assert(places[k] == before[k]);
        } else if is_named_child(nodes, parent, "component"@)(upto - 1) {
            assert(places[before.len() as int] == upto - 1);
            assert(forall|k: int| 0 <= k < before.len() ==> #[trigger] places[k] == before[k]);
        }
    }
}

/// The value of the first attribute of a name.
pub open spec fn has_attribute(node: NodeView, name: Seq<char>, value: Seq<char>) -> bool {
    exists|i: int|
        0 <= i < node.attributes.len() && (#[trigger] node.attributes[i]).name == name
            && node.attributes[i].value == value && forall|j: int|
            0 <= j < i ==> (#[trigger] node.attributes[j]).name != name
}

/// There is no attribute of a name.
pub open spec fn lacks_attribute(node: NodeView, name: Seq<char>) -> bool {
    forall|i: int| 0 <= i < node.attributes.len() ==> (#[trigger] node.attributes[i]).name != name
}

proof fn lemma_attribute_in(
    attributes: Seq<crate::xml::AttributeView>,
    name: Seq<char>,
    i: int,
)
    requires
        0 <= i <= attributes.len(),
        i < attributes.len() ==> attributes[i].name == name,
        forall|j: int| 0 <= j < i ==> (#[trigger] attributes[j]).name != name,
    ensures
        crate::xml::attribute_in(attributes, name) == if i < attributes.len() {
            Some(attributes[i].value)
        } else {
            None
        },
    decreases attributes.len(),
{
    if attributes.len() > 0 && i > 0 {
        let rest = attributes.skip(1);
        assert(attributes[0].name != name);
        assert forall|j: int| 0 <= j < i - 1 implies (#[trigger] rest[j]).name != name by {
            assert(rest[j] == attributes[j + 1]);
        }
        if i < attributes.len() {
            assert(rest[i - 1] == attributes[i]);
        }
        lemma_attribute_in(rest, name, i - 1);
    }
}

proof fn lemma_attribute(node: NodeView, name: Seq<char>, value: Seq<char>)
    ensures
        has_attribute(node, name, value) ==> node.attribute(name) == Some(value),
        lacks_attribute(node, name) ==> node.attribute(name) is None,
{
    if has_attribute(node, name, value) {
        let i = choose|i: int|
            0 <= i < node.attributes.len() && (#[trigger] node.attributes[i]).name == name
                && node.attributes[i].value == value && forall|j: int|
                0 <= j < i ==> (#[trigger] node.attributes[j]).name != name;
        lemma_attribute_in(node.attributes, name, i);
    }
    if lacks_attribute(node, name) {
        lemma_attribute_in(node.attributes, name, node.attributes.len() as int);
    }
}

/// A field is read from its attributes: name, number and type; characters beyond the first
/// 128 become question marks. Without one of them it is refused, and so is a number that is
/// none.
pub proof fn law_fields_have_their_attributes(
    nodes: Seq<NodeView>,
    at: int,
    name: Seq<char>,
    number: Seq<char>,
    field_type: Seq<char>,
)
    ensures
        has_attribute(nodes[at], "name"@, name) && has_attribute(nodes[at], "number"@, number)
            && has_attribute(nodes[at], "type"@, field_type) && parsed_unsigned(
            sanitized(number),
            u32::MAX as nat,
        ) is Some && field_values(nodes, at, nodes.len() as int) is Ok ==> (field_of(
            nodes,
            at,
        ) matches Ok(field) && field.name == sanitized(name) && Some(field.number as nat)
            == parsed_unsigned(sanitized(number), u32::MAX as nat) && field.field_type == sanitized(
            field_type,
        ) && (field.values, field.wrapped) == field_values(nodes, at, nodes.len() as int)->Ok_0),
        lacks_attribute(nodes[at], "name"@) || lacks_attribute(nodes[at], "number"@)
            || lacks_attribute(nodes[at], "type"@) ==> field_of(nodes, at) is Err,
        has_attribute(nodes[at], "number"@, number) && parsed_unsigned(
            sanitized(number),
            u32::MAX as nat,
        ) is None ==> field_of(nodes, at) is Err,
        forall|i: int|
            0 <= i < name.len() ==> #[trigger] sanitized(name)[i] == if '\u{80}' > name[i] {
                name[i]
            } else {
                '?'
            },
        sanitized(name).len() == name.len(),
{
    lemma_attribute(nodes[at], "name"@, name);
    lemma_attribute(nodes[at], "number"@, number);
    lemma_attribute(nodes[at], "type"@, field_type);
}

/// A message is read from its name, type and category, and what stands inside it. Without a
/// name or a type it is refused.
pub proof fn law_messages_have_their_attributes(
    nodes: Seq<NodeView>,
    at: int,
    name: Seq<char>,
    msg_type: Seq<char>,
    msg_cat: Seq<char>,
)
    ensures
        has_attribute(nodes[at], "name"@, name) && has_attribute(nodes[at], "msgtype"@, msg_type)
            && has_attribute(nodes[at], "msgcat"@, msg_cat) && parts_under(
            nodes,
            at,
            nodes.len() as int,
        ) is Ok ==> (message_of(nodes, at) matches Ok(msg) && msg.name == sanitized(name)
            && msg.msg_type == sanitized(msg_type) && msg.msg_cat == sanitized(msg_cat)
            && msg.parts == parts_under(nodes, at, nodes.len() as int)->Ok_0),
        lacks_attribute(nodes[at], "name"@) || lacks_attribute(nodes[at], "msgtype"@)
            ==> message_of(nodes, at) is Err,
{
    lemma_attribute(nodes[at], "name"@, name);
    lemma_attribute(nodes[at], "msgtype"@, msg_type);
    lemma_attribute(nodes[at], "msgcat"@, msg_cat);
}

/// A group is read from its name, and what stands inside it.
pub proof fn law_groups_have_their_attributes(nodes: Seq<NodeView>, at: int, name: Seq<char>)
    ensures
        has_attribute(nodes[at], "name"@, name) && parts_under(nodes, at, nodes.len() as int) is Ok
            ==> (group_of(nodes, at) matches Ok(group) && group.name == sanitized(name) && ({
            let parts = parts_under(nodes, at, nodes.len() as int)->Ok_0;
            group.fields == parts.fields && group.groups == parts.groups && group.components
                == parts.components
        })),
        lacks_attribute(nodes[at], "name"@) ==> group_of(nodes, at) is Err,
{
    lemma_attribute(nodes[at], "name"@, name);
}

/// What stands in a container is read in the order of its elements: its fields, its groups and
/// its components each in theirs, and all of them together.
pub proof fn law_parts_are_read(nodes: Seq<NodeView>, parent: int, upto: int)
    requires
        0 <= parent,
        0 <= upto <= nodes.len(),
    ensures
        parts_under(nodes, parent, upto) matches Ok(parts) ==> {
            let fields = children(nodes, parent, upto, "field"@);
            let groups = children(nodes, parent, upto, "group"@);
            let components = children(nodes, parent, upto, "component"@);
            &&& parts.fields.len() == fields.len()
            &&& forall|k: int|
                0 <= k < fields.len() ==> is_reference(
                    nodes[#[trigger] fields[k]],
                    parts.fields[k].name,
                    parts.fields[k].required,
                )
            &&& parts.groups.len() == groups.len()
            &&& forall|k: int|
                0 <= k < groups.len() ==> group_of(nodes, #[trigger] groups[k]) is Ok && group_of(
                    nodes,
                    groups[k],
                )->Ok_0 == parts.groups[k]
            &&& parts.components.len() == components.len()
            &&& forall|k: int|
                0 <= k < components.len() ==> is_reference(
                    nodes[#[trigger] components[k]],
                    parts.components[k].name,
                    parts.components[k].required,
                )
            &&& parts.entries.len() == fields.len() + groups.len() + components.len()
        },
    decreases upto - parent,
{
    lemma_children(nodes, parent, upto, "field"@);
    lemma_children(nodes, parent, upto, "group"@);
    lemma_children(nodes, parent, upto, "component"@);
    reveal_strlit("field");
    reveal_strlit("group");
    reveal_strlit("component");
    assert("field"@[0] == 'f' && "group"@[0] == 'g' && "component"@[0] == 'c');
    if upto > parent + 1 {
        law_parts_are_read(nodes, parent, upto - 1);
        let fields = children(nodes, parent, upto - 1, "field"@);
        let groups = children(nodes, parent, upto - 1, "group"@);
        let components = children(nodes, parent, upto - 1, "component"@);
        let all_fields = children(nodes, parent, upto, "field"@);
        let all_groups = children(nodes, parent, upto, "group"@);
        let all_components = children(nodes, parent, upto, "component"@);
        assert(forall|k: int| 0 <= k < fields.len() ==> #[trigger] all_fields[k] == fields[k]);
        assert(forall|k: int| 0 <= k < groups.len() ==> #[trigger] all_groups[k] == groups[k]);
        assert(forall|k: int|
            0 <= k < components.len() ==> #[trigger] all_components[k] == components[k]);
    }
}

/// The element refers to something by name, with the mark of whether it has to be there.
pub open spec fn is_reference(node: NodeView, name: Seq<char>, required: Option<Seq<char>>) -> bool {
    &&& node.attribute("name"@) matches Some(text) && sanitized(text) == name
    &&& required == match node.attribute("required"@) {
        Some(text) => Some(sanitized(text)),
        None => None,
    }
}

/// The values of a list are read one by one, in the order of their elements: each has its code
/// and, where there is one, its description.
pub proof fn law_values_are_read(nodes: Seq<NodeView>, parent: int, upto: int)
    requires
        0 <= parent,
        0 <= upto,
    ensures
        ({
            let places = children(nodes, parent, upto, "value"@);
            match values_under(nodes, parent, upto) {
                Ok(found) => {
                    &&& found.len() == places.len()
                    &&& forall|k: int|
                        0 <= k < places.len() ==> {
                            let node = nodes[#[trigger] places[k]];
                            &&& node.attribute("enum"@) matches Some(text) && found[k].enumeration
                                == sanitized(text)
                            &&& found[k].description == match node.attribute("description"@) {
                                Some(text) => sanitized(text),
                                None => seq![],
                            }
                        }
                },
                Err(_) => exists|k: int|
                    0 <= k < places.len() && nodes[#[trigger] places[k]].attribute(
                        "enum"@,
                    ) is None,
            }
        }),
    decreases upto - parent,
{
    let places = children(nodes, parent, upto, "value"@);
    lemma_children(nodes, parent, upto, "value"@);
    if upto > parent + 1 {
        law_values_are_read(nodes, parent, upto - 1);
        let before = children(nodes, parent, upto - 1, "value"@);
        if values_under(nodes, parent, upto - 1) is Err {
            let k = choose|k: int|
                0 <= k < before.len() && nodes[#[trigger] before[k]].attribute("enum"@) is None;
            assert(places[k] == before[k]);
        } else if is_named_child(nodes, parent, "value"@)(upto - 1) {
            assert(places[before.len() as int] == upto - 1);
            assert(forall|k: int| 0 <= k < before.len() ==> #[trigger] places[k] == before[k]);
        }
    }
}

/// A dictionary has its five sections under its root: each part is read from the first section
/// of its name. The version is that of the root.
pub proof fn law_dictionaries_have_their_sections(nodes: Seq<NodeView>)
    ensures
        dictionary_of(nodes) matches Ok(dict) ==> {
            &&& crate::xml::root_element(nodes, 0) is Some
            &&& ({
                let root = crate::xml::root_element(nodes, 0)->0;
                let len = nodes.len() as int;
                let f = crate::xml::child_named(nodes, root, "fields"@, root + 1);
                let m = crate::xml::child_named(nodes, root, "messages"@, root + 1);
                let c = crate::xml::child_named(nodes, root, "components"@, root + 1);
                let h = crate::xml::child_named(nodes, root, "header"@, root + 1);
                let t = crate::xml::child_named(nodes, root, "trailer"@, root + 1);
                &&& f is Some && fields_under(nodes, f->0, len)->Ok_0 == dict.fields
                &&& m is Some && messages_under(nodes, m->0, len)->Ok_0 == dict.messages
                &&& c is Some && components_under(nodes, c->0, len)->Ok_0 == dict.components
                &&& h is Some && component_of(nodes, h->0, false)->Ok_0 == dict.header
                &&& t is Some && component_of(nodes, t->0, false)->Ok_0 == dict.trailer
                &&& nodes[root].attribute("major"@) matches Some(text) ==> dict.major == text
                &&& nodes[root].attribute("minor"@) matches Some(text) ==> dict.minor == text
                &&& nodes[root].attribute("type"@) is None ==> dict.typ == "FIX"@
                &&& nodes[root].attribute("type"@) matches Some(text) ==> dict.typ == text
                &&& (nodes[root].attribute("servicepack"@) matches Some(text) && text.len() > 0)
                    ==> dict.service_pack == nodes[root].attribute("servicepack"@)
            })
        },
{
}

} // verus!
