//! XML documents as flat lists of nodes in document order.
use crate::text::same;
use roxmltree::Document;
use vstd::prelude::*;

verus! {

/// An attribute of an element, called by its local name.
#[derive(Debug)]
pub struct XmlAttribute {
    pub name: String,
    pub value: String,
}

/// A node of a document. `parent` is the position of its parent in the document's list.
#[derive(Debug)]
pub struct XmlNode {
    pub parent: Option<usize>,
    pub element: bool,
    pub name: String,
    pub attributes: Vec<XmlAttribute>,
}

/// The mathematical content of an `XmlAttribute`.
pub struct AttributeView {
    pub name: Seq<char>,
    pub value: Seq<char>,
}

/// The mathematical content of an `XmlNode`.
pub struct NodeView {
    pub parent: Option<usize>,
    pub element: bool,
    pub name: Seq<char>,
    pub attributes: Seq<AttributeView>,
}

impl View for XmlAttribute {
    type V = AttributeView;

    open spec fn view(&self) -> AttributeView {
        AttributeView { name: self.name@, value: self.value@ }
    }
}

pub open spec fn attribute_views(attributes: Seq<XmlAttribute>) -> Seq<AttributeView> {
    attributes.map_values(|a: XmlAttribute| a@)
}

impl View for XmlNode {
    type V = NodeView;

    open spec fn view(&self) -> NodeView {
        NodeView {
            parent: self.parent,
            element: self.element,
            name: self.name@,
            attributes: attribute_views(self.attributes@),
        }
    }
}

pub open spec fn node_views(nodes: Seq<XmlNode>) -> Seq<NodeView> {
    nodes.map_values(|n: XmlNode| n@)
}

pub open spec fn document_view(document: Result<Vec<XmlNode>, String>) -> Result<
    Seq<NodeView>,
    Seq<char>,
> {
    match document {
        Ok(nodes) => Ok(node_views(nodes@)),
        Err(text) => Err(text@),
    }
}

/// The nodes that `roxmltree::Document::parse` finds in a text, or why it fails.
pub uninterp spec fn xml_document(text: Seq<char>) -> Result<Seq<NodeView>, Seq<char>>;

/// `roxmltree::Document::parse`, every node of the document copied out in document order;
/// an error comes as its text. It reads the text and nothing else.
#[verifier::external_body]
pub(crate) fn parse_document(text: &str) -> (document: Result<Vec<XmlNode>, String>)
    ensures
        document_view(document) == xml_document(text@),
{
    let doc = Document::parse(text).map_err(|e| e.to_string())?;
    Ok(
        doc.descendants().map(|n| XmlNode {
            parent: n.parent().map(|p| p.id().get_usize()),
            element: n.is_element(),
            name: n.tag_name().name().to_string(),
            attributes: n.attributes().map(|a| XmlAttribute { name: a.name().to_string(), value: a.value().to_string() }).collect(),
        }).collect(),
    )
}

/// The value of the first attribute whose local name is `name`, whatever its namespace.
pub open spec fn attribute_in(attributes: Seq<AttributeView>, name: Seq<char>) -> Option<Seq<char>>
    decreases attributes.len(),
{
    if attributes.len() == 0 {
        None
    } else if attributes[0].name == name {
        Some(attributes[0].value)
    } else {
        attribute_in(attributes.skip(1), name)
    }
}

impl NodeView {
    pub open spec fn attribute(self, name: Seq<char>) -> Option<Seq<char>> {
        attribute_in(self.attributes, name)
    }
}

pub open spec fn ref_view(text: Option<&String>) -> Option<Seq<char>> {
    match text {
        Some(t) => Some(t@),
        None => None,
    }
}

impl XmlNode {
    /// The value of the first attribute whose local name is `name`.
    pub fn attribute(&self, name: &str) -> (value: Option<&String>)
        ensures
            ref_view(value) == self@.attribute(name@),
    {
        let ghost all = attribute_views(self.attributes@);
        let mut i: usize = 0;
        assert(all.skip(0) =~= all);
        while i < self.attributes.len()
            invariant
                0 <= i <= self.attributes@.len(),
                all == attribute_views(self.attributes@),
                attribute_in(all, name@) == attribute_in(all.skip(i as int), name@),
            decreases self.attributes@.len() - i,
        {
            assert(all.skip(i as int)[0] == self.attributes@[i as int]@);
            if same(self.attributes[i].name.as_str(), name) {
                return Some(&self.attributes[i].value);
            }
            assert(all.skip(i as int).skip(1) =~= all.skip(i + 1));
            i += 1;
        }
        None
    }
}

/// Node `child` is an element directly under node `parent`.
pub open spec fn is_child(nodes: Seq<NodeView>, child: int, parent: int) -> bool {
    nodes[child].element && (nodes[child].parent matches Some(p) && p == parent)
}

/// Whether node `child` is an element directly under node `parent`.
pub fn child_of(nodes: &Vec<XmlNode>, child: usize, parent: usize) -> (yes: bool)
    requires
        child < nodes@.len(),
    ensures
        yes == is_child(node_views(nodes@), child as int, parent as int),
{
    nodes[child].element && match nodes[child].parent {
        Some(p) => p == parent,
        None => false,
    }
}

/// The first element at or after `from` that stands under `parent` and is called `name`.
pub open spec fn child_named(nodes: Seq<NodeView>, parent: int, name: Seq<char>, from: int) -> Option<
    int,
>
    decreases nodes.len() - from,
{
    if from >= nodes.len() {
        None
    } else if is_child(nodes, from, parent) && nodes[from].name == name {
        Some(from)
    } else {
        child_named(nodes, parent, name, from + 1)
    }
}

pub open spec fn index_view(at: Option<usize>) -> Option<int> {
    match at {
        Some(at) => Some(at as int),
        None => None,
    }
}

/// The first child of `parent` called `name`.
pub fn find_child(nodes: &Vec<XmlNode>, parent: usize, name: &str) -> (found: Option<usize>)
    requires
        parent < nodes@.len(),
    ensures
        index_view(found) == child_named(node_views(nodes@), parent as int, name@, parent + 1),
        found matches Some(at) ==> parent < at < nodes@.len(),
{
    let total: usize = nodes.len();
    let mut i: usize = parent + 1;
    while i < total
        invariant
            total == nodes@.len(),
            parent < i <= nodes@.len(),
            child_named(node_views(nodes@), parent as int, name@, parent + 1) == child_named(
                node_views(nodes@),
                parent as int,
                name@,
                i as int,
            ),
        decreases nodes@.len() - i,
    {
        if child_of(nodes, i, parent) && same(nodes[i].name.as_str(), name) {
            return Some(i);
        }
        i += 1;
    }
    None
}

/// The first element under node 0, the document itself.
pub open spec fn root_element(nodes: Seq<NodeView>, from: int) -> Option<int>
    decreases nodes.len() - from,
{
    if from >= nodes.len() {
        None
    } else if is_child(nodes, from, 0) {
        Some(from)
    } else {
        root_element(nodes, from + 1)
    }
}

/// The document's root element.
pub fn find_root(nodes: &Vec<XmlNode>) -> (found: Option<usize>)
    ensures
        index_view(found) == root_element(node_views(nodes@), 0),
        found matches Some(at) ==> at < nodes@.len(),
{
    let mut i: usize = 0;
    while i < nodes.len()
        invariant
            0 <= i <= nodes@.len(),
            root_element(node_views(nodes@), 0) == root_element(node_views(nodes@), i as int),
        decreases nodes@.len() - i,
    {
        if child_of(nodes, i, 0) {
            return Some(i);
        }
        i += 1;
    }
    None
}

} // verus!
