//! XML documents as plain lists of nodes.

use vstd::prelude::*;

verus! {

/// An attribute of an element. `namespaced` tells a prefixed name from a plain one.
#[derive(Debug)]
pub struct XmlAttribute {
    pub namespaced: bool,
    pub name: String,
    pub value: String,
}

/// A node of a document. Nodes that are not elements have an empty tag.
#[derive(Debug)]
pub struct XmlNode {
    pub id: usize,
    pub parent: Option<usize>,
    pub tag: String,
    pub attributes: Vec<XmlAttribute>,
}

#[verifier::ext_equal]
pub ghost struct AttributeModel {
    pub namespaced: bool,
    pub name: Seq<char>,
    pub value: Seq<char>,
}

#[verifier::ext_equal]
pub ghost struct NodeModel {
    pub id: usize,
    pub parent: Option<usize>,
    pub tag: Seq<char>,
    pub attributes: Seq<AttributeModel>,
}

impl View for XmlAttribute {
    type V = AttributeModel;

    open spec fn view(&self) -> AttributeModel {
        AttributeModel { namespaced: self.namespaced, name: self.name@, value: self.value@ }
    }
}

impl View for XmlNode {
    type V = NodeModel;

    open spec fn view(&self) -> NodeModel {
        NodeModel {
            id: self.id,
            parent: self.parent,
            tag: self.tag@,
            attributes: self.attributes@.map_values(|a: XmlAttribute| a@),
        }
    }
}

/// A list of nodes, each by its view.
pub open spec fn nodes_view(s: Seq<XmlNode>) -> Seq<NodeModel> {
    s.map_values(|n: XmlNode| n@)
}

/// The value of the first plain attribute with this name.
pub open spec fn attribute_in(attributes: Seq<AttributeModel>, name: Seq<char>) -> Option<
    Seq<char>,
>
    decreases attributes.len(),
{
    if attributes.len() == 0 {
        None
    } else if !attributes[0].namespaced && attributes[0].name == name {
        Some(attributes[0].value)
    } else {
        attribute_in(attributes.drop_first(), name)
    }
}

impl NodeModel {
    pub open spec fn attribute(self, name: Seq<char>) -> Option<Seq<char>> {
        attribute_in(self.attributes, name)
    }
}

impl XmlNode {
    /// The value of the first plain attribute with this name.
    pub fn attribute(&self, name: &str) -> (r: Option<&str>)
        ensures
            self@.attribute(name@) == (match r {
                Some(v) => Some(v@),
                None => None,
            }),
    {
        let ghost all = self@.attributes;
        let mut i: usize = 0;
        assert(all.skip(0) =~= all);
        while i < self.attributes.len()
            invariant
                i <= self.attributes@.len(),
                all == self@.attributes,
                attribute_in(all, name@) == attribute_in(all.skip(i as int), name@),
            decreases self.attributes@.len() - i,
        {
            let a = &self.attributes[i];
            assert(all.skip(i as int)[0] == a@);
            assert(all.skip(i as int).drop_first() =~= all.skip(i + 1));
            if !a.namespaced && *a.name.as_str() == *name {
                return Some(a.value.as_str());
            }
            i = i + 1;
        }
        None
    }

    /// Is this an element with this tag?
    pub fn has_tag_name(&self, tag: &str) -> (r: bool)
        ensures
            r == (self@.tag == tag@),
    {
        *self.tag.as_str() == *tag
    }
}

/// An error of the XML parser.
#[verifier::external_type_specification]
#[verifier::external_body]
pub struct ExParseError(roxmltree::Error);

/// The nodes of a document in document order, the root first; `None` where the text is not
/// well-formed XML.
pub uninterp spec fn document_nodes(xml: Seq<char>) -> Option<Seq<NodeModel>>;

/// `roxmltree::Document::parse` and the nodes that `Document::descendants` then lists, each
/// with its id, parent, local tag name and attributes. What the parser accepts and finds in
/// a text is only given a name.
#[verifier::external_body]
pub(crate) fn parse_nodes(xml: &str) -> (r: Result<Vec<XmlNode>, roxmltree::Error>)
    ensures
        document_nodes(xml@) == (match r {
            Ok(nodes) => Some(nodes_view(nodes@)),
            Err(_) => None,
        }),
{
    let doc = roxmltree::Document::parse(xml)?;
    let node = |n: roxmltree::Node| XmlNode {
        id: n.id().get_usize(),
        parent: n.parent().map(|p| p.id().get_usize()),
        tag: n.tag_name().name().to_string(),
        attributes: n.attributes().map(|a| XmlAttribute {
            namespaced: a.namespace().is_some(),
            name: a.name().to_string(),
            value: a.value().to_string(),
        }).collect(),
    };
    Ok(doc.descendants().map(node).collect())
}

/// What is wrong with a data file.
#[derive(Debug, Clone, Copy, PartialEq, Eq)]
pub enum FormatError {
    InvalidNode { what: &'static str },
}

impl FormatError {
    pub open spec fn reason(self) -> Seq<char> {
        match self {
            FormatError::InvalidNode { what } => what@,
        }
    }

    /// What is wrong, in words.
    pub fn what(&self) -> (r: &'static str)
        ensures
            r@ == self.reason(),
    {
        match self {
            FormatError::InvalidNode { what } => what,
        }
    }
}

} // verus!
