//! Reading a document: the parser's tree, copied into a [`Node`].

use crate::node::{Attribute, Element, Node, Tree};
use kuchiki::traits::TendrilSink;
use kuchiki::{ElementData, NodeData, NodeRef};
use vstd::prelude::*;

verus! {

/// `kuchiki::NodeRef`, a handle on a node of the parser's tree. Nothing is
/// known of what it holds.
#[verifier::external_type_specification]
#[verifier::external_body]
pub struct ExNodeRef(kuchiki::NodeRef);

/// `kuchiki::ElementData`, what the parser's tree holds of an element.
/// Nothing is known of what it holds.
#[verifier::external_type_specification]
#[verifier::external_body]
pub struct ExElementData(kuchiki::ElementData);

/// The longest document text, in characters, that the parser is given:
/// its buffers hold at most `u32::MAX` bytes, and a character takes at most
/// four.
pub const MAX_CONTENT_LEN: usize = 0x3fff_ffff;

/// The tree that the parser builds for the document text `content`.
pub uninterp spec fn parsed_document(content: Seq<char>) -> Tree;

/// Copies the attributes of an element, `ElementData::attributes`, in the
/// order of the parser's map: of each the namespace, the local name and the
/// value. Nothing is claimed of the result.
#[verifier::external_body]
fn attributes_of(data: &ElementData) -> (out: Vec<Attribute>) {
    data.attributes
        .borrow()
        .map
        .iter()
        .map(|(name, attribute)| Attribute {
            namespace: name.ns.to_string(),
            name: name.local.to_string(),
            value: attribute.value.clone(),
        })
        .collect()
}

/// Copies a node of the parser's tree and all below it: the variant of
/// `NodeRef::data` with its fields (of an element's name the namespace and
/// the local name), `NodeRef::children` in order, and as markup what
/// `NodeRef::to_string` writes. Nothing is claimed of the result.
#[verifier::external_body]
fn snapshot(node: &NodeRef) -> (out: Node) {
    let children: Vec<Node> = node.children().map(|child| snapshot(&child)).collect();
    let markup = node.to_string();
    match node.data() {
        NodeData::Element(data) => {
            let (namespace, name) = (data.name.ns.to_string(), data.name.local.to_string());
            let attributes = attributes_of(data);
            Node::Element(Element { namespace, name, attributes, children, markup })
        },
        NodeData::Text(text) => Node::Text { content: text.borrow().clone(), markup },
        NodeData::Comment(_) => Node::Comment,
        _ => Node::Other { children, markup },
    }
}

/// Parses a document with `kuchiki::parse_html` and copies the tree that
/// comes back. The contract gives the result the name `parsed_document`:
/// the parser reads nothing but the text, so the same text gives the same
/// tree. The parser takes the text into a buffer of at most `u32::MAX`
/// bytes and panics on a longer one, so the length is bounded.
#[verifier::external_body]
pub(crate) fn parse_document(content: &str) -> (document: Node)
    requires
        content@.len() <= MAX_CONTENT_LEN,
    ensures
        document@ == parsed_document(content@),
{
    snapshot(&kuchiki::parse_html().one(content))
}

} // verus!
