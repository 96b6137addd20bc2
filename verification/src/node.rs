//! The document tree that is compared, and its mathematical model.

use crate::text::{is_blank, is_blank_text, join, joined};
use vstd::prelude::*;

verus! {

/// One attribute of an element: the namespace and the local name that
/// together are its qualified name, and its value.
#[derive(Clone, Debug)]
pub struct Attribute {
    pub namespace: String,
    pub name: String,
    pub value: String,
}

/// An element: the namespace and the local name that together are its tag
/// name, its attributes in the order in which the document tree holds them,
/// its children in document order, and its own markup.
#[derive(Debug)]
pub struct Element {
    pub namespace: String,
    pub name: String,
    pub attributes: Vec<Attribute>,
    pub children: Vec<Node>,
    pub markup: String,
}

/// A node of a document tree.
#[derive(Debug)]
pub enum Node {
    /// An element.
    Element(Element),
    /// A run of text, with the markup that writes it.
    Text { content: String, markup: String },
    /// A comment. Nothing of it is ever compared.
    Comment,
    /// Any other node: the document itself, a doctype, a processing
    /// instruction, a fragment.
    Other { children: Vec<Node>, markup: String },
}

/// A qualified name: a namespace and a local name.
pub type Name = (Seq<char>, Seq<char>);

/// The model of an [`Attribute`]: its qualified name and its value.
pub type Entry = (Name, Seq<char>);

/// The model of an [`Element`].
pub struct ElementTree {
    pub namespace: Seq<char>,
    pub name: Seq<char>,
    pub attributes: Seq<Entry>,
    pub children: Seq<Tree>,
    pub markup: Seq<char>,
}

/// The model of a [`Node`].
pub enum Tree {
    Element(ElementTree),
    Text { content: Seq<char>, markup: Seq<char> },
    Comment,
    Other { children: Seq<Tree>, markup: Seq<char> },
}

impl View for Attribute {
    type V = Entry;

    open spec fn view(&self) -> Entry {
        ((self.namespace@, self.name@), self.value@)
    }
}

/// The models of a sequence of attributes.
pub open spec fn attribute_views(attributes: Seq<Attribute>) -> Seq<Entry> {
    attributes.map_values(|attribute: Attribute| attribute@)
}

/// The models of a sequence of nodes. (The index is tested so that the
/// definition is seen to end; no index outside the sequence is ever used.)
pub open spec fn node_views(nodes: Seq<Node>) -> Seq<Tree>
    decreases nodes,
{
    Seq::new(
        nodes.len(),
        |i: int|
            if 0 <= i < nodes.len() {
                nodes[i]@
            } else {
                Tree::Comment
            },
    )
}

impl View for Element {
    type V = ElementTree;

    open spec fn view(&self) -> ElementTree
        decreases self,
    {
        ElementTree {
            namespace: self.namespace@,
            name: self.name@,
            attributes: attribute_views(self.attributes@),
            children: node_views(self.children@),
            markup: self.markup@,
        }
    }
}

impl View for Node {
    type V = Tree;

    open spec fn view(&self) -> Tree
        decreases self,
    {
        match self {
            Node::Element(element) => Tree::Element(element@),
            Node::Text { content, markup } => Tree::Text { content: content@, markup: markup@ },
            Node::Comment => Tree::Comment,
            Node::Other { children, markup } => Tree::Other {
                children: node_views(children@),
                markup: markup@,
            },
        }
    }
}

impl Tree {
    /// The children of a node, in document order. Text and comments have none.
    pub open spec fn children(self) -> Seq<Tree> {
        match self {
            Tree::Element(element) => element.children,
            Tree::Other { children, .. } => children,
            _ => Seq::empty(),
        }
    }

    /// The tag name of an element; empty for a node without a tag.
    pub open spec fn name(self) -> Seq<char> {
        match self {
            Tree::Element(element) => element.name,
            _ => Seq::empty(),
        }
    }

    /// The markup of a node; empty for a comment.
    pub open spec fn output(self) -> Seq<char> {
        match self {
            Tree::Element(element) => element.markup,
            Tree::Text { markup, .. } => markup,
            Tree::Comment => Seq::empty(),
            Tree::Other { markup, .. } => markup,
        }
    }

    /// Whether a child takes part in the comparison: every node but a comment
    /// and a text that is blank.
    pub open spec fn is_significant(self) -> bool {
        match self {
            Tree::Comment => false,
            Tree::Text { content, .. } => !is_blank(content),
            _ => true,
        }
    }

    /// The children that take part in the comparison, in document order.
    pub open spec fn significant_children(self) -> Seq<Tree> {
        significant(self.children())
    }
}

/// The nodes of `nodes` that take part in the comparison, in order.
pub open spec fn significant(nodes: Seq<Tree>) -> Seq<Tree> {
    nodes.filter(|node: Tree| node.is_significant())
}

/// The texts of all text nodes of a tree, in document order, as one text.
pub open spec fn text_contents(tree: Tree) -> Seq<char>
    decreases tree,
{
    match tree {
        Tree::Element(element) => forest_text(element.children),
        Tree::Text { content, .. } => content,
        Tree::Comment => Seq::empty(),
        Tree::Other { children, .. } => forest_text(children),
    }
}

/// The texts of all text nodes of a sequence of trees, in document order.
pub open spec fn forest_text(trees: Seq<Tree>) -> Seq<char>
    decreases trees,
{
    if trees.len() == 0 {
        Seq::empty()
    } else {
        forest_text(trees.drop_last()) + text_contents(trees.last())
    }
}

/// How one attribute is shown inside an element's summary: local name and
/// value, each between double quotes, with `=` between them.
pub open spec fn shown_attribute(attribute: Entry) -> Seq<char> {
    "\""@ + attribute.0.1 + "\"=\""@ + attribute.1 + "\""@
}

/// The attributes of an element as they are shown in its summary.
pub open spec fn shown_attributes(attributes: Seq<Entry>) -> Seq<Seq<char>> {
    attributes.map_values(|attribute: Entry| shown_attribute(attribute))
}

impl ElementTree {
    /// The summary of an element: its opening tag with the attributes, the
    /// text found anywhere below it, and its closing tag.
    pub open spec fn output(self) -> Seq<char> {
        "<"@ + self.name + " "@ + joined(shown_attributes(self.attributes), " "@) + ">"@
            + forest_text(self.children) + "</"@ + self.name + ">"@
    }
}

/// The models of the nodes that a sequence of references points to.
pub open spec fn referent_views(nodes: Seq<&Node>) -> Seq<Tree> {
    nodes.map_values(|node: &Node| node@)
}

/// What a difference record shows of a node: a name and a content.
pub trait ToOutput {
    /// The content, as a model.
    spec fn output_text(&self) -> Seq<char>;

    /// The name, as a model.
    spec fn name_text(&self) -> Seq<char>;

    /// The content shown for the node.
    fn output(&self) -> (out: String)
        ensures
            out@ == self.output_text(),
    ;

    /// The name shown for the node.
    fn name(&self) -> (out: String)
        ensures
            out@ == self.name_text(),
    ;
}

impl ToOutput for Element {
    open spec fn output_text(&self) -> Seq<char> {
        self@.output()
    }

    open spec fn name_text(&self) -> Seq<char> {
        self@.name
    }

    fn output(&self) -> (out: String) {
        let mut shown: Vec<String> = Vec::new();
        let mut i: usize = 0;
        while i < self.attributes.len()
            invariant
                i <= self.attributes.len(),
                crate::text::string_views(shown@) == shown_attributes(
                    attribute_views(self.attributes@).take(i as int),
                ),
            decreases self.attributes.len() - i,
        {
            let attribute = &self.attributes[i];
            let mut item = String::from_str("\"");
            item.append(attribute.name.as_str());
            item.append("\"=\"");
            item.append(attribute.value.as_str());
            item.append("\"");
            proof {
                let models = attribute_views(self.attributes@);
                assert(models.take(i + 1) =~= models.take(i as int).push(models[i as int]));
                assert(item@ == shown_attribute(models[i as int]));
                assert(shown_attributes(models.take(i + 1)) =~= shown_attributes(
                    models.take(i as int),
                ).push(shown_attribute(models[i as int])));
                assert(crate::text::string_views(shown@.push(item)) =~= crate::text::string_views(
                    shown@,
                ).push(item@));
            }
            shown.push(item);
            i += 1;
        }
        proof {
            let models = attribute_views(self.attributes@);
            assert(models.take(i as int) =~= models);
        }
        let attributes = join(&shown, " ");
        let text = text_of_nodes(&self.children);
        let mut out = String::from_str("<");
        out.append(self.name.as_str());
        out.append(" ");
        out.append(attributes.as_str());
        out.append(">");
        out.append(text.as_str());
        out.append("</");
        out.append(self.name.as_str());
        out.append(">");
        out
    }

    fn name(&self) -> (out: String) {
        self.name.clone()
    }
}

impl ToOutput for Node {
    open spec fn output_text(&self) -> Seq<char> {
        self@.output()
    }

    open spec fn name_text(&self) -> Seq<char> {
        self@.name()
    }

    fn output(&self) -> (out: String) {
        match self {
            Node::Element(element) => element.markup.clone(),
            Node::Text { markup, .. } => markup.clone(),
            Node::Comment => String::new(),
            Node::Other { markup, .. } => markup.clone(),
        }
    }

    fn name(&self) -> (out: String) {
        match self {
            Node::Element(element) => element.name.clone(),
            _ => String::new(),
        }
    }
}

/// The texts of all text nodes below `nodes`, in document order, as one
/// string.
pub fn text_of_nodes(nodes: &Vec<Node>) -> (out: String)
    ensures
        out@ == forest_text(node_views(nodes@)),
    decreases nodes,
{
    let mut out = String::new();
    let mut i: usize = 0;
    while i < nodes.len()
        invariant
            i <= nodes.len(),
            out@ == forest_text(node_views(nodes@).take(i as int)),
        decreases nodes.len() - i,
    {
        let part = text_of_node(&nodes[i]);
        proof {
            let models = node_views(nodes@);
            assert(models.take(i + 1).drop_last() =~= models.take(i as int));
            assert(models.take(i + 1).last() == nodes@[i as int]@);
        }
        out.append(part.as_str());
        i += 1;
    }
    proof {
        let models = node_views(nodes@);
        assert(models.take(i as int) =~= models);
    }
    out
}

/// The texts of all text nodes of `node`, in document order, as one string.
pub fn text_of_node(node: &Node) -> (out: String)
    ensures
        out@ == text_contents(node@),
    decreases node,
{
    match node {
        Node::Element(element) => text_of_nodes(&element.children),
        Node::Text { content, .. } => content.clone(),
        Node::Comment => String::new(),
        Node::Other { children, .. } => text_of_nodes(children),
    }
}

impl Node {
    /// The children of a node, in document order.
    pub fn children(&self) -> (out: &[Node])
        ensures
            node_views(out@) == self@.children(),
            forall|i: int| 0 <= i < out@.len() ==> decreases_to!(self => #[trigger] out@[i]),
    {
        match self {
            Node::Element(element) => element.children.as_slice(),
            Node::Other { children, .. } => children.as_slice(),
            _ => {
                let none: &[Node] = &[];
                assert(node_views(none@) =~= self@.children());
                none
            },
        }
    }

    /// The children of a node that take part in a comparison, in document
    /// order.
    pub fn significant_children(&self) -> (out: Vec<&Node>)
        ensures
            referent_views(out@) == self@.significant_children(),
            forall|i: int| 0 <= i < out@.len() ==> decreases_to!(self => #[trigger] out@[i]),
    {
        let children = self.children();
        let mut out: Vec<&Node> = Vec::new();
        let mut i: usize = 0;
        while i < children.len()
            invariant
                i <= children.len(),
                node_views(children@) == self@.children(),
                referent_views(out@) == significant(node_views(children@).take(i as int)),
                forall|k: int| 0 <= k < children@.len() ==> decreases_to!(self => #[trigger] children@[k]),
                forall|k: int| 0 <= k < out@.len() ==> decreases_to!(self => #[trigger] out@[k]),
            decreases children.len() - i,
        {
            let child = &children[i];
            proof {
                let models = node_views(children@);
                let keep = |node: Tree| node.is_significant();
                assert(models.take(i + 1) =~= models.take(i as int).push(child@));
                models.take(i as int).lemma_filter_push(child@, keep);
                assert(referent_views(out@.push(child)) =~= referent_views(out@).push(child@));
            }
            if check_if_comment_or_empty_text(child) {
                out.push(child);
            }
            i += 1;
        }
        proof {
            let models = node_views(children@);
            assert(models.take(i as int) =~= models);
        }
        out
    }
}

/// Whether a child takes part in a comparison: not a comment, and not a text
/// that is blank.
pub fn check_if_comment_or_empty_text(e: &Node) -> (significant: bool)
    ensures
        significant == e@.is_significant(),
{
    match e {
        Node::Comment => false,
        Node::Text { content, .. } => !is_blank_text(content.as_str()),
        _ => true,
    }
}

} // verus!
