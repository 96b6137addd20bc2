//! What a comparison reports: the kinds of difference, what each records of
//! the two sides, and the one-line message of each.

use crate::attributes::AttributeMap;
use crate::node::{attribute_views, Entry, ToOutput};
use crate::text::{debug_quoted, debug_string, join, joined, string_views};
use vstd::prelude::*;

verus! {

/// What a difference records of one side: a name, a content and the place.
#[derive(Debug, Clone, PartialEq)]
pub struct ElementInformation {
    pub element_name: String,
    pub element_content: String,
    pub path: String,
}

/// The model of an [`ElementInformation`].
pub struct ElementInformationView {
    pub element_name: Seq<char>,
    pub element_content: Seq<char>,
    pub path: Seq<char>,
}

impl View for ElementInformation {
    type V = ElementInformationView;

    open spec fn view(&self) -> ElementInformationView {
        ElementInformationView {
            element_name: self.element_name@,
            element_content: self.element_content@,
            path: self.path@,
        }
    }
}

/// The place that a path names: its segments with `/` between them.
pub open spec fn place(path: Seq<Seq<char>>) -> Seq<char> {
    joined(path, "/"@)
}

/// The record of something with the given name and content, found at `path`.
pub open spec fn information(
    name: Seq<char>,
    content: Seq<char>,
    path: Seq<Seq<char>>,
) -> ElementInformationView {
    ElementInformationView { element_name: name, element_content: content, path: place(path) }
}

/// The record of a place alone, with an empty name and an empty content.
pub open spec fn place_information(path: Seq<Seq<char>>) -> ElementInformationView {
    information(Seq::empty(), Seq::empty(), path)
}

impl ElementInformation {
    /// Records the name and the content of `content`, found at `path`.
    pub fn new<T: ToOutput>(content: &T, path: &Vec<String>) -> (out: ElementInformation)
        ensures
            out@ == information(content.name_text(), content.output_text(), string_views(path@)),
    {
        ElementInformation {
            element_name: content.name(),
            element_content: content.output(),
            path: join(path, "/"),
        }
    }

    /// Records a place alone.
    pub fn from_path(path: &Vec<String>) -> (out: ElementInformation)
        ensures
            out@ == place_information(string_views(path@)),
    {
        ElementInformation {
            element_name: String::new(),
            element_content: String::new(),
            path: join(path, "/"),
        }
    }
}

/// Contains the kind of difference and some information.
#[derive(Debug, Clone)]
#[allow(inconsistent_fields)]
pub enum Difference {
    /// Different node types at the same place (text vs data for example).
    NodeType { elem: ElementInformation, opposite_elem: ElementInformation },
    /// Different node names (`div` vs `ul` for example).
    NodeName { elem: ElementInformation, opposite_elem: ElementInformation },
    /// Different attributes for two nodes.
    NodeAttributes {
        elem: ElementInformation,
        elem_attributes: AttributeMap,
        opposite_elem: ElementInformation,
        opposite_elem_attributes: AttributeMap,
    },
    /// Different text content for two nodes.
    NodeText {
        elem: ElementInformation,
        elem_text: String,
        opposite_elem: ElementInformation,
        opposite_elem_text: String,
    },
    /// If an element isn't present in one of the two sides.
    NotPresent { elem: Option<ElementInformation>, opposite_elem: Option<ElementInformation> },
}

/// The model of a [`Difference`].
#[allow(inconsistent_fields)]
pub enum DifferenceView {
    NodeType { elem: ElementInformationView, opposite_elem: ElementInformationView },
    NodeName { elem: ElementInformationView, opposite_elem: ElementInformationView },
    NodeAttributes {
        elem: ElementInformationView,
        elem_attributes: Seq<Entry>,
        opposite_elem: ElementInformationView,
        opposite_elem_attributes: Seq<Entry>,
    },
    NodeText {
        elem: ElementInformationView,
        elem_text: Seq<char>,
        opposite_elem: ElementInformationView,
        opposite_elem_text: Seq<char>,
    },
    NotPresent {
        elem: Option<ElementInformationView>,
        opposite_elem: Option<ElementInformationView>,
    },
}

/// The model of a record that may be absent.
pub open spec fn optional_view(info: Option<ElementInformation>) -> Option<
    ElementInformationView,
> {
    match info {
        Some(info) => Some(info@),
        None => None,
    }
}

impl View for Difference {
    type V = DifferenceView;

    open spec fn view(&self) -> DifferenceView {
        match self {
            Difference::NodeType { elem, opposite_elem } => DifferenceView::NodeType {
                elem: elem@,
                opposite_elem: opposite_elem@,
            },
            Difference::NodeName { elem, opposite_elem } => DifferenceView::NodeName {
                elem: elem@,
                opposite_elem: opposite_elem@,
            },
            Difference::NodeAttributes {
                elem,
                elem_attributes,
                opposite_elem,
                opposite_elem_attributes,
            } => DifferenceView::NodeAttributes {
                elem: elem@,
                elem_attributes: elem_attributes@,
                opposite_elem: opposite_elem@,
                opposite_elem_attributes: opposite_elem_attributes@,
            },
            Difference::NodeText {
                elem,
                elem_text,
                opposite_elem,
                opposite_elem_text,
            } => DifferenceView::NodeText {
                elem: elem@,
                elem_text: elem_text@,
                opposite_elem: opposite_elem@,
                opposite_elem_text: opposite_elem_text@,
            },
            Difference::NotPresent { elem, opposite_elem } => DifferenceView::NotPresent {
                elem: optional_view(*elem),
                opposite_elem: optional_view(*opposite_elem),
            },
        }
    }
}

/// The models of a sequence of differences.
pub open spec fn difference_views(differences: Seq<Difference>) -> Seq<DifferenceView> {
    differences.map_values(|difference: Difference| difference@)
}

/// How one entry of a mapping is shown: local name and value, each quoted,
/// with a colon and a space between them.
pub open spec fn shown_entry(entry: Entry) -> Seq<char> {
    debug_quoted(entry.0.1) + ": "@ + debug_quoted(entry.1)
}

/// How a mapping is shown: its entries in order, with a comma and a space
/// between them, inside braces.
pub open spec fn shown_mapping(entries: Seq<Entry>) -> Seq<char> {
    "{"@ + joined(entries.map_values(|entry: Entry| shown_entry(entry)), ", "@)
        + "}"@
}

impl DifferenceView {
    /// Whether exactly one side of a `NotPresent` is there. It holds of
    /// every other kind.
    pub open spec fn is_one_sided(self) -> bool {
        match self {
            DifferenceView::NotPresent { elem, opposite_elem } => elem is Some
                != opposite_elem is Some,
            _ => true,
        }
    }

    /// Whether the two sides of a difference of kind, name, attributes or
    /// text were found at the same place. It holds of every `NotPresent`.
    pub open spec fn sides_share_place(self) -> bool {
        match self {
            DifferenceView::NodeType { elem, opposite_elem } => elem.path == opposite_elem.path,
            DifferenceView::NodeName { elem, opposite_elem } => elem.path == opposite_elem.path,
            DifferenceView::NodeAttributes { elem, opposite_elem, .. } => elem.path
                == opposite_elem.path,
            DifferenceView::NodeText { elem, opposite_elem, .. } => elem.path
                == opposite_elem.path,
            DifferenceView::NotPresent { .. } => true,
        }
    }

    /// Whether the difference is one that a comparison reports: one-sided,
    /// with both sides at one place.
    pub open spec fn is_well_formed(self) -> bool {
        self.is_one_sided() && self.sides_share_place()
    }

    /// Whether the difference has a message: every difference but a
    /// `NotPresent` with neither side.
    pub open spec fn has_message(self) -> bool {
        match self {
            DifferenceView::NotPresent { elem, opposite_elem } => elem is Some
                || opposite_elem is Some,
            _ => true,
        }
    }

    /// The same difference seen from the other side: what was recorded of
    /// each side changes places.
    pub open spec fn mirrored(self) -> DifferenceView {
        match self {
            DifferenceView::NodeType { elem, opposite_elem } => DifferenceView::NodeType {
                elem: opposite_elem,
                opposite_elem: elem,
            },
            DifferenceView::NodeName { elem, opposite_elem } => DifferenceView::NodeName {
                elem: opposite_elem,
                opposite_elem: elem,
            },
            DifferenceView::NodeAttributes {
                elem,
                elem_attributes,
                opposite_elem,
                opposite_elem_attributes,
            } => DifferenceView::NodeAttributes {
                elem: opposite_elem,
                elem_attributes: opposite_elem_attributes,
                opposite_elem: elem,
                opposite_elem_attributes: elem_attributes,
            },
            DifferenceView::NodeText {
                elem,
                elem_text,
                opposite_elem,
                opposite_elem_text,
            } => DifferenceView::NodeText {
                elem: opposite_elem,
                elem_text: opposite_elem_text,
                opposite_elem: elem,
                opposite_elem_text: elem_text,
            },
            DifferenceView::NotPresent { elem, opposite_elem } => DifferenceView::NotPresent {
                elem: opposite_elem,
                opposite_elem: elem,
            },
        }
    }

    /// The place at which the difference was found.
    pub open spec fn path(self) -> Seq<char> {
        match self {
            DifferenceView::NodeType { elem, .. } => elem.path,
            DifferenceView::NodeName { elem, .. } => elem.path,
            DifferenceView::NodeAttributes { elem, .. } => elem.path,
            DifferenceView::NodeText { elem, .. } => elem.path,
            DifferenceView::NotPresent { elem: Some(elem), .. } => elem.path,
            DifferenceView::NotPresent { elem: None, opposite_elem: Some(elem) } => elem.path,
            DifferenceView::NotPresent { elem: None, opposite_elem: None } => Seq::empty(),
        }
    }

    /// The one-line message of the difference.
    pub open spec fn message(self) -> Seq<char> {
        match self {
            DifferenceView::NodeType { elem, opposite_elem } => elem.path
                + " => [Types differ]: expected \""@ + elem.element_name + "\", found \""@
                + opposite_elem.element_name + "\""@,
            DifferenceView::NodeName { elem, opposite_elem } => elem.path
                + " => [Tags differ]: expected \""@ + elem.element_name + "\", found \""@
                + opposite_elem.element_name + "\""@,
            DifferenceView::NodeAttributes {
                elem,
                elem_attributes,
                opposite_elem_attributes,
                ..
            } => elem.path + " => [Attributes differ in \""@ + elem.element_name
                + "\"]: expected \""@ + shown_mapping(elem_attributes) + "\", found \""@
                + shown_mapping(opposite_elem_attributes) + "\""@,
            DifferenceView::NodeText { elem, elem_text, opposite_elem_text, .. } => elem.path
                + " => [Texts differ]: expected "@ + debug_quoted(elem_text) + ", found "@
                + debug_quoted(opposite_elem_text),
            DifferenceView::NotPresent { elem: Some(elem), .. } => elem.path
                + " => [One element is missing]: expected "@ + debug_quoted(elem.element_name),
            DifferenceView::NotPresent { elem: None, opposite_elem: Some(elem) } => elem.path
                + " => [Unexpected element \""@ + elem.element_name + "\"]: found "@
                + debug_quoted(elem.element_content),
            DifferenceView::NotPresent { elem: None, opposite_elem: None } => Seq::empty(),
        }
    }
}

/// Writes a mapping as its entries inside braces.
fn mapping_to_string(map: &AttributeMap) -> (out: String)
    ensures
        out@ == shown_mapping(map@),
{
    let entries = map.entries();
    let mut shown: Vec<String> = Vec::new();
    let mut i: usize = 0;
    while i < entries.len()
        invariant
            i <= entries.len(),
            attribute_views(entries@) == map@,
            string_views(shown@) == map@.take(i as int).map_values(
                |entry: Entry| shown_entry(entry),
            ),
        decreases entries.len() - i,
    {
        let mut item = debug_string(entries[i].name.as_str());
        let value = debug_string(entries[i].value.as_str());
        item.append(": ");
        item.append(value.as_str());
        proof {
            let show = |entry: Entry| shown_entry(entry);
            assert(map@[i as int] == entries@[i as int]@);
            assert(map@.take(i + 1) =~= map@.take(i as int).push(map@[i as int]));
            assert(map@.take(i + 1).map_values(show) =~= map@.take(i as int).map_values(
                show,
            ).push(item@));
            assert(string_views(shown@.push(item)) =~= string_views(shown@).push(item@));
        }
        shown.push(item);
        i += 1;
    }
    proof {
        assert(map@.take(i as int) =~= map@);
    }
    let inner = join(&shown, ", ");
    let mut out = String::from_str("{");
    out.append(inner.as_str());
    out.append("}");
    out
}

impl Difference {
    pub fn is_node_type(&self) -> (out: bool)
        ensures
            out == (self@ is NodeType),
    {
        match *self {
            Difference::NodeType { .. } => true,
            _ => false,
        }
    }

    pub fn is_node_name(&self) -> (out: bool)
        ensures
            out == (self@ is NodeName),
    {
        match *self {
            Difference::NodeName { .. } => true,
            _ => false,
        }
    }

    pub fn is_node_attributes(&self) -> (out: bool)
        ensures
            out == (self@ is NodeAttributes),
    {
        match *self {
            Difference::NodeAttributes { .. } => true,
            _ => false,
        }
    }

    pub fn is_node_text(&self) -> (out: bool)
        ensures
            out == (self@ is NodeText),
    {
        match *self {
            Difference::NodeText { .. } => true,
            _ => false,
        }
    }

    pub fn is_not_present(&self) -> (out: bool)
        ensures
            out == (self@ is NotPresent),
    {
        match *self {
            Difference::NotPresent { .. } => true,
            _ => false,
        }
    }

    /// The one-line message of the difference: the place, the kind between
    /// square brackets, and what was expected and found.
    pub fn to_string(&self) -> (out: String)
        requires
            self@.has_message(),
        ensures
            out@ == self@.message(),
    {
        match self {
            Difference::NodeType { elem, opposite_elem } => {
                let mut out = elem.path.clone();
                out.append(" => [Types differ]: expected \"");
                out.append(elem.element_name.as_str());
                out.append("\", found \"");
                out.append(opposite_elem.element_name.as_str());
                out.append("\"");
                out
            },
            Difference::NodeName { elem, opposite_elem } => {
                let mut out = elem.path.clone();
                out.append(" => [Tags differ]: expected \"");
                out.append(elem.element_name.as_str());
                out.append("\", found \"");
                out.append(opposite_elem.element_name.as_str());
                out.append("\"");
                out
            },
            Difference::NodeAttributes {
                elem,
                elem_attributes,
                opposite_elem_attributes,
                ..
            } => {
                let expected = mapping_to_string(elem_attributes);
                let found = mapping_to_string(opposite_elem_attributes);
                let mut out = elem.path.clone();
                out.append(" => [Attributes differ in \"");
                out.append(elem.element_name.as_str());
                out.append("\"]: expected \"");
                out.append(expected.as_str());
                out.append("\", found \"");
                out.append(found.as_str());
                out.append("\"");
                out
            },
            Difference::NodeText { elem, elem_text, opposite_elem_text, .. } => {
                let expected = debug_string(elem_text.as_str());
                let found = debug_string(opposite_elem_text.as_str());
                let mut out = elem.path.clone();
                out.append(" => [Texts differ]: expected ");
                out.append(expected.as_str());
                out.append(", found ");
                out.append(found.as_str());
                out
            },
            Difference::NotPresent { elem: Some(elem), .. } => {
                let expected = debug_string(elem.element_name.as_str());
                let mut out = elem.path.clone();
                out.append(" => [One element is missing]: expected ");
                out.append(expected.as_str());
                out
            },
            Difference::NotPresent { elem: None, opposite_elem: Some(elem) } => {
                let found = debug_string(elem.element_content.as_str());
                let mut out = elem.path.clone();
                out.append(" => [Unexpected element \"");
                out.append(elem.element_name.as_str());
                out.append("\"]: found ");
                out.append(found.as_str());
                out
            },
            Difference::NotPresent { elem: None, opposite_elem: None } => unreached(),
        }
    }
}

} // verus!
