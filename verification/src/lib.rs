//! Finds the differences between two HTML documents: where their element
//! trees disagree, and at which place.

pub mod attributes;
pub mod compare;
pub mod difference;
pub mod laws;
pub mod node;
pub mod parse;
pub mod text;

pub use crate::attributes::AttributeMap;
pub use crate::compare::go_through_tree;
pub use crate::difference::{Difference, ElementInformation};
pub use crate::node::{Attribute, Element, Node};

use crate::compare::tree_differences;
use crate::difference::difference_views;
use crate::parse::{parse_document, parsed_document};
pub use crate::parse::MAX_CONTENT_LEN;
use vstd::prelude::*;

verus! {

/// The path under which the children of a document are compared: empty.
pub open spec fn root_path() -> Seq<Seq<char>> {
    Seq::empty()
}

/// Take two html content strings in output, returns a `Vec` containing the differences (if any).
///
/// The places start at the children of the document: the walk begins with
/// an empty path. Neither text may be longer than the parser can take.
pub fn get_differences(content1: &str, content2: &str) -> (differences: Vec<Difference>)
    requires
        content1@.len() <= MAX_CONTENT_LEN,
        content2@.len() <= MAX_CONTENT_LEN,
    ensures
        difference_views(differences@) == tree_differences(
            parsed_document(content1@),
            parsed_document(content2@),
            root_path(),
        ),
        forall|k: int| 0 <= k < differences.len() ==> (#[trigger] differences[k])@.is_well_formed(),
{
    let document1 = parse_document(content1);
    let document2 = parse_document(content2);
    let mut path: Vec<String> = Vec::new();
    proof {
        assert(crate::text::string_views(path@) =~= root_path());
    }
    go_through_tree(&document1, &document2, &mut path)
}

} // verus!
