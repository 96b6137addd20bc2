//! The comparison of two document trees: which differences are reported, in
//! which order, and at which place.

use crate::attributes::{attribute_map, collected, map_conversion};
use crate::difference::{
    difference_views, information, place_information, Difference, DifferenceView,
    ElementInformation,
};
use crate::node::{referent_views, significant, Element, ElementTree, Node, Tree};
use crate::text::{decimal, decimal_string, string_views};
use vstd::prelude::*;

verus! {

/// The number of nodes of a tree.
pub open spec fn weight(tree: Tree) -> nat
    decreases tree,
{
    match tree {
        Tree::Element(element) => 1 + forest_weight(element.children),
        Tree::Other { children, .. } => 1 + forest_weight(children),
        _ => 1,
    }
}

/// The number of nodes of a sequence of trees.
pub open spec fn forest_weight(trees: Seq<Tree>) -> nat
    decreases trees,
{
    if trees.len() == 0 {
        0
    } else {
        weight(trees[0]) + forest_weight(trees.skip(1))
    }
}

/// A tree weighs as much as its children and itself.
pub proof fn lemma_weight(tree: Tree)
    ensures
        weight(tree) == 1 + forest_weight(tree.children()),
{
    assert(forest_weight(Seq::<Tree>::empty()) == 0);
}

/// Putting a tree in front of a sequence adds its weight.
pub proof fn lemma_forest_weight_prepend(first: Tree, rest: Seq<Tree>)
    ensures
        forest_weight(seq![first] + rest) == weight(first) + forest_weight(rest),
{
    let all = seq![first] + rest;
    assert(all[0] == first);
    assert(all.skip(1) =~= rest);
}

/// The significant nodes of a sequence weigh no more than the sequence.
pub proof fn lemma_significant_weight(trees: Seq<Tree>)
    ensures
        forest_weight(significant(trees)) <= forest_weight(trees),
    decreases trees.len(),
{
    let keep = |node: Tree| node.is_significant();
    if trees.len() == 0 {
        assert(significant(trees) =~= trees) by {
            reveal(Seq::filter);
        }
    } else {
        let first = trees[0];
        let rest = trees.skip(1);
        assert(trees =~= seq![first] + rest);
        rest.lemma_filter_prepend(first, keep);
        lemma_significant_weight(rest);
        if first.is_significant() {
            lemma_forest_weight_prepend(first, significant(rest));
        } else {
            assert(Seq::<Tree>::empty() + significant(rest) =~= significant(rest));
        }
    }
}

/// Both ways in which a comparison of siblings goes on weigh less than the
/// siblings themselves.
pub proof fn lemma_lighter(left: Seq<Tree>, right: Seq<Tree>)
    ensures
        left.len() > 0 ==> forest_weight(left.skip(1)) < forest_weight(left),
        right.len() > 0 ==> forest_weight(right.skip(1)) < forest_weight(right),
        left.len() > 0 ==> forest_weight(left[0].significant_children()) < forest_weight(left),
        right.len() > 0 ==> forest_weight(right[0].significant_children()) < forest_weight(right),
{
    if left.len() > 0 {
        lemma_weight(left[0]);
        lemma_significant_weight(left[0].children());
    }
    if right.len() > 0 {
        lemma_weight(right[0]);
        lemma_significant_weight(right[0].children());
    }
}

/// One segment of a path: a tag name and, between square brackets, the
/// number of matched elements that came before it among its siblings.
pub open spec fn segment(name: Seq<char>, pos: nat) -> Seq<char> {
    name + "["@ + decimal(pos) + "]"@
}

/// What is reported of two elements that stand at the same position: a
/// difference of name where the namespaces or the local names differ, else
/// a difference of attributes, else nothing.
pub open spec fn element_difference(
    left: ElementTree,
    right: ElementTree,
    path: Seq<Seq<char>>,
) -> Option<DifferenceView> {
    if left.namespace != right.namespace || left.name != right.name {
        Some(
            DifferenceView::NodeName {
                elem: information(left.name, left.output(), path),
                opposite_elem: information(right.name, right.output(), path),
            },
        )
    } else if attribute_map(left.attributes) != attribute_map(right.attributes) {
        Some(
            DifferenceView::NodeAttributes {
                elem: information(left.name, left.output(), path),
                elem_attributes: collected(left.attributes),
                opposite_elem: information(right.name, right.output(), path),
                opposite_elem_attributes: collected(right.attributes),
            },
        )
    } else {
        None
    }
}

/// The difference of kind between two nodes at the same position.
pub open spec fn kind_difference(left: Tree, right: Tree, path: Seq<Seq<char>>) -> DifferenceView {
    DifferenceView::NodeType {
        elem: information(left.name(), left.output(), path),
        opposite_elem: information(right.name(), right.output(), path),
    }
}

/// What is reported of two nodes that stand at the same position, before
/// their children are looked at.
pub open spec fn pair_difference(left: Tree, right: Tree, path: Seq<Seq<char>>) -> Option<
    DifferenceView,
> {
    match (left, right) {
        (Tree::Element(l), Tree::Element(r)) => element_difference(l, r, path),
        (Tree::Element(_), _) => Some(kind_difference(left, right, path)),
        (_, Tree::Element(_)) => Some(kind_difference(left, right, path)),
        (Tree::Text { content: l, .. }, Tree::Text { content: r, .. }) => if l != r {
            Some(
                DifferenceView::NodeText {
                    elem: place_information(path),
                    elem_text: l,
                    opposite_elem: place_information(path),
                    opposite_elem_text: r,
                },
            )
        } else {
            None
        },
        (Tree::Text { .. }, _) => Some(kind_difference(left, right, path)),
        (_, Tree::Text { .. }) => Some(kind_difference(left, right, path)),
        _ => None,
    }
}

/// The report of a node that has no counterpart on the other side.
pub open spec fn missing(node: Tree, path: Seq<Seq<char>>) -> DifferenceView {
    DifferenceView::NotPresent {
        elem: Some(information(node.name(), node.output(), path)),
        opposite_elem: None,
    }
}

/// The report of a node of the other side that has no counterpart here.
pub open spec fn unexpected(node: Tree, path: Seq<Seq<char>>) -> DifferenceView {
    DifferenceView::NotPresent {
        elem: None,
        opposite_elem: Some(information(node.name(), node.output(), path)),
    }
}

/// The path under which the children of a matched node are compared: an
/// element adds its segment, any other node adds nothing.
pub open spec fn path_below(node: Tree, path: Seq<Seq<char>>, pos: nat) -> Seq<Seq<char>> {
    match node {
        Tree::Element(element) => path.push(segment(element.name, pos)),
        _ => path,
    }
}

/// The number of matched elements after a matched node was passed.
pub open spec fn pos_after(node: Tree, pos: nat) -> nat {
    if node is Element {
        pos + 1
    } else {
        pos
    }
}

/// The differences between two sequences of siblings, compared position by
/// position. `path` leads to their parent, and `pos` matched elements came
/// before them.
///
/// A pair that differs is reported and not entered. A pair that matches is
/// entered: the differences between its significant children follow, under
/// the path that the pair extends. A node without a counterpart is reported
/// as not present.
pub open spec fn level_differences(
    left: Seq<Tree>,
    right: Seq<Tree>,
    path: Seq<Seq<char>>,
    pos: nat,
) -> Seq<DifferenceView>
    decreases forest_weight(left) + forest_weight(right),
    via level_differences_decreases
{
    if left.len() == 0 && right.len() == 0 {
        Seq::empty()
    } else if right.len() == 0 {
        seq![missing(left[0], path)] + level_differences(left.skip(1), right, path, pos)
    } else if left.len() == 0 {
        seq![unexpected(right[0], path)] + level_differences(left, right.skip(1), path, pos)
    } else {
        match pair_difference(left[0], right[0], path) {
            Some(difference) => seq![difference] + level_differences(
                left.skip(1),
                right.skip(1),
                path,
                pos,
            ),
            None => level_differences(
                left[0].significant_children(),
                right[0].significant_children(),
                path_below(left[0], path, pos),
                0,
            ) + level_differences(left.skip(1), right.skip(1), path, pos_after(left[0], pos)),
        }
    }
}

#[via_fn]
proof fn level_differences_decreases(
    left: Seq<Tree>,
    right: Seq<Tree>,
    path: Seq<Seq<char>>,
    pos: nat,
) {
    lemma_lighter(left, right);
}

/// The differences between two trees: those between their significant
/// children, found under `path`.
pub open spec fn tree_differences(left: Tree, right: Tree, path: Seq<Seq<char>>) -> Seq<
    DifferenceView,
> {
    level_differences(left.significant_children(), right.significant_children(), path, 0)
}

/// Every difference that a comparison reports is well formed: of a
/// `NotPresent` exactly one side is there, and of any other both sides were
/// found at the same place.
pub proof fn lemma_well_formed(left: Seq<Tree>, right: Seq<Tree>, path: Seq<Seq<char>>, pos: nat)
    ensures
        forall|i: int|
            0 <= i < level_differences(left, right, path, pos).len() ==> (
            #[trigger] level_differences(left, right, path, pos)[i]).is_well_formed(),
    decreases forest_weight(left) + forest_weight(right),
{
    let all = level_differences(left, right, path, pos);
    lemma_lighter(left, right);
    if left.len() == 0 && right.len() == 0 {
    } else if right.len() == 0 {
        lemma_well_formed(left.skip(1), right, path, pos);
        assert forall|i: int| 0 <= i < all.len() implies (#[trigger] all[i]).is_well_formed() by {
            if i > 0 {
                assert(all[i] == level_differences(left.skip(1), right, path, pos)[i - 1]);
            }
        }
    } else if left.len() == 0 {
        lemma_well_formed(left, right.skip(1), path, pos);
        assert forall|i: int| 0 <= i < all.len() implies (#[trigger] all[i]).is_well_formed() by {
            if i > 0 {
                assert(all[i] == level_differences(left, right.skip(1), path, pos)[i - 1]);
            }
        }
    } else {
        match pair_difference(left[0], right[0], path) {
            Some(difference) => {
                lemma_well_formed(left.skip(1), right.skip(1), path, pos);
                assert forall|i: int| 0 <= i < all.len() implies (
                #[trigger] all[i]).is_well_formed() by {
                    if i > 0 {
                        assert(all[i] == level_differences(
                            left.skip(1),
                            right.skip(1),
                            path,
                            pos,
                        )[i - 1]);
                    }
                }
            },
            None => {
                let inner = path_below(left[0], path, pos);
                let below = level_differences(
                    left[0].significant_children(),
                    right[0].significant_children(),
                    inner,
                    0,
                );
                let rest = level_differences(
                    left.skip(1),
                    right.skip(1),
                    path,
                    pos_after(left[0], pos),
                );
                lemma_well_formed(
                    left[0].significant_children(),
                    right[0].significant_children(),
                    inner,
                    0,
                );
                lemma_well_formed(left.skip(1), right.skip(1), path, pos_after(left[0], pos));
                assert forall|i: int| 0 <= i < all.len() implies (
                #[trigger] all[i]).is_well_formed() by {
                    if i < below.len() {
                        assert(all[i] == below[i]);
                    } else {
                        assert(all[i] == rest[i - below.len()]);
                    }
                }
            },
        }
    }
}

/// The model of a difference that may be absent.
pub open spec fn optional_difference(difference: Option<Difference>) -> Option<DifferenceView> {
    match difference {
        Some(difference) => Some(difference@),
        None => None,
    }
}

/// Writes one segment of a path.
pub fn path_segment(name: &String, pos: usize) -> (out: String)
    ensures
        out@ == segment(name@, pos as nat),
{
    let number = decimal_string(pos);
    let mut out = name.clone();
    out.append("[");
    out.append(number.as_str());
    out.append("]");
    out
}

/// Compares the names and the attributes of two elements that stand at the
/// same position.
pub fn check_elements(elem1: &Element, elem2: &Element, path: &Vec<String>) -> (out: Option<
    Difference,
>)
    ensures
        optional_difference(out) == element_difference(elem1@, elem2@, string_views(path@)),
{
    if elem1.namespace != elem2.namespace || elem1.name != elem2.name {
        Some(
            Difference::NodeName {
                elem: ElementInformation::new(elem1, path),
                opposite_elem: ElementInformation::new(elem2, path),
            },
        )
    } else {
        let attributes1 = map_conversion(&elem1.attributes);
        let attributes2 = map_conversion(&elem2.attributes);
        if !attributes1.same_mapping(&attributes2) {
            Some(
                Difference::NodeAttributes {
                    elem: ElementInformation::new(elem1, path),
                    elem_attributes: attributes1,
                    opposite_elem: ElementInformation::new(elem2, path),
                    opposite_elem_attributes: attributes2,
                },
            )
        } else {
            None
        }
    }
}

/// Reports that two nodes at the same position are of different kinds.
fn kinds_differ(left: &Node, right: &Node, path: &Vec<String>) -> (out: Difference)
    ensures
        out@ == kind_difference(left@, right@, string_views(path@)),
{
    Difference::NodeType {
        elem: ElementInformation::new(left, path),
        opposite_elem: ElementInformation::new(right, path),
    }
}

/// Compares two nodes that stand at the same position, without their
/// children.
pub fn compare_pair(left: &Node, right: &Node, path: &Vec<String>) -> (out: Option<Difference>)
    ensures
        optional_difference(out) == pair_difference(left@, right@, string_views(path@)),
{
    match (left, right) {
        (Node::Element(e1), Node::Element(e2)) => check_elements(e1, e2, path),
        (Node::Element(_), _) => Some(kinds_differ(left, right, path)),
        (_, Node::Element(_)) => Some(kinds_differ(left, right, path)),
        (Node::Text { content: t1, .. }, Node::Text { content: t2, .. }) => {
            if *t1 == *t2 {
                None
            } else {
                Some(
                    Difference::NodeText {
                        elem: ElementInformation::from_path(path),
                        elem_text: t1.clone(),
                        opposite_elem: ElementInformation::from_path(path),
                        opposite_elem_text: t2.clone(),
                    },
                )
            }
        },
        (Node::Text { .. }, _) => Some(kinds_differ(left, right, path)),
        (_, Node::Text { .. }) => Some(kinds_differ(left, right, path)),
        _ => None,
    }
}

/// The smaller of an index and a length, as a position to skip to.
spec fn reached(i: int, len: nat) -> int {
    if i < len {
        i
    } else {
        len as int
    }
}

/// Compares the children of `element1` with those of `element2`, position
/// by position, leaving out the comments and the blank texts of each side.
/// `path` leads to the two nodes; it is extended while the children of a
/// matched element are compared, and is the same again at the end.
pub fn go_through_tree(element1: &Node, element2: &Node, path: &mut Vec<String>) -> (differences:
    Vec<Difference>)
    ensures
        final(path)@ == old(path)@,
        difference_views(differences@) == tree_differences(
            element1@,
            element2@,
            string_views(old(path)@),
        ),
        forall|k: int| 0 <= k < differences.len() ==> (#[trigger] differences[k])@.is_well_formed(),
    decreases element1,
{
    let mut differences: Vec<Difference> = Vec::new();
    let mut pos: usize = 0;
    let children1 = element1.significant_children();
    let children2 = element2.significant_children();
    let ghost left = referent_views(children1@);
    let ghost right = referent_views(children2@);
    let ghost path0 = path@;
    let ghost above = string_views(path@);
    let mut i: usize = 0;
    proof {
        assert(left.skip(0) =~= left);
        assert(right.skip(0) =~= right);
        assert(difference_views(differences@) =~= Seq::<DifferenceView>::empty());
        assert(Seq::<DifferenceView>::empty() + level_differences(left, right, above, 0)
            =~= level_differences(left, right, above, 0));
    }
    while i < children1.len() || i < children2.len()
        invariant
            path@ == path0,
            above == string_views(path0),
            left == referent_views(children1@),
            right == referent_views(children2@),
            pos <= i,
            i <= children1.len() || i <= children2.len(),
            forall|k: int|
                0 <= k < children1@.len() ==> decreases_to!(element1 => #[trigger] children1@[k]),
            difference_views(differences@) + level_differences(
                left.skip(reached(i as int, left.len())),
                right.skip(reached(i as int, right.len())),
                above,
                pos as nat,
            ) == level_differences(left, right, above, 0),
        decreases
                (children1.len() - reached(i as int, left.len())) + (children2.len() - reached(
                    i as int,
                    right.len(),
                )),
    {
        let ghost done = difference_views(differences@);
        let ghost rest1 = left.skip(reached(i as int, left.len()));
        let ghost rest2 = right.skip(reached(i as int, right.len()));
        let ghost next1 = left.skip(reached(i + 1, left.len()));
        let ghost next2 = right.skip(reached(i + 1, right.len()));
        if i < children1.len() && i < children2.len() {
            let child1 = children1[i];
            let child2 = children2[i];
            proof {
                assert(rest1[0] == child1@);
                assert(rest2[0] == child2@);
                assert(rest1.skip(1) =~= next1);
                assert(rest2.skip(1) =~= next2);
            }
            match compare_pair(child1, child2, path) {
                Some(difference) => {
                    proof {
                        let tail = level_differences(next1, next2, above, pos as nat);
                        assert(difference_views(differences@.push(difference)) =~= done.push(
                            difference@,
                        ));
                        assert(done.push(difference@) + tail =~= done + (seq![difference@] + tail));
                    }
                    differences.push(difference);
                },
                None => {
                    let ghost before = pos as nat;
                    let need_pop = match child1 {
                        Node::Element(element) => {
                            let part = path_segment(&element.name, pos);
                            proof {
                                assert(string_views(path@.push(part)) =~= above.push(part@));
                            }
                            path.push(part);
                            pos += 1;
                            true
                        },
                        _ => false,
                    };
                    assert(string_views(path@) == path_below(child1@, above, before));
                    assert(pos as nat == pos_after(child1@, before));
                    let mut below = go_through_tree(child1, child2, path);
                    proof {
                        let inner = difference_views(below@);
                        let tail = level_differences(next1, next2, above, pos as nat);
                        assert(difference_views(differences@ + below@) =~= done + inner);
                        assert((done + inner) + tail =~= done + (inner + tail));
                    }
                    differences.append(&mut below);
                    if need_pop {
                        path.pop();
                        assert(path@ =~= path0);
                    }
                },
            }
        } else if i < children1.len() {
            let child1 = children1[i];
            let difference = Difference::NotPresent {
                elem: Some(ElementInformation::new(child1, path)),
                opposite_elem: None,
            };
            proof {
                assert(rest1[0] == child1@);
                assert(rest1.skip(1) =~= next1);
                assert(rest2 =~= next2);
                let tail = level_differences(next1, next2, above, pos as nat);
                assert(difference@ == missing(child1@, above));
                assert(difference_views(differences@.push(difference)) =~= done.push(difference@));
                assert(done.push(difference@) + tail =~= done + (seq![difference@] + tail));
            }
            differences.push(difference);
        } else {
            let child2 = children2[i];
            let difference = Difference::NotPresent {
                elem: None,
                opposite_elem: Some(ElementInformation::new(child2, path)),
            };
            proof {
                assert(rest2[0] == child2@);
                assert(rest2.skip(1) =~= next2);
                assert(rest1 =~= next1);
                let tail = level_differences(next1, next2, above, pos as nat);
                assert(difference@ == unexpected(child2@, above));
                assert(difference_views(differences@.push(difference)) =~= done.push(difference@));
                assert(done.push(difference@) + tail =~= done + (seq![difference@] + tail));
            }
            differences.push(difference);
        }
        i += 1;
    }
    proof {
        assert(left.skip(left.len() as int) =~= Seq::<Tree>::empty());
        assert(right.skip(right.len() as int) =~= Seq::<Tree>::empty());
        assert(difference_views(differences@) + Seq::<DifferenceView>::empty()
            =~= difference_views(differences@));
        lemma_well_formed(left, right, above, 0);
        assert forall|k: int| 0 <= k < differences.len() implies (
        #[trigger] differences[k])@.is_well_formed() by {
            assert(difference_views(differences@)[k] == differences[k]@);
        }
    }
    differences
}

} // verus!
