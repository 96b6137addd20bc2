//! What holds of every comparison.

use crate::attributes::attribute_map;
use crate::compare::{
    forest_weight, lemma_lighter, lemma_well_formed, level_differences, missing,
    pair_difference, path_below, pos_after, segment, tree_differences, unexpected,
};
use crate::difference::{place, DifferenceView};
use crate::node::{significant, ElementTree, Tree};
use vstd::prelude::*;

verus! {

/// A node compared with itself shows no difference.
pub proof fn lemma_pair_identity(tree: Tree, path: Seq<Seq<char>>)
    ensures
        pair_difference(tree, tree, path) is None,
{
}

/// Siblings compared with themselves show no difference.
pub proof fn lemma_level_identity(trees: Seq<Tree>, path: Seq<Seq<char>>, pos: nat)
    ensures
        level_differences(trees, trees, path, pos) == Seq::<DifferenceView>::empty(),
    decreases forest_weight(trees),
{
    if trees.len() > 0 {
        lemma_lighter(trees, trees);
        lemma_pair_identity(trees[0], path);
        lemma_level_identity(trees[0].significant_children(), path_below(trees[0], path, pos), 0);
        lemma_level_identity(trees.skip(1), path, pos_after(trees[0], pos));
        assert(Seq::<DifferenceView>::empty() + Seq::<DifferenceView>::empty()
            =~= Seq::<DifferenceView>::empty());
    }
}

/// Identity: a document compared with itself shows no difference.
pub proof fn lemma_identity(document: Tree, path: Seq<Seq<char>>)
    ensures
        tree_differences(document, document, path) == Seq::<DifferenceView>::empty(),
{
    lemma_level_identity(document.significant_children(), path, 0);
}

/// What is reported of a pair, seen from the other side.
pub open spec fn mirrored_option(difference: Option<DifferenceView>) -> Option<DifferenceView> {
    match difference {
        Some(difference) => Some(difference.mirrored()),
        None => None,
    }
}

/// A sequence of differences, each seen from the other side.
pub open spec fn mirrored_all(differences: Seq<DifferenceView>) -> Seq<DifferenceView> {
    differences.map_values(|difference: DifferenceView| difference.mirrored())
}

/// Exchanging the two nodes of a pair exchanges the two sides of what is
/// reported of them; a pair that matches one way matches the other way, and
/// then both nodes extend the path alike.
pub proof fn lemma_pair_symmetry(left: Tree, right: Tree, path: Seq<Seq<char>>, pos: nat)
    ensures
        pair_difference(right, left, path) == mirrored_option(pair_difference(left, right, path)),
        pair_difference(left, right, path) is None ==> path_below(right, path, pos) == path_below(
            left,
            path,
            pos,
        ) && pos_after(right, pos) == pos_after(left, pos),
{
}

/// Exchanging two sequences of siblings exchanges the two sides of every
/// difference between them, and changes nothing else.
pub proof fn lemma_level_symmetry(
    left: Seq<Tree>,
    right: Seq<Tree>,
    path: Seq<Seq<char>>,
    pos: nat,
)
    ensures
        level_differences(right, left, path, pos) == mirrored_all(
            level_differences(left, right, path, pos),
        ),
    decreases forest_weight(left) + forest_weight(right),
{
    let turn = |difference: DifferenceView| difference.mirrored();
    lemma_lighter(left, right);
    if left.len() == 0 && right.len() == 0 {
        assert(mirrored_all(Seq::<DifferenceView>::empty()) =~= Seq::<DifferenceView>::empty());
    } else if right.len() == 0 {
        let rest = level_differences(left.skip(1), right, path, pos);
        lemma_level_symmetry(left.skip(1), right, path, pos);
        assert(mirrored_all(seq![missing(left[0], path)] + rest) =~= seq![
            unexpected(left[0], path),
        ] + mirrored_all(rest));
    } else if left.len() == 0 {
        let rest = level_differences(left, right.skip(1), path, pos);
        lemma_level_symmetry(left, right.skip(1), path, pos);
        assert(mirrored_all(seq![unexpected(right[0], path)] + rest) =~= seq![
            missing(right[0], path),
        ] + mirrored_all(rest));
    } else {
        lemma_pair_symmetry(left[0], right[0], path, pos);
        match pair_difference(left[0], right[0], path) {
            Some(difference) => {
                let rest = level_differences(left.skip(1), right.skip(1), path, pos);
                lemma_level_symmetry(left.skip(1), right.skip(1), path, pos);
                assert(mirrored_all(seq![difference] + rest) =~= seq![difference.mirrored()]
                    + mirrored_all(rest));
            },
            None => {
                let below = level_differences(
                    left[0].significant_children(),
                    right[0].significant_children(),
                    path_below(left[0], path, pos),
                    0,
                );
                let rest = level_differences(
                    left.skip(1),
                    right.skip(1),
                    path,
                    pos_after(left[0], pos),
                );
                lemma_level_symmetry(
                    left[0].significant_children(),
                    right[0].significant_children(),
                    path_below(left[0], path, pos),
                    0,
                );
                lemma_level_symmetry(left.skip(1), right.skip(1), path, pos_after(left[0], pos));
                assert(mirrored_all(below + rest) =~= mirrored_all(below) + mirrored_all(rest));
            },
        }
    }
}

/// Symmetry: comparing two documents the other way round reports the same
/// differences, in the same order and at the same places, with the two
/// sides of each exchanged.
pub proof fn lemma_symmetry(left: Tree, right: Tree, path: Seq<Seq<char>>)
    ensures
        tree_differences(right, left, path) == mirrored_all(tree_differences(left, right, path)),
        tree_differences(right, left, path).len() == tree_differences(left, right, path).len(),
        forall|i: int|
            0 <= i < tree_differences(left, right, path).len() ==> (
            #[trigger] tree_differences(right, left, path)[i]) == tree_differences(
                left,
                right,
                path,
            )[i].mirrored(),
        forall|i: int|
            0 <= i < tree_differences(left, right, path).len() ==> (
            #[trigger] tree_differences(right, left, path)[i]).path() == tree_differences(
                left,
                right,
                path,
            )[i].path(),
{
    lemma_level_symmetry(left.significant_children(), right.significant_children(), path, 0);
    lemma_well_formed(left.significant_children(), right.significant_children(), path, 0);
}

/// Short circuit: a pair that differs is reported once and not entered.
/// Whatever stands below the two nodes, the siblings after them are
/// compared as before, and the count of matched elements stays.
pub proof fn lemma_short_circuit(
    left: Seq<Tree>,
    right: Seq<Tree>,
    path: Seq<Seq<char>>,
    pos: nat,
)
    requires
        left.len() > 0,
        right.len() > 0,
        pair_difference(left[0], right[0], path) is Some,
    ensures
        level_differences(left, right, path, pos) == seq![
            pair_difference(left[0], right[0], path)->0,
        ] + level_differences(left.skip(1), right.skip(1), path, pos),
{
}

/// Short circuit for names: two elements whose tag names differ, in the
/// namespace or in the local name, give one difference of name, whatever
/// their attributes and whatever stands below them.
pub proof fn lemma_names_short_circuit(
    first: ElementTree,
    second: ElementTree,
    left: Seq<Tree>,
    right: Seq<Tree>,
    path: Seq<Seq<char>>,
    pos: nat,
)
    requires
        first.namespace != second.namespace || first.name != second.name,
    ensures
        level_differences(
            seq![Tree::Element(first)] + left,
            seq![Tree::Element(second)] + right,
            path,
            pos,
        ).len() == 1 + level_differences(left, right, path, pos).len(),
        level_differences(
            seq![Tree::Element(first)] + left,
            seq![Tree::Element(second)] + right,
            path,
            pos,
        )[0] is NodeName,
        level_differences(
            seq![Tree::Element(first)] + left,
            seq![Tree::Element(second)] + right,
            path,
            pos,
        ).skip(1) == level_differences(left, right, path, pos),
{
    let all_left = seq![Tree::Element(first)] + left;
    let all_right = seq![Tree::Element(second)] + right;
    assert(all_left.skip(1) =~= left);
    assert(all_right.skip(1) =~= right);
    lemma_short_circuit(all_left, all_right, path, pos);
    let head = pair_difference(all_left[0], all_right[0], path)->0;
    let rest = level_differences(left, right, path, pos);
    assert((seq![head] + rest).skip(1) =~= rest);
}

/// A matched pair is entered: the differences between the significant
/// children of the two nodes come first, found under the path that the pair
/// extends, and the siblings follow.
pub proof fn lemma_descent(left: Seq<Tree>, right: Seq<Tree>, path: Seq<Seq<char>>, pos: nat)
    requires
        left.len() > 0,
        right.len() > 0,
        pair_difference(left[0], right[0], path) is None,
    ensures
        level_differences(left, right, path, pos) == tree_differences(
            left[0],
            right[0],
            path_below(left[0], path, pos),
        ) + level_differences(left.skip(1), right.skip(1), path, pos_after(left[0], pos)),
{
}

/// Inserting a node that is not significant among siblings leaves the
/// significant ones as they were.
pub proof fn lemma_insert_insignificant(siblings: Seq<Tree>, at: int, node: Tree)
    requires
        0 <= at <= siblings.len(),
        !node.is_significant(),
    ensures
        significant(siblings.insert(at, node)) == significant(siblings),
{
    let keep = |tree: Tree| tree.is_significant();
    let before = siblings.take(at);
    let after = siblings.skip(at);
    assert(siblings.insert(at, node) =~= before + (seq![node] + after));
    assert(siblings =~= before + after);
    after.lemma_filter_prepend(node, keep);
    Seq::filter_distributes_over_add(before, seq![node] + after, keep);
    Seq::filter_distributes_over_add(before, after, keep);
    assert(Seq::<Tree>::empty() + after.filter(keep) =~= after.filter(keep));
}

/// Insignificance: a comment or a blank text, inserted anywhere among the
/// children of one of two nodes, changes nothing of what their comparison
/// reports, whichever side it is inserted on.
pub proof fn lemma_insignificance(
    left: Tree,
    right: Tree,
    changed: Tree,
    at: int,
    node: Tree,
    path: Seq<Seq<char>>,
)
    requires
        0 <= at <= left.children().len(),
        !node.is_significant(),
        changed.children() == left.children().insert(at, node),
    ensures
        tree_differences(changed, right, path) == tree_differences(left, right, path),
        tree_differences(right, changed, path) == tree_differences(right, left, path),
        tree_differences(changed, left, path) == Seq::<DifferenceView>::empty(),
{
    lemma_insert_insignificant(left.children(), at, node);
    lemma_identity(left, path);
}

/// The reports of nodes that have no counterpart on the other side.
pub open spec fn all_missing(nodes: Seq<Tree>, path: Seq<Seq<char>>) -> Seq<DifferenceView> {
    nodes.map_values(|node: Tree| missing(node, path))
}

/// The reports of nodes of the other side that have no counterpart here.
pub open spec fn all_unexpected(nodes: Seq<Tree>, path: Seq<Seq<char>>) -> Seq<DifferenceView> {
    nodes.map_values(|node: Tree| unexpected(node, path))
}

/// Not present: where the left side has more siblings than the right, the
/// report is that of the siblings that have a counterpart, followed by one
/// `NotPresent` for each of the others, in order, each with the left side
/// alone.
pub proof fn lemma_not_present_left(
    left: Seq<Tree>,
    right: Seq<Tree>,
    path: Seq<Seq<char>>,
    pos: nat,
)
    requires
        right.len() <= left.len(),
    ensures
        level_differences(left, right, path, pos) == level_differences(
            left.take(right.len() as int),
            right,
            path,
            pos,
        ) + all_missing(left.skip(right.len() as int), path),
        all_missing(left.skip(right.len() as int), path).len() == left.len() - right.len(),
    decreases left.len(),
{
    let paired = left.take(right.len() as int);
    let extra = left.skip(right.len() as int);
    if left.len() == 0 {
        assert(paired =~= left);
        assert(all_missing(extra, path) =~= Seq::<DifferenceView>::empty());
        assert(level_differences(left, right, path, pos) + Seq::<DifferenceView>::empty()
            =~= level_differences(left, right, path, pos));
    } else if right.len() == 0 {
        lemma_not_present_left(left.skip(1), right, path, pos);
        assert(left.skip(1).take(0) =~= paired);
        assert(left.skip(1).skip(0) =~= left.skip(1));
        assert(extra =~= left);
        assert(level_differences(paired, right, path, pos) =~= Seq::<DifferenceView>::empty());
        assert(all_missing(left, path) =~= seq![missing(left[0], path)] + all_missing(
            left.skip(1),
            path,
        ));
        assert(Seq::<DifferenceView>::empty() + all_missing(left.skip(1), path) =~= all_missing(
            left.skip(1),
            path,
        ));
        assert(Seq::<DifferenceView>::empty() + all_missing(left, path) =~= all_missing(
            left,
            path,
        ));
    } else {
        let after = match pair_difference(left[0], right[0], path) {
            Some(_) => pos,
            None => pos_after(left[0], pos),
        };
        lemma_not_present_left(left.skip(1), right.skip(1), path, after);
        assert(paired[0] == left[0]);
        assert(paired.skip(1) =~= left.skip(1).take(right.skip(1).len() as int));
        assert(left.skip(1).skip(right.skip(1).len() as int) =~= extra);
        let tail = all_missing(extra, path);
        let rest = level_differences(paired.skip(1), right.skip(1), path, after);
        match pair_difference(left[0], right[0], path) {
            Some(difference) => {
                assert(seq![difference] + (rest + tail) =~= (seq![difference] + rest) + tail);
            },
            None => {
                let below = level_differences(
                    left[0].significant_children(),
                    right[0].significant_children(),
                    path_below(left[0], path, pos),
                    0,
                );
                assert(below + (rest + tail) =~= (below + rest) + tail);
            },
        }
    }
}

/// Not present: where the right side has more siblings than the left, the
/// report is that of the siblings that have a counterpart, followed by one
/// `NotPresent` for each of the others, in order, each with the right side
/// alone.
pub proof fn lemma_not_present_right(
    left: Seq<Tree>,
    right: Seq<Tree>,
    path: Seq<Seq<char>>,
    pos: nat,
)
    requires
        left.len() <= right.len(),
    ensures
        level_differences(left, right, path, pos) == level_differences(
            left,
            right.take(left.len() as int),
            path,
            pos,
        ) + all_unexpected(right.skip(left.len() as int), path),
        all_unexpected(right.skip(left.len() as int), path).len() == right.len() - left.len(),
{
    let paired = right.take(left.len() as int);
    let extra = right.skip(left.len() as int);
    lemma_not_present_left(right, left, path, pos);
    lemma_level_symmetry(right, left, path, pos);
    lemma_level_symmetry(paired, left, path, pos);
    let one = level_differences(paired, left, path, pos);
    assert(mirrored_all(one + all_missing(extra, path)) =~= mirrored_all(one) + all_unexpected(
        extra,
        path,
    ));
}

/// The place of a path with one more segment: the segment alone where the
/// path was empty, else the place of the path, a slash and the segment.
pub proof fn lemma_place_push(path: Seq<Seq<char>>, part: Seq<char>)
    ensures
        place(path.push(part)) == if path.len() == 0 {
            part
        } else {
            place(path) + "/"@ + part
        },
{
    assert(path.push(part).drop_last() =~= path);
}

/// Path construction: the children of a matched element are compared under
/// the place of the element's parent, followed, after a slash where that
/// place has a segment, by the tag name and, in square brackets, the count
/// of matched elements before it.
pub proof fn lemma_path_below_element(element: ElementTree, path: Seq<Seq<char>>, pos: nat)
    ensures
        place(path_below(Tree::Element(element), path, pos)) == if path.len() == 0 {
            segment(element.name, pos)
        } else {
            place(path) + "/"@ + segment(element.name, pos)
        },
        path_below(Tree::Element(element), path, pos).len() == path.len() + 1,
{
    lemma_place_push(path, segment(element.name, pos));
}

/// Path construction: every difference between siblings is found at the
/// place of their parent or at a place that continues it.
pub proof fn lemma_places(left: Seq<Tree>, right: Seq<Tree>, path: Seq<Seq<char>>, pos: nat)
    ensures
        forall|i: int|
            0 <= i < level_differences(left, right, path, pos).len() ==> place(path).is_prefix_of(
                (#[trigger] level_differences(left, right, path, pos)[i]).path(),
            ),
    decreases forest_weight(left) + forest_weight(right),
{
    let all = level_differences(left, right, path, pos);
    lemma_lighter(left, right);
    if left.len() == 0 && right.len() == 0 {
    } else if right.len() == 0 {
        lemma_places(left.skip(1), right, path, pos);
        assert forall|i: int| 0 <= i < all.len() implies place(path).is_prefix_of(
            (#[trigger] all[i]).path(),
        ) by {
            if i > 0 {
                assert(all[i] == level_differences(left.skip(1), right, path, pos)[i - 1]);
            }
        }
    } else if left.len() == 0 {
        lemma_places(left, right.skip(1), path, pos);
        assert forall|i: int| 0 <= i < all.len() implies place(path).is_prefix_of(
            (#[trigger] all[i]).path(),
        ) by {
            if i > 0 {
                assert(all[i] == level_differences(left, right.skip(1), path, pos)[i - 1]);
            }
        }
    } else {
        match pair_difference(left[0], right[0], path) {
            Some(difference) => {
                lemma_places(left.skip(1), right.skip(1), path, pos);
                assert forall|i: int| 0 <= i < all.len() implies place(path).is_prefix_of(
                    (#[trigger] all[i]).path(),
                ) by {
                    if i > 0 {
                        assert(all[i] == level_differences(
                            left.skip(1),
                            right.skip(1),
                            path,
                            pos,
                        )[i - 1]);
                    }
                }
            },
            None => {
                let inner = path_below(left[0], path, pos);
                let below = level_differences(
                    left[0].significant_children(),
                    right[0].significant_children(),
                    inner,
                    0,
                );
                let rest = level_differences(
                    left.skip(1),
                    right.skip(1),
                    path,
                    pos_after(left[0], pos),
                );
                lemma_places(
                    left[0].significant_children(),
                    right[0].significant_children(),
                    inner,
                    0,
                );
                lemma_places(left.skip(1), right.skip(1), path, pos_after(left[0], pos));
                if left[0] is Element {
                    lemma_place_push(path, segment(left[0].name(), pos));
                }
                assert(place(path).is_prefix_of(place(inner)));
                assert forall|i: int| 0 <= i < all.len() implies place(path).is_prefix_of(
                    (#[trigger] all[i]).path(),
                ) by {
                    if i < below.len() {
                        assert(all[i] == below[i]);
                        assert(place(inner).is_prefix_of(below[i].path()));
                    } else {
                        assert(all[i] == rest[i - below.len()]);
                    }
                }
            },
        }
    }
}

/// What is reported of a pair is found at the place of the pair's parent.
pub proof fn lemma_pair_place(left: Tree, right: Tree, path: Seq<Seq<char>>)
    ensures
        pair_difference(left, right, path) is Some ==> pair_difference(left, right, path)->0.path()
            == place(path),
        missing(left, path).path() == place(path),
        unexpected(right, path).path() == place(path),
{
}

/// Whether two nodes at the same position match, before their children are
/// looked at: two elements of one namespace and name with the same
/// attributes, two texts of the same content, or two nodes that are neither
/// element nor text.
pub open spec fn pair_matches(left: Tree, right: Tree) -> bool {
    match (left, right) {
        (Tree::Element(l), Tree::Element(r)) => l.namespace == r.namespace && l.name == r.name
            && attribute_map(l.attributes) == attribute_map(r.attributes),
        (Tree::Element(_), _) => false,
        (_, Tree::Element(_)) => false,
        (Tree::Text { content: l, .. }, Tree::Text { content: r, .. }) => l == r,
        (Tree::Text { .. }, _) => false,
        (_, Tree::Text { .. }) => false,
        _ => true,
    }
}

/// Whether two sequences of siblings are alike: as many on each side, each
/// pair matches, and the significant children of each pair are alike.
pub open spec fn forests_alike(left: Seq<Tree>, right: Seq<Tree>) -> bool
    decreases forest_weight(left) + forest_weight(right),
    via forests_alike_decreases
{
    if left.len() == 0 && right.len() == 0 {
        true
    } else if left.len() == 0 || right.len() == 0 {
        false
    } else {
        &&& pair_matches(left[0], right[0])
        &&& forests_alike(left[0].significant_children(), right[0].significant_children())
        &&& forests_alike(left.skip(1), right.skip(1))
    }
}

#[via_fn]
proof fn forests_alike_decreases(left: Seq<Tree>, right: Seq<Tree>) {
    lemma_lighter(left, right);
}

/// Whether two trees are alike but for comments and blank texts: their
/// significant children are.
pub open spec fn trees_alike(left: Tree, right: Tree) -> bool {
    forests_alike(left.significant_children(), right.significant_children())
}

/// Nothing is reported of a pair exactly if the pair matches.
pub proof fn lemma_pair_matches(left: Tree, right: Tree, path: Seq<Seq<char>>)
    ensures
        pair_difference(left, right, path) is None <==> pair_matches(left, right),
{
}

/// A comparison of siblings reports nothing exactly if they are alike.
pub proof fn lemma_no_difference_level(
    left: Seq<Tree>,
    right: Seq<Tree>,
    path: Seq<Seq<char>>,
    pos: nat,
)
    ensures
        level_differences(left, right, path, pos).len() == 0 <==> forests_alike(left, right),
    decreases forest_weight(left) + forest_weight(right),
{
    lemma_lighter(left, right);
    if left.len() > 0 && right.len() > 0 {
        lemma_pair_matches(left[0], right[0], path);
        if pair_matches(left[0], right[0]) {
            lemma_no_difference_level(
                left[0].significant_children(),
                right[0].significant_children(),
                path_below(left[0], path, pos),
                0,
            );
            lemma_no_difference_level(left.skip(1), right.skip(1), path, pos_after(left[0], pos));
        }
    }
}

/// A comparison of two trees reports nothing exactly if the trees are alike
/// but for comments and blank texts.
pub proof fn lemma_no_difference(left: Tree, right: Tree, path: Seq<Seq<char>>)
    ensures
        tree_differences(left, right, path).len() == 0 <==> trees_alike(left, right),
{
    lemma_no_difference_level(left.significant_children(), right.significant_children(), path, 0);
}

/// Siblings are alike to themselves.
pub proof fn lemma_alike_reflexive(trees: Seq<Tree>)
    ensures
        forests_alike(trees, trees),
{
    lemma_level_identity(trees, seq![Seq::<char>::empty()], 0);
    lemma_no_difference_level(trees, trees, seq![Seq::<char>::empty()], 0);
}

/// Insignificance at any depth: a comment or a blank text, inserted among
/// the children of a node, leaves the node alike to what it was.
pub proof fn lemma_alike_after_insert(unchanged: Tree, changed: Tree, at: int, node: Tree)
    requires
        0 <= at <= unchanged.children().len(),
        !node.is_significant(),
        changed.children() == unchanged.children().insert(at, node),
    ensures
        trees_alike(changed, unchanged),
        trees_alike(unchanged, changed),
{
    lemma_insert_insignificant(unchanged.children(), at, node);
    lemma_alike_reflexive(unchanged.significant_children());
}

/// Insignificance at any depth: where one of several siblings is replaced
/// by a node that matches it and is alike to it, the siblings stay alike to
/// what they were. So a change that leaves a node alike leaves every node
/// above it alike, up to the document.
pub proof fn lemma_alike_in_context(
    before: Seq<Tree>,
    after: Seq<Tree>,
    unchanged: Tree,
    changed: Tree,
)
    requires
        pair_matches(changed, unchanged),
        trees_alike(changed, unchanged),
    ensures
        forests_alike(before + seq![changed] + after, before + seq![unchanged] + after),
    decreases before.len(),
{
    let left = before + seq![changed] + after;
    let right = before + seq![unchanged] + after;
    if before.len() == 0 {
        assert(left[0] == changed);
        assert(right[0] == unchanged);
        assert(left.skip(1) =~= after);
        assert(right.skip(1) =~= after);
        lemma_alike_reflexive(after);
    } else {
        assert(left[0] == before[0]);
        assert(right[0] == before[0]);
        assert(left.skip(1) =~= before.skip(1) + seq![changed] + after);
        assert(right.skip(1) =~= before.skip(1) + seq![unchanged] + after);
        lemma_alike_in_context(before.skip(1), after, unchanged, changed);
        lemma_alike_reflexive(before[0].significant_children());
        lemma_pair_identity(before[0], seq![Seq::<char>::empty()]);
        lemma_pair_matches(before[0], before[0], seq![Seq::<char>::empty()]);
    }
}

/// The number of matched elements among the first `n` pairs of two
/// sequences of siblings: the pairs that match and are elements.
pub open spec fn matched_elements(left: Seq<Tree>, right: Seq<Tree>, n: nat) -> nat
    decreases n,
{
    if n == 0 || left.len() == 0 || right.len() == 0 {
        0
    } else {
        pos_after(left[0], 0) * (if pair_matches(left[0], right[0]) {
            1nat
        } else {
            0nat
        }) + matched_elements(left.skip(1), right.skip(1), (n - 1) as nat)
    }
}

/// Path construction: the index that a sibling gets counts the matched
/// elements before it and nothing else. The comparison of two sequences of
/// siblings is that of their first `n` pairs, followed by that of the
/// others, which starts from the count that the first `n` pairs have
/// reached.
pub proof fn lemma_level_split(
    left: Seq<Tree>,
    right: Seq<Tree>,
    path: Seq<Seq<char>>,
    pos: nat,
    n: nat,
)
    requires
        n <= left.len(),
        n <= right.len(),
    ensures
        level_differences(left, right, path, pos) == level_differences(
            left.take(n as int),
            right.take(n as int),
            path,
            pos,
        ) + level_differences(
            left.skip(n as int),
            right.skip(n as int),
            path,
            pos + matched_elements(left, right, n),
        ),
    decreases n,
{
    let all = level_differences(left, right, path, pos);
    if n == 0 {
        assert(left.take(0) =~= Seq::<Tree>::empty());
        assert(right.take(0) =~= Seq::<Tree>::empty());
        assert(left.skip(0) =~= left);
        assert(right.skip(0) =~= right);
        assert(Seq::<DifferenceView>::empty() + all =~= all);
    } else {
        let first = left.take(n as int);
        let second = right.take(n as int);
        lemma_pair_matches(left[0], right[0], path);
        let after = if pair_matches(left[0], right[0]) {
            pos_after(left[0], pos)
        } else {
            pos
        };
        lemma_level_split(left.skip(1), right.skip(1), path, after, (n - 1) as nat);
        assert(first[0] == left[0]);
        assert(second[0] == right[0]);
        assert(first.skip(1) =~= left.skip(1).take(n - 1));
        assert(second.skip(1) =~= right.skip(1).take(n - 1));
        assert(left.skip(1).skip(n - 1) =~= left.skip(n as int));
        assert(right.skip(1).skip(n - 1) =~= right.skip(n as int));
        assert(after + matched_elements(left.skip(1), right.skip(1), (n - 1) as nat) == pos
            + matched_elements(left, right, n));
        let head = level_differences(first.skip(1), second.skip(1), path, after);
        let tail = level_differences(
            left.skip(n as int),
            right.skip(n as int),
            path,
            pos + matched_elements(left, right, n),
        );
        match pair_difference(left[0], right[0], path) {
            Some(difference) => {
                assert(seq![difference] + (head + tail) =~= (seq![difference] + head) + tail);
            },
            None => {
                let below = level_differences(
                    left[0].significant_children(),
                    right[0].significant_children(),
                    path_below(left[0], path, pos),
                    0,
                );
                assert(below + (head + tail) =~= (below + head) + tail);
            },
        }
    }
}

/// Path construction: a matched pair at any position is entered under the
/// path that it extends with the count of matched elements before it. What
/// is found between its children stands between what is found before the
/// pair and what is found after it.
pub proof fn lemma_descent_at(
    left: Seq<Tree>,
    right: Seq<Tree>,
    path: Seq<Seq<char>>,
    pos: nat,
    n: nat,
)
    requires
        n < left.len(),
        n < right.len(),
        pair_matches(left[n as int], right[n as int]),
    ensures
        level_differences(left, right, path, pos) == level_differences(
            left.take(n as int),
            right.take(n as int),
            path,
            pos,
        ) + tree_differences(
            left[n as int],
            right[n as int],
            path_below(left[n as int], path, pos + matched_elements(left, right, n)),
        ) + level_differences(
            left.skip((n + 1) as int),
            right.skip((n + 1) as int),
            path,
            pos_after(left[n as int], pos + matched_elements(left, right, n)),
        ),
{
    let reached = pos + matched_elements(left, right, n);
    let rest_left = left.skip(n as int);
    let rest_right = right.skip(n as int);
    lemma_level_split(left, right, path, pos, n);
    assert(rest_left[0] == left[n as int]);
    assert(rest_right[0] == right[n as int]);
    assert(rest_left.skip(1) =~= left.skip((n + 1) as int));
    assert(rest_right.skip(1) =~= right.skip((n + 1) as int));
    lemma_pair_matches(left[n as int], right[n as int], path);
    lemma_descent(rest_left, rest_right, path, reached);
    let before = level_differences(left.take(n as int), right.take(n as int), path, pos);
    let below = tree_differences(
        left[n as int],
        right[n as int],
        path_below(left[n as int], path, reached),
    );
    let after = level_differences(
        left.skip((n + 1) as int),
        right.skip((n + 1) as int),
        path,
        pos_after(left[n as int], reached),
    );
    assert(before + (below + after) =~= before + below + after);
}

/// Where the siblings before a matched pair and those after it are alike,
/// the comparison reports what is found between the children of the pair
/// and nothing else.
pub proof fn lemma_only_below(
    left: Seq<Tree>,
    right: Seq<Tree>,
    path: Seq<Seq<char>>,
    pos: nat,
    n: nat,
)
    requires
        n < left.len(),
        n < right.len(),
        pair_matches(left[n as int], right[n as int]),
        forests_alike(left.take(n as int), right.take(n as int)),
        forests_alike(left.skip((n + 1) as int), right.skip((n + 1) as int)),
    ensures
        level_differences(left, right, path, pos) == tree_differences(
            left[n as int],
            right[n as int],
            path_below(left[n as int], path, pos + matched_elements(left, right, n)),
        ),
{
    let reached = pos + matched_elements(left, right, n);
    lemma_descent_at(left, right, path, pos, n);
    lemma_no_difference_level(left.take(n as int), right.take(n as int), path, pos);
    lemma_no_difference_level(
        left.skip((n + 1) as int),
        right.skip((n + 1) as int),
        path,
        pos_after(left[n as int], reached),
    );
    let before = level_differences(left.take(n as int), right.take(n as int), path, pos);
    let below = tree_differences(
        left[n as int],
        right[n as int],
        path_below(left[n as int], path, reached),
    );
    let after = level_differences(
        left.skip((n + 1) as int),
        right.skip((n + 1) as int),
        path,
        pos_after(left[n as int], reached),
    );
    assert(before =~= Seq::<DifferenceView>::empty());
    assert(after =~= Seq::<DifferenceView>::empty());
    assert(before + below + after =~= below);
}

/// Whether nothing differs below the pairs of two sequences of siblings:
/// every pair that matches has children that are alike.
pub open spec fn differ_at_this_level_only(left: Seq<Tree>, right: Seq<Tree>) -> bool {
    forall|k: int|
        0 <= k < left.len() && k < right.len() && pair_matches(#[trigger] left[k], right[k])
            ==> trees_alike(left[k], right[k])
}

/// Where nothing differs below the pairs of two sequences of siblings,
/// every difference between them is found at the place of their parent.
pub proof fn lemma_places_at_this_level(
    left: Seq<Tree>,
    right: Seq<Tree>,
    path: Seq<Seq<char>>,
    pos: nat,
)
    requires
        differ_at_this_level_only(left, right),
    ensures
        forall|i: int|
            0 <= i < level_differences(left, right, path, pos).len() ==> (
            #[trigger] level_differences(left, right, path, pos)[i]).path() == place(path),
    decreases left.len() + right.len(),
{
    let all = level_differences(left, right, path, pos);
    if left.len() == 0 && right.len() == 0 {
    } else if right.len() == 0 {
        lemma_places_at_this_level(left.skip(1), right, path, pos);
        lemma_pair_place(left[0], left[0], path);
        assert forall|i: int| 0 <= i < all.len() implies (#[trigger] all[i]).path() == place(
            path,
        ) by {
            if i > 0 {
                assert(all[i] == level_differences(left.skip(1), right, path, pos)[i - 1]);
            }
        }
    } else if left.len() == 0 {
        lemma_places_at_this_level(left, right.skip(1), path, pos);
        lemma_pair_place(right[0], right[0], path);
        assert forall|i: int| 0 <= i < all.len() implies (#[trigger] all[i]).path() == place(
            path,
        ) by {
            if i > 0 {
                assert(all[i] == level_differences(left, right.skip(1), path, pos)[i - 1]);
            }
        }
    } else {
        lemma_pair_matches(left[0], right[0], path);
        lemma_pair_place(left[0], right[0], path);
        assert forall|k: int|
            0 <= k < left.skip(1).len() && k < right.skip(1).len() && pair_matches(
                #[trigger] left.skip(1)[k],
                right.skip(1)[k],
            ) implies trees_alike(left.skip(1)[k], right.skip(1)[k]) by {
            assert(left.skip(1)[k] == left[k + 1]);
            assert(right.skip(1)[k] == right[k + 1]);
        }
        match pair_difference(left[0], right[0], path) {
            Some(difference) => {
                let rest = level_differences(left.skip(1), right.skip(1), path, pos);
                lemma_places_at_this_level(left.skip(1), right.skip(1), path, pos);
                assert forall|i: int| 0 <= i < all.len() implies (#[trigger] all[i]).path()
                    == place(path) by {
                    if i > 0 {
                        assert(all[i] == rest[i - 1]);
                    }
                }
            },
            None => {
                let inner = path_below(left[0], path, pos);
                let below = level_differences(
                    left[0].significant_children(),
                    right[0].significant_children(),
                    inner,
                    0,
                );
                let rest = level_differences(
                    left.skip(1),
                    right.skip(1),
                    path,
                    pos_after(left[0], pos),
                );
                assert(trees_alike(left[0], right[0]));
                lemma_no_difference(left[0], right[0], inner);
                assert(below.len() == 0);
                lemma_places_at_this_level(left.skip(1), right.skip(1), path, pos_after(left[0], pos));
                assert forall|i: int| 0 <= i < all.len() implies (#[trigger] all[i]).path()
                    == place(path) by {
                    assert(all[i] == rest[i]);
                }
            },
        }
    }
}

/// The path that three nested elements add to `path`: of each its tag name
/// with its index, from the outermost to the innermost.
pub open spec fn three_below(
    path: Seq<Seq<char>>,
    first: Seq<char>,
    i: nat,
    second: Seq<char>,
    j: nat,
    third: Seq<char>,
    k: nat,
) -> Seq<Seq<char>> {
    path.push(segment(first, i)).push(segment(second, j)).push(segment(third, k))
}

/// Path construction: where two trees hold three nested pairs of matching
/// elements, every sibling of each of them is alike to its counterpart and
/// what differs stands among the children of the innermost pair, every
/// difference is found at a place of exactly three more segments. They are
/// the tag names of the three elements from the outermost to the
/// innermost, each with the count of matched elements that stand before it
/// among its siblings.
pub proof fn lemma_three_deep(
    left: Seq<Tree>,
    right: Seq<Tree>,
    path: Seq<Seq<char>>,
    pos: nat,
    at: nat,
    first: ElementTree,
    below_at: nat,
    second: ElementTree,
    inner_at: nat,
    third: ElementTree,
)
    requires
        at < left.len(),
        at < right.len(),
        left[at as int] == Tree::Element(first),
        pair_matches(left[at as int], right[at as int]),
        forests_alike(left.take(at as int), right.take(at as int)),
        forests_alike(left.skip((at + 1) as int), right.skip((at + 1) as int)),
        below_at < left[at as int].significant_children().len(),
        below_at < right[at as int].significant_children().len(),
        left[at as int].significant_children()[below_at as int] == Tree::Element(second),
        pair_matches(
            Tree::Element(second),
            right[at as int].significant_children()[below_at as int],
        ),
        forests_alike(
            left[at as int].significant_children().take(below_at as int),
            right[at as int].significant_children().take(below_at as int),
        ),
        forests_alike(
            left[at as int].significant_children().skip((below_at + 1) as int),
            right[at as int].significant_children().skip((below_at + 1) as int),
        ),
        inner_at < Tree::Element(second).significant_children().len(),
        inner_at < right[at as int].significant_children()[below_at as int].significant_children().len(),
        Tree::Element(second).significant_children()[inner_at as int] == Tree::Element(third),
        pair_matches(
            Tree::Element(third),
            right[at as int].significant_children()[below_at as int].significant_children()[inner_at as int],
        ),
        forests_alike(
            Tree::Element(second).significant_children().take(inner_at as int),
            right[at as int].significant_children()[below_at as int].significant_children().take(
                inner_at as int,
            ),
        ),
        forests_alike(
            Tree::Element(second).significant_children().skip((inner_at + 1) as int),
            right[at as int].significant_children()[below_at as int].significant_children().skip((inner_at + 1) as int),
        ),
        differ_at_this_level_only(
            Tree::Element(third).significant_children(),
            right[at as int].significant_children()[below_at
                as int].significant_children()[inner_at as int].significant_children(),
        ),
    ensures
        ({
            let left1 = left[at as int].significant_children();
            let right1 = right[at as int].significant_children();
            let left2 = left1[below_at as int].significant_children();
            let right2 = right1[below_at as int].significant_children();
            let left3 = left2[inner_at as int].significant_children();
            let right3 = right2[inner_at as int].significant_children();
            let found = three_below(
                path,
                first.name,
                pos + matched_elements(left, right, at),
                second.name,
                matched_elements(left1, right1, below_at),
                third.name,
                matched_elements(left2, right2, inner_at),
            );
            &&& found.len() == path.len() + 3
            &&& level_differences(left, right, path, pos) == level_differences(
                left3,
                right3,
                found,
                0,
            )
            &&& forall|n: int|
                0 <= n < level_differences(left, right, path, pos).len() ==> (
                #[trigger] level_differences(left, right, path, pos)[n]).path() == place(found)
        }),
{
    let left1 = left[at as int].significant_children();
    let right1 = right[at as int].significant_children();
    let left2 = left1[below_at as int].significant_children();
    let right2 = right1[below_at as int].significant_children();
    let left3 = left2[inner_at as int].significant_children();
    let right3 = right2[inner_at as int].significant_children();
    let path1 = path.push(segment(first.name, pos + matched_elements(left, right, at)));
    let path2 = path1.push(segment(second.name, matched_elements(left1, right1, below_at)));
    let path3 = path2.push(segment(third.name, matched_elements(left2, right2, inner_at)));
    lemma_only_below(left, right, path, pos, at);
    lemma_only_below(left1, right1, path1, 0, below_at);
    lemma_only_below(left2, right2, path2, 0, inner_at);
    lemma_places_at_this_level(left3, right3, path3, 0);
}

} // verus!
