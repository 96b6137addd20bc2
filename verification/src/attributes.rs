//! A mapping from the qualified names of attributes to their values that
//! keeps the order in which the names were first inserted.

use crate::node::{attribute_views, Attribute, Entry, Name};
use vstd::prelude::*;

verus! {

/// The index of the first entry named `name`, or the length of `entries` if
/// there is none.
pub open spec fn index_of(entries: Seq<Entry>, name: Name) -> int
    decreases entries.len(),
{
    if entries.len() == 0 {
        0
    } else if entries[0].0 == name {
        0
    } else {
        1 + index_of(entries.skip(1), name)
    }
}

/// The value that `entries` gives to `name`, if any.
pub open spec fn lookup(entries: Seq<Entry>, name: Name) -> Option<
    Seq<char>,
> {
    let i = index_of(entries, name);
    if i < entries.len() {
        Some(entries[i].1)
    } else {
        None
    }
}

/// Whether no two entries have the same name.
pub open spec fn distinct_names(entries: Seq<Entry>) -> bool {
    forall|i: int, j: int|
        0 <= i < j < entries.len() ==> (#[trigger] entries[i]).0 != (#[trigger] entries[j]).0
}

/// `entries` after `name` is given `value`: an entry of that name keeps its
/// place and takes the value; otherwise a new entry goes to the end.
pub open spec fn inserted(
    entries: Seq<Entry>,
    name: Name,
    value: Seq<char>,
) -> Seq<Entry> {
    let i = index_of(entries, name);
    if i < entries.len() {
        entries.update(i, (name, value))
    } else {
        entries.push((name, value))
    }
}

/// The entries that result from inserting `pairs` one after the other into
/// an empty mapping.
pub open spec fn collected(pairs: Seq<Entry>) -> Seq<Entry>
    decreases pairs.len(),
{
    if pairs.len() == 0 {
        Seq::empty()
    } else {
        inserted(collected(pairs.drop_last()), pairs.last().0, pairs.last().1)
    }
}

/// The mapping that a list of name and value pairs stands for.
pub open spec fn mapping(entries: Seq<Entry>) -> Map<Name, Seq<char>> {
    Map::new(
        |name: Name| lookup(entries, name) is Some,
        |name: Name| lookup(entries, name)->0,
    )
}

/// The mapping that an element's attribute list stands for: where a name
/// occurs more than once, its last value counts.
pub open spec fn attribute_map(pairs: Seq<Entry>) -> Map<Name, Seq<char>> {
    mapping(collected(pairs))
}

/// `index_of` finds the first entry of a name.
pub proof fn lemma_index_of(entries: Seq<Entry>, name: Name)
    ensures
        0 <= index_of(entries, name) <= entries.len(),
        index_of(entries, name) < entries.len() ==> entries[index_of(entries, name)].0 == name,
        forall|j: int| 0 <= j < index_of(entries, name) ==> (#[trigger] entries[j]).0 != name,
    decreases entries.len(),
{
    if entries.len() != 0 && entries[0].0 != name {
        let rest = entries.skip(1);
        lemma_index_of(rest, name);
        assert forall|j: int| 0 <= j < index_of(entries, name) implies (#[trigger] entries[j]).0
            != name by {
            if j > 0 {
                assert(entries[j] == rest[j - 1]);
            }
        }
    }
}

/// An index is the one that `index_of` finds if it is the first of its name.
pub proof fn lemma_index_of_is(entries: Seq<Entry>, name: Name, i: int)
    requires
        0 <= i <= entries.len(),
        i < entries.len() ==> entries[i].0 == name,
        forall|j: int| 0 <= j < i ==> (#[trigger] entries[j]).0 != name,
    ensures
        index_of(entries, name) == i,
{
    lemma_index_of(entries, name);
}

/// Inserting keeps the names distinct, and changes what one name maps to.
pub proof fn lemma_inserted(entries: Seq<Entry>, name: Name, value: Seq<char>)
    requires
        distinct_names(entries),
    ensures
        distinct_names(inserted(entries, name, value)),
        lookup(inserted(entries, name, value), name) == Some(value),
        forall|other: Name|
            other != name ==> #[trigger] lookup(inserted(entries, name, value), other) == lookup(
                entries,
                other,
            ),
        mapping(inserted(entries, name, value)) == mapping(entries).insert(name, value),
{
    let after = inserted(entries, name, value);
    let i = index_of(entries, name);
    lemma_index_of(entries, name);
    lemma_index_of_is(after, name, i);
    assert forall|other: Name| other != name implies #[trigger] lookup(after, other)
        == lookup(entries, other) by {
        let k = index_of(entries, other);
        lemma_index_of(entries, other);
        if k < entries.len() {
            assert(after[k] == entries[k]);
            assert forall|j: int| 0 <= j < k implies (#[trigger] after[j]).0 != other by {
                assert(entries[j].0 != other);
            }
            lemma_index_of_is(after, other, k);
        } else {
            assert forall|j: int| 0 <= j < after.len() implies (#[trigger] after[j]).0
                != other by {
                if j < entries.len() {
                    assert(entries[j].0 != other);
                }
            }
            lemma_index_of_is(after, other, after.len() as int);
        }
    }
    assert forall|a: int, b: int| 0 <= a < b < after.len() implies (#[trigger] after[a]).0 != (
    #[trigger] after[b]).0 by {
        if a < entries.len() && b < entries.len() {
            assert(entries[a].0 != entries[b].0);
        }
        if a < entries.len() {
            assert(entries[a].0 == name ==> a == i);
        }
        if b < entries.len() {
            assert(entries[b].0 == name ==> b == i);
        }
    }
    assert(mapping(after) =~= mapping(entries).insert(name, value));
}

/// Collecting a list gives entries with distinct names.
pub proof fn lemma_collected_distinct(pairs: Seq<Entry>)
    ensures
        distinct_names(collected(pairs)),
    decreases pairs.len(),
{
    if pairs.len() != 0 {
        lemma_collected_distinct(pairs.drop_last());
        lemma_inserted(collected(pairs.drop_last()), pairs.last().0, pairs.last().1);
    }
}

/// The mapping of an attribute list comes from inserting its pairs in
/// order: the empty list stands for the empty mapping, and one more pair at
/// the end gives its name its value.
pub proof fn lemma_attribute_map_push(
    pairs: Seq<Entry>,
    name: Name,
    value: Seq<char>,
)
    ensures
        attribute_map(Seq::empty()) == Map::<Name, Seq<char>>::empty(),
        attribute_map(pairs.push((name, value))) == attribute_map(pairs).insert(name, value),
{
    assert(attribute_map(Seq::empty()) =~= Map::<Name, Seq<char>>::empty());
    assert(pairs.push((name, value)).drop_last() =~= pairs);
    lemma_collected_distinct(pairs);
    lemma_inserted(collected(pairs), name, value);
}

/// Two lists of entries stand for the same mapping exactly if each agrees
/// with the other on every name that it holds.
pub proof fn lemma_mapping_equal(
    left: Seq<Entry>,
    right: Seq<Entry>,
)
    ensures
        mapping(left) == mapping(right) <==> agree(left, right) && agree(right, left),
{
    if mapping(left) == mapping(right) {
        assert forall|name: Name| lookup(left, name) == lookup(right, name) by {
            assert(mapping(left).contains_key(name) == mapping(right).contains_key(name));
            assert(mapping(left)[name] == mapping(right)[name]);
        }
    }
    if agree(left, right) && agree(right, left) {
        assert forall|name: Name| lookup(left, name) == lookup(right, name) by {
            lemma_index_of(left, name);
            lemma_index_of(right, name);
            let i = index_of(left, name);
            let j = index_of(right, name);
            if i < left.len() {
                assert(lookup(right, left[i].0) == lookup(left, left[i].0));
            }
            if j < right.len() {
                assert(lookup(left, right[j].0) == lookup(right, right[j].0));
            }
        }
        assert(mapping(left) =~= mapping(right));
    }
}

/// Whether `right` maps every name that `left` holds as `left` does.
pub open spec fn agree(left: Seq<Entry>, right: Seq<Entry>) -> bool {
    forall|i: int|
        0 <= i < left.len() ==> lookup(right, (#[trigger] left[i]).0) == lookup(left, left[i].0)
}

/// The names of a mapping are those of its entries.
pub proof fn lemma_mapping_names(entries: Seq<Entry>)
    ensures
        forall|name: Name|
            mapping(entries).dom().contains(name) <==> exists|i: int|
                0 <= i < entries.len() && (#[trigger] entries[i]).0 == name,
{
    assert forall|name: Name|
        mapping(entries).dom().contains(name) <==> exists|i: int|
            0 <= i < entries.len() && (#[trigger] entries[i]).0 == name by {
        lemma_index_of(entries, name);
        if mapping(entries).dom().contains(name) {
            assert(entries[index_of(entries, name)].0 == name);
        }
    }
}

/// A mapping whose entries have distinct names has as many names as
/// entries.
pub proof fn lemma_mapping_size(entries: Seq<Entry>)
    requires
        distinct_names(entries),
    ensures
        mapping(entries).dom().finite(),
        mapping(entries).dom().len() == entries.len(),
    decreases entries.len(),
{
    if entries.len() == 0 {
        lemma_mapping_names(entries);
        assert(mapping(entries).dom() =~= Set::<Name>::empty());
    } else {
        let front = entries.drop_last();
        let last = entries.last();
        assert forall|i: int, j: int| 0 <= i < j < front.len() implies (#[trigger] front[i]).0 != (
        #[trigger] front[j]).0 by {
            assert(entries[i].0 != entries[j].0);
        }
        lemma_mapping_size(front);
        lemma_mapping_names(front);
        lemma_mapping_names(entries);
        assert forall|name: Name|
            mapping(entries).dom().contains(name) <==> mapping(front).dom().insert(
                last.0,
            ).contains(name) by {
            if mapping(entries).dom().contains(name) {
                let i = choose|i: int| 0 <= i < entries.len() && (#[trigger] entries[i]).0 == name;
                if i < front.len() {
                    assert(front[i].0 == name);
                }
            }
            if mapping(front).dom().contains(name) {
                let i = choose|i: int| 0 <= i < front.len() && (#[trigger] front[i]).0 == name;
                assert(entries[i].0 == name);
            }
            if name == last.0 {
                assert(entries[entries.len() - 1].0 == name);
            }
        }
        assert(mapping(entries).dom() =~= mapping(front).dom().insert(last.0));
        if mapping(front).dom().contains(last.0) {
            let i = choose|i: int| 0 <= i < front.len() && (#[trigger] front[i]).0 == last.0;
            assert(entries[i].0 != entries[entries.len() - 1].0);
        }
    }
}

/// Size and membership: two mappings whose entries have distinct names are
/// the same exactly if they have as many entries and the second maps every
/// name of the first as the first does.
pub proof fn lemma_size_and_membership(
    left: Seq<Entry>,
    right: Seq<Entry>,
)
    requires
        distinct_names(left),
        distinct_names(right),
    ensures
        mapping(left) == mapping(right) <==> left.len() == right.len() && agree(left, right),
{
    lemma_mapping_equal(left, right);
    lemma_mapping_size(left);
    lemma_mapping_size(right);
    lemma_mapping_names(left);
    lemma_mapping_names(right);
    if left.len() == right.len() && agree(left, right) {
        let names = mapping(left).dom();
        let others = mapping(right).dom();
        assert forall|name: Name| names.contains(name) implies others.contains(name) by {
            let i = choose|i: int| 0 <= i < left.len() && (#[trigger] left[i]).0 == name;
            assert(lookup(right, left[i].0) == lookup(left, left[i].0));
        }
        assert(names.subset_of(others));
        vstd::set_lib::lemma_subset_equality(names, others);
        assert forall|j: int| 0 <= j < right.len() implies lookup(left, (#[trigger] right[j]).0)
            == lookup(right, right[j].0) by {
            assert(others.contains(right[j].0));
            assert(names.contains(right[j].0));
            let i = choose|i: int| 0 <= i < left.len() && (#[trigger] left[i]).0 == right[j].0;
            assert(lookup(right, left[i].0) == lookup(left, left[i].0));
        }
    }
}

/// A mapping from attribute names to values. No name occurs twice; the
/// entries stand in the order in which their names were first inserted.
#[derive(Clone, Debug)]
pub struct AttributeMap {
    entries: Vec<Attribute>,
}

impl View for AttributeMap {
    type V = Seq<Entry>;

    closed spec fn view(&self) -> Seq<Entry> {
        attribute_views(self.entries@)
    }
}

impl AttributeMap {
    /// Whether no name occurs twice. Every mapping that `new` and `insert`
    /// build is valid.
    pub open spec fn is_valid(&self) -> bool {
        distinct_names(self@)
    }

    /// The empty mapping.
    pub fn new() -> (out: AttributeMap)
        ensures
            out@ == Seq::<Entry>::empty(),
            out.is_valid(),
    {
        let out = AttributeMap { entries: Vec::new() };
        assert(out@ =~= Seq::<Entry>::empty());
        out
    }

    /// The number of entries.
    pub fn len(&self) -> (n: usize)
        ensures
            n == self@.len(),
    {
        self.entries.len()
    }

    /// The entries, in order.
    pub fn entries(&self) -> (out: &Vec<Attribute>)
        ensures
            attribute_views(out@) == self@,
    {
        &self.entries
    }

    /// The index of the first entry named `name`, or the number of entries.
    fn find(&self, namespace: &String, name: &String) -> (i: usize)
        ensures
            i == index_of(self@, (namespace@, name@)),
            i <= self@.len(),
    {
        let mut i: usize = 0;
        while i < self.entries.len()
            invariant
                i <= self.entries.len(),
                forall|j: int| 0 <= j < i ==> (#[trigger] self@[j]).0 != (namespace@, name@),
            decreases self.entries.len() - i,
        {
            assert(self@[i as int] == self.entries@[i as int]@);
            if self.entries[i].namespace == *namespace && self.entries[i].name == *name {
                proof {
                    lemma_index_of_is(self@, (namespace@, name@), i as int);
                }
                return i;
            }
            i += 1;
        }
        proof {
            lemma_index_of_is(self@, (namespace@, name@), i as int);
        }
        i
    }

    /// The value of the name `name` of the namespace `namespace`, if the
    /// mapping holds it.
    pub fn get(&self, namespace: &String, name: &String) -> (out: Option<&String>)
        ensures
            out is Some <==> lookup(self@, (namespace@, name@)) is Some,
            out is Some ==> Some(out->0@) == lookup(self@, (namespace@, name@)),
    {
        let i = self.find(namespace, name);
        if i < self.entries.len() {
            assert(self@[i as int] == self.entries@[i as int]@);
            Some(&self.entries[i].value)
        } else {
            None
        }
    }

    /// Gives the name `name` of the namespace `namespace` the value `value`.
    pub fn insert(&mut self, namespace: String, name: String, value: String)
        ensures
            final(self)@ == inserted(old(self)@, (namespace@, name@), value@),
            old(self).is_valid() ==> final(self).is_valid(),
    {
        proof {
            if self.is_valid() {
                lemma_inserted(self@, (namespace@, name@), value@);
            }
        }
        let i = self.find(&namespace, &name);
        let ghost before = self@;
        if i < self.entries.len() {
            self.entries[i] = Attribute { namespace, name, value };
        } else {
            self.entries.push(Attribute { namespace, name, value });
        }
        assert(self@ =~= inserted(before, (namespace@, name@), value@));
    }

    /// Whether two mappings hold the same names with the same values.
    pub fn same_mapping(&self, other: &AttributeMap) -> (same: bool)
        ensures
            same == (mapping(self@) == mapping(other@)),
    {
        proof {
            lemma_mapping_equal(self@, other@);
        }
        self.agrees_with(other) && other.agrees_with(self)
    }

    /// Whether `other` maps every name of this mapping as this mapping does.
    fn agrees_with(&self, other: &AttributeMap) -> (agrees: bool)
        ensures
            agrees == agree(self@, other@),
    {
        let mut i: usize = 0;
        while i < self.entries.len()
            invariant
                i <= self.entries.len(),
                forall|k: int|
                    0 <= k < i ==> lookup(other@, (#[trigger] self@[k]).0) == lookup(
                        self@,
                        self@[k].0,
                    ),
            decreases self.entries.len() - i,
        {
            assert(self@[i as int] == self.entries@[i as int]@);
            let namespace = &self.entries[i].namespace;
            let name = &self.entries[i].name;
            let agreed = match (self.get(namespace, name), other.get(namespace, name)) {
                (Some(here), Some(there)) => *here == *there,
                (None, None) => true,
                _ => false,
            };
            if !agreed {
                assert(lookup(other@, self@[i as int].0) != lookup(self@, self@[i as int].0));
                return false;
            }
            i += 1;
        }
        true
    }
}

/// The mapping of an element's attributes: each of `map`, in order,
/// inserted into an empty mapping.
pub fn map_conversion(map: &Vec<Attribute>) -> (result: AttributeMap)
    ensures
        result@ == collected(attribute_views(map@)),
        result.is_valid(),
{
    let mut result = AttributeMap::new();
    let mut i: usize = 0;
    while i < map.len()
        invariant
            i <= map.len(),
            result@ == collected(attribute_views(map@).take(i as int)),
            result.is_valid(),
        decreases map.len() - i,
    {
        proof {
            let pairs = attribute_views(map@);
            assert(pairs.take(i + 1).drop_last() =~= pairs.take(i as int));
        }
        result.insert(map[i].namespace.clone(), map[i].name.clone(), map[i].value.clone());
        i += 1;
    }
    proof {
        let pairs = attribute_views(map@);
        assert(pairs.take(i as int) =~= pairs);
    }
    result
}

} // verus!
