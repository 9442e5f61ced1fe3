//! Property values and property bags.

use vstd::prelude::*;
use crate::text::str_equal;

verus! {

/// `rbx_tree::RbxValue`, a typed value of a property. The snapshot carries
/// such a value along and never looks inside.
#[verifier::external_type_specification]
#[verifier::external_body]
pub struct ExRbxValue(rbx_tree::RbxValue);

/// `RbxValue::clone`, which the type derives: the copy is the same value.
pub assume_specification[ <rbx_tree::RbxValue as Clone>::clone ](value: &rbx_tree::RbxValue) -> (copy:
    rbx_tree::RbxValue)
    ensures
        copy == *value,
;

/// The value of a property. Text is held as such, since the decoders write
/// it; a value of any other type is carried as it came.
#[derive(Debug, PartialEq)]
pub enum PropertyValue {
    String { value: String },
    Other { raw: rbx_tree::RbxValue },
}

/// What a `PropertyValue` stands for.
pub enum PropertyValueView {
    String { value: Seq<char> },
    Other { raw: rbx_tree::RbxValue },
}

impl View for PropertyValue {
    type V = PropertyValueView;

    open spec fn view(&self) -> PropertyValueView {
        match self {
            PropertyValue::String { value } => PropertyValueView::String { value: value@ },
            PropertyValue::Other { raw } => PropertyValueView::Other { raw: *raw },
        }
    }
}

impl Clone for PropertyValue {
    fn clone(&self) -> (copy: PropertyValue)
        ensures
            copy@ == self@,
    {
        match self {
            PropertyValue::String { value } => PropertyValue::String { value: value.clone() },
            PropertyValue::Other { raw } => PropertyValue::Other { raw: raw.clone() },
        }
    }
}

/// The mapping that a list of named values stands for. Where a name is listed
/// twice, the later entry counts.
pub open spec fn entries_view<V: View>(entries: Seq<(String, V)>) -> Map<Seq<char>, V::V>
    decreases entries.len(),
{
    if entries.len() == 0 {
        Map::empty()
    } else {
        entries_view(entries.drop_last()).insert(entries.last().0@, entries.last().1@)
    }
}

/// Looks `name` up among `entries`, later entries first.
pub fn find_entry<'a, V: View>(entries: &'a Vec<(String, V)>, name: &str) -> (found: Option<&'a V>)
    ensures
        match found {
            Some(value) => entries_view(entries@).contains_key(name@) && entries_view(
                entries@,
            )[name@] == value@,
            None => !entries_view(entries@).contains_key(name@),
        },
{
    let mut i: usize = entries.len();
    assert(entries@.take(i as int) == entries@);
    while i > 0
        invariant
            i <= entries.len(),
            entries_view(entries@).contains_key(name@) <==> entries_view(
                entries@.take(i as int),
            ).contains_key(name@),
            entries_view(entries@).contains_key(name@) ==> entries_view(entries@)[name@]
                == entries_view(entries@.take(i as int))[name@],
        decreases i,
    {
        proof {
            let front = entries@.take(i as int);
            assert(front.drop_last() == entries@.take(i - 1));
            assert(front.last() == entries@[i - 1]);
        }
        i -= 1;
        if str_equal(entries[i].0.as_str(), name) {
            return Some(&entries[i].1);
        }
    }
    assert(entries@.take(0).len() == 0);
    None
}

/// The properties of an instance, by name.
#[derive(Debug, PartialEq)]
pub struct Properties {
    pub entries: Vec<(String, PropertyValue)>,
}

impl View for Properties {
    type V = Map<Seq<char>, PropertyValueView>;

    open spec fn view(&self) -> Map<Seq<char>, PropertyValueView> {
        entries_view(self.entries@)
    }
}

impl Properties {
    /// A bag without properties.
    pub fn new() -> (bag: Properties)
        ensures
            bag@ == Map::<Seq<char>, PropertyValueView>::empty(),
    {
        Properties { entries: Vec::new() }
    }

    /// Sets the property `name` to `value`.
    pub fn insert(&mut self, name: String, value: PropertyValue)
        ensures
            final(self)@ == old(self)@.insert(name@, value@),
    {
        self.entries.push((name, value));
        proof {
            assert(self.entries@.drop_last() == old(self).entries@);
        }
    }

    /// The value of the property `name`, if the bag has it.
    pub fn get(&self, name: &str) -> (found: Option<&PropertyValue>)
        ensures
            match found {
                Some(value) => self@.contains_key(name@) && self@[name@] == value@,
                None => !self@.contains_key(name@),
            },
    {
        find_entry(&self.entries, name)
    }
}

impl Clone for Properties {
    fn clone(&self) -> (copy: Properties)
        ensures
            copy@ == self@,
    {
        let mut entries: Vec<(String, PropertyValue)> = Vec::new();
        let mut i: usize = 0;
        while i < self.entries.len()
            invariant
                i <= self.entries.len(),
                entries_view(entries@) == entries_view(self.entries@.take(i as int)),
            decreases self.entries.len() - i,
        {
            let name = self.entries[i].0.clone();
            let value = self.entries[i].1.clone();
            let ghost before = entries@;
            entries.push((name, value));
            proof {
                let front = self.entries@.take(i + 1);
                assert(front.drop_last() == self.entries@.take(i as int));
                assert(entries@.drop_last() == before);
            }
            i += 1;
        }
        assert(self.entries@.take(i as int) == self.entries@);
        Properties { entries }
    }
}

} // verus!
