//! What a projection remembers while it runs: the names that sync points gave
//! to paths.

use vstd::prelude::*;
use crate::value::{entries_view, find_entry};

verus! {

/// The names that the sync points of the manifest gave to paths of the
/// filesystem. A projection starts with none, and notes one whenever a sync
/// point has been resolved.
#[derive(Debug, PartialEq, Eq)]
pub struct SnapshotMetadata {
    pub sync_point_names: Vec<(String, String)>,
}

impl View for SnapshotMetadata {
    type V = Map<Seq<char>, Seq<char>>;

    open spec fn view(&self) -> Map<Seq<char>, Seq<char>> {
        entries_view(self.sync_point_names@)
    }
}

impl SnapshotMetadata {
    /// No path has a name yet.
    pub fn new() -> (metadata: SnapshotMetadata)
        ensures
            metadata@ == Map::<Seq<char>, Seq<char>>::empty(),
    {
        SnapshotMetadata { sync_point_names: Vec::new() }
    }

    /// Gives `path` the name `name`, in place of any name it had.
    pub fn insert(&mut self, path: String, name: String)
        ensures
            final(self)@ == old(self)@.insert(path@, name@),
    {
        self.sync_point_names.push((path, name));
        proof {
            assert(self.sync_point_names@.drop_last() == old(self).sync_point_names@);
        }
    }

    /// The name that a sync point gave to `path`, if one did.
    pub fn get(&self, path: &str) -> (found: Option<&String>)
        ensures
            match found {
                Some(name) => self@.contains_key(path@) && self@[path@] == name@,
                None => !self@.contains_key(path@),
            },
    {
        find_entry(&self.sync_point_names, path)
    }
}

} // verus!
