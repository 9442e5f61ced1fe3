//! The snapshot tree: what a projection produces.

use vstd::prelude::*;
use crate::value::{Properties, PropertyValueView};

verus! {

/// The payload that a manifest instance node hands on to the instance made
/// from it. The projection copies it and never reads it.
#[derive(Clone, Copy, Debug, PartialEq, Eq)]
pub struct InstanceProjectNodeMetadata {
    pub ignore_unknown_instances: bool,
}

/// One instance of a snapshot, with the instances below it.
#[derive(Debug, PartialEq)]
pub struct RbxSnapshotInstance {
    pub name: String,
    pub class_name: String,
    pub properties: Properties,
    pub children: Vec<RbxSnapshotInstance>,
    pub source_path: Option<String>,
    pub metadata: Option<InstanceProjectNodeMetadata>,
}

/// What an `RbxSnapshotInstance` stands for.
pub struct InstanceView {
    pub name: Seq<char>,
    pub class_name: Seq<char>,
    pub properties: Map<Seq<char>, PropertyValueView>,
    pub children: Seq<InstanceView>,
    pub source_path: Option<Seq<char>>,
    pub metadata: Option<InstanceProjectNodeMetadata>,
}

/// What an optional path stands for.
pub open spec fn path_view(path: Option<String>) -> Option<Seq<char>> {
    match path {
        Some(p) => Some(p@),
        None => None,
    }
}

impl RbxSnapshotInstance {
    /// The instance as a mathematical tree.
    pub open spec fn model(self) -> InstanceView
        decreases self,
    {
        InstanceView {
            name: self.name@,
            class_name: self.class_name@,
            properties: self.properties@,
            children: Seq::new(
                self.children.len() as nat,
                |i: int|
                    if 0 <= i < self.children.len() {
                        self.children[i].model()
                    } else {
                        arbitrary()
                    },
            ),
            source_path: path_view(self.source_path),
            metadata: self.metadata,
        }
    }
}

impl View for RbxSnapshotInstance {
    type V = InstanceView;

    open spec fn view(&self) -> InstanceView {
        self.model()
    }
}

/// What a list of instances stands for.
pub open spec fn instances_view(list: Seq<RbxSnapshotInstance>) -> Seq<InstanceView> {
    Seq::new(list.len(), |i: int| list[i]@)
}

impl InstanceView {
    /// The same instance under another name.
    pub open spec fn named(self, name: Seq<char>) -> InstanceView {
        InstanceView { name, ..self }
    }
}

impl Clone for RbxSnapshotInstance {
    fn clone(&self) -> (copy: RbxSnapshotInstance)
        ensures
            copy@ == self@,
        decreases self,
    {
        let mut children: Vec<RbxSnapshotInstance> = Vec::new();
        let mut i: usize = 0;
        while i < self.children.len()
            invariant
                i <= self.children.len(),
                children.len() == i,
                forall|j: int| 0 <= j < i ==> children[j]@ == self.children[j]@,
            decreases self.children.len() - i,
        {
            let child = self.children[i].clone();
            children.push(child);
            i += 1;
        }
        let source_path = match &self.source_path {
            Some(p) => Some(p.clone()),
            None => None,
        };
        let copy = RbxSnapshotInstance {
            name: self.name.clone(),
            class_name: self.class_name.clone(),
            properties: self.properties.clone(),
            children,
            source_path,
            metadata: self.metadata,
        };
        assert(copy@.children =~= self@.children);
        copy
    }
}

} // verus!
