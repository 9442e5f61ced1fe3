//! The project manifest: a tree of nodes that either declare an instance or
//! hand a subtree over to a path of the filesystem.

use vstd::prelude::*;
use crate::instance::InstanceProjectNodeMetadata;
use crate::value::{Properties, PropertyValueView};

verus! {

/// A node of the manifest.
#[derive(Debug, PartialEq)]
pub enum ProjectNode {
    Instance(InstanceProjectNode),
    SyncPoint(SyncPointProjectNode),
}

/// A node that declares an instance: its class, its properties, and its
/// children by name, in the order of the manifest.
#[derive(Debug, PartialEq)]
pub struct InstanceProjectNode {
    pub class_name: String,
    pub children: Vec<(String, ProjectNode)>,
    pub properties: Properties,
    pub metadata: InstanceProjectNodeMetadata,
}

/// A node whose instance comes from a path of the filesystem.
#[derive(Debug, PartialEq)]
pub struct SyncPointProjectNode {
    pub path: String,
}

/// A manifest: the name of its root instance and the tree of its nodes.
#[derive(Debug, PartialEq)]
pub struct Project {
    pub name: String,
    pub tree: ProjectNode,
}

/// What a `ProjectNode` stands for.
pub enum ProjectNodeView {
    Instance(InstanceProjectNodeView),
    SyncPoint(SyncPointProjectNodeView),
}

/// What an `InstanceProjectNode` stands for.
pub struct InstanceProjectNodeView {
    pub class_name: Seq<char>,
    pub children: Seq<(Seq<char>, ProjectNodeView)>,
    pub properties: Map<Seq<char>, PropertyValueView>,
    pub metadata: InstanceProjectNodeMetadata,
}

/// What a `SyncPointProjectNode` stands for.
pub struct SyncPointProjectNodeView {
    pub path: Seq<char>,
}

impl ProjectNode {
    /// The node as a mathematical tree.
    pub open spec fn model(self) -> ProjectNodeView
        decreases self,
    {
        match self {
            ProjectNode::Instance(node) => ProjectNodeView::Instance(
                InstanceProjectNodeView {
                    class_name: node.class_name@,
                    children: Seq::new(
                        node.children.len() as nat,
                        |i: int|
                            if 0 <= i < node.children.len() {
                                (node.children[i].0@, node.children[i].1.model())
                            } else {
                                arbitrary()
                            },
                    ),
                    properties: node.properties@,
                    metadata: node.metadata,
                },
            ),
            ProjectNode::SyncPoint(node) => ProjectNodeView::SyncPoint(
                SyncPointProjectNodeView { path: node.path@ },
            ),
        }
    }
}

impl View for ProjectNode {
    type V = ProjectNodeView;

    open spec fn view(&self) -> ProjectNodeView {
        self.model()
    }
}

impl View for InstanceProjectNode {
    type V = InstanceProjectNodeView;

    open spec fn view(&self) -> InstanceProjectNodeView {
        InstanceProjectNodeView {
            class_name: self.class_name@,
            children: Seq::new(self.children.len() as nat, |i: int| (self.children[i].0@, self.children[i].1@)),
            properties: self.properties@,
            metadata: self.metadata,
        }
    }
}

impl View for SyncPointProjectNode {
    type V = SyncPointProjectNodeView;

    open spec fn view(&self) -> SyncPointProjectNodeView {
        SyncPointProjectNodeView { path: self.path@ }
    }
}

/// The view of an instance node is what the view of the manifest holds for
/// it.
pub proof fn lemma_instance_node_view(node: InstanceProjectNode)
    ensures
        ProjectNode::Instance(node)@ == ProjectNodeView::Instance(node@),
{
    assert(ProjectNode::Instance(node)@->Instance_0.children =~= node@.children);
}

} // verus!
