//! The projection: from a manifest and a filesystem to a snapshot tree.
//!
//! A path of the filesystem stands for an instance: a file for what its
//! extension makes of it, a directory for a folder that holds what its
//! children stand for, in the order of their paths. A directory that holds
//! `init.lua`, `init.server.lua` or `init.client.lua` becomes the instance
//! of that script instead, the first of the three that it holds. A node of
//! the manifest either declares an instance or points at a path whose
//! instance takes the name of the node; the projection notes that name for
//! the path, and a later visit of the path finds it.

use vstd::prelude::*;
use crate::error::{SnapshotError, SnapshotErrorView};
use crate::files::{result_view, snapshot_imfs_file, spec_file, SnapshotResult, SnapshotView};
use crate::imfs::{
    items_well_formed,
    longest_path,
    lookup,
    lemma_lookup,
    paths_view,
    Imfs,
    ImfsDirectory,
    ImfsDirectoryView,
    ImfsItem,
    ImfsItemView,
};
use crate::instance::{instances_view, InstanceView, RbxSnapshotInstance};
use crate::metadata::SnapshotMetadata;
use crate::models::{DecodedModels, ModelOutcomeView};
use crate::project::{
    lemma_instance_node_view,
    InstanceProjectNode,
    InstanceProjectNodeView,
    Project,
    ProjectNode,
    ProjectNodeView,
    SyncPointProjectNode,
};
use crate::text::{file_name, join, lies_below, spec_file_name, spec_join, str_equal};
use crate::value::Properties;

verus! {

/// How many steps down from `path` the filesystem can still hold an item.
/// It bounds how deep a projection of `path` goes.
pub open spec fn depth_budget(fs: Seq<ImfsItemView>, path: Seq<char>) -> nat {
    if path.len() <= longest_path(fs) {
        (longest_path(fs) - path.len() + 1) as nat
    } else {
        0
    }
}

/// No item of a filesystem stands at a longer path than `longest_path`.
pub proof fn lemma_longest_path(fs: Seq<ImfsItemView>, item: ImfsItemView)
    requires
        fs.contains(item),
    ensures
        item.path().len() <= longest_path(fs),
    decreases fs.len(),
{
    if fs.last() != item {
        let front = fs.drop_last();
        let i = choose|i: int| 0 <= i < fs.len() && fs[i] == item;
        assert(front[i] == item);
        lemma_longest_path(front, item);
    }
}

/// A child of a directory of the filesystem has a smaller budget than the
/// directory.
pub proof fn lemma_child_budget(fs: Seq<ImfsItemView>, directory: ImfsDirectoryView, child: Seq<char>)
    requires
        items_well_formed(fs),
        fs.contains(ImfsItemView::Directory(directory)),
        directory.children.contains(child),
    ensures
        depth_budget(fs, child) < depth_budget(fs, directory.path),
{
    let item = ImfsItemView::Directory(directory);
    lemma_longest_path(fs, item);
    let i = choose|i: int| 0 <= i < fs.len() && fs[i] == item;
    assert(fs[i].well_formed());
    let j = choose|j: int| 0 <= j < directory.children.len() && directory.children[j] == child;
    assert(lies_below(directory.path, directory.children[j]));
}

/// Whether `name` is the name of a file that a directory adopts.
pub open spec fn is_init_name(name: Seq<char>) -> bool {
    name == "init.lua"@ || name == "init.server.lua"@ || name == "init.client.lua"@
}

/// The path of the file that `directory` adopts: `init.lua`, or else
/// `init.server.lua`, or else `init.client.lua`, whichever it holds.
pub open spec fn adopted_init(directory: ImfsDirectoryView) -> Option<Seq<char>> {
    if directory.children.contains(spec_join(directory.path, "init.lua"@)) {
        Some(spec_join(directory.path, "init.lua"@))
    } else if directory.children.contains(spec_join(directory.path, "init.server.lua"@)) {
        Some(spec_join(directory.path, "init.server.lua"@))
    } else if directory.children.contains(spec_join(directory.path, "init.client.lua"@)) {
        Some(spec_join(directory.path, "init.client.lua"@))
    } else {
        None
    }
}

/// The instance of a directory that adopts no file.
pub open spec fn folder(path: Seq<char>) -> InstanceView {
    InstanceView {
        name: Seq::empty(),
        class_name: "Folder"@,
        properties: Map::empty(),
        children: Seq::empty(),
        source_path: Some(path),
        metadata: None,
    }
}

/// The name of the instance of the directory at `path`: the name that a sync
/// point gave to the path, or else the last component of the path.
pub open spec fn directory_name(names: Map<Seq<char>, Seq<char>>, path: Seq<char>) -> Seq<char> {
    if names.contains_key(path) {
        names[path]
    } else {
        spec_file_name(path)
    }
}

/// The instance that `path` stands for: an error where the filesystem holds
/// nothing there.
pub open spec fn spec_path(
    fs: Seq<ImfsItemView>,
    models: Map<Seq<char>, ModelOutcomeView>,
    names: Map<Seq<char>, Seq<char>>,
    path: Seq<char>,
) -> SnapshotView
    decreases depth_budget(fs, path), 2nat, 0nat,
    when items_well_formed(fs)
{
    match lookup(fs, path) {
        None => Err(SnapshotErrorView::DidNotExist(path)),
        Some(ImfsItemView::File(file)) => spec_file(models, names, file),
        Some(ImfsItemView::Directory(directory)) => {
            proof {
                lemma_lookup(fs, path);
            }
            spec_directory(fs, models, names, directory)
        },
    }
}

/// The instance that a directory of the filesystem stands for: the instance
/// of the file it adopts, or a folder, under the name of the directory, and
/// with the instances of its other children added.
pub open spec fn spec_directory(
    fs: Seq<ImfsItemView>,
    models: Map<Seq<char>, ModelOutcomeView>,
    names: Map<Seq<char>, Seq<char>>,
    directory: ImfsDirectoryView,
) -> SnapshotView
    decreases depth_budget(fs, directory.path), 1nat, 0nat,
    when items_well_formed(fs) && fs.contains(ImfsItemView::Directory(directory))
{
    let adopted: SnapshotView = match adopted_init(directory) {
        Some(init) => {
            proof {
                lemma_child_budget(fs, directory, init);
            }
            spec_path(fs, models, names, init)
        },
        None => Ok(None),
    };
    match adopted {
        Err(error) => Err(error),
        Ok(found) => {
            let base = match found {
                Some(instance) => instance,
                None => folder(directory.path),
            };
            match spec_directory_children(fs, models, names, directory, directory.children.len()) {
                Err(error) => Err(error),
                Ok(children) => Ok(
                    Some(
                        InstanceView {
                            name: directory_name(names, directory.path),
                            children: base.children + children,
                            ..base
                        },
                    ),
                ),
            }
        },
    }
}

/// The instances of the first `count` children of a directory, in their
/// order: none for a child with the name of an adopted file, and none for a
/// child that stands for no instance. The first error among them ends it.
pub open spec fn spec_directory_children(
    fs: Seq<ImfsItemView>,
    models: Map<Seq<char>, ModelOutcomeView>,
    names: Map<Seq<char>, Seq<char>>,
    directory: ImfsDirectoryView,
    count: nat,
) -> Result<Seq<InstanceView>, SnapshotErrorView>
    decreases depth_budget(fs, directory.path), 0nat, count,
    when items_well_formed(fs) && fs.contains(ImfsItemView::Directory(directory)) && count
        <= directory.children.len()
{
    if count == 0 {
        Ok(Seq::empty())
    } else {
        match spec_directory_children(fs, models, names, directory, (count - 1) as nat) {
            Err(error) => Err(error),
            Ok(before) => {
                let child = directory.children[count - 1];
                if is_init_name(spec_file_name(child)) {
                    Ok(before)
                } else {
                    proof {
                        lemma_child_budget(fs, directory, child);
                    }
                    match spec_path(fs, models, names, child) {
                        Err(error) => Err(error),
                        Ok(None) => Ok(before),
                        Ok(Some(instance)) => Ok(before.push(instance)),
                    }
                }
            },
        }
    }
}

/// What the projection of a node of the manifest gives: its result, and the
/// names of the sync points after it.
pub struct Projection {
    pub result: SnapshotView,
    pub names: Map<Seq<char>, Seq<char>>,
}

/// What the projection of the children of a node gives: their instances, or
/// the first error, and the names of the sync points after it.
pub struct ChildrenProjection {
    pub result: Result<Seq<InstanceView>, SnapshotErrorView>,
    pub names: Map<Seq<char>, Seq<char>>,
}

/// The instance that a node declares, with `children` below it.
pub open spec fn declared_instance(
    node: InstanceProjectNodeView,
    name: Seq<char>,
    children: Seq<InstanceView>,
) -> InstanceView {
    InstanceView {
        name,
        class_name: node.class_name,
        properties: node.properties,
        children,
        source_path: None,
        metadata: Some(node.metadata),
    }
}

/// The projection of a node of the manifest under the name `name`.
///
/// A node that declares an instance gives that instance, with the instances
/// of its children in the order of the manifest. A sync point gives the
/// instance of its path under the name of the node, and notes that name for
/// the path once the instance is there; where the path stands for no
/// instance, it gives none and notes nothing.
pub open spec fn spec_node(
    fs: Seq<ImfsItemView>,
    models: Map<Seq<char>, ModelOutcomeView>,
    names: Map<Seq<char>, Seq<char>>,
    node: ProjectNodeView,
    name: Seq<char>,
) -> Projection
    decreases node, 0nat,
{
    match node {
        ProjectNodeView::Instance(instance_node) => {
            let below = spec_node_children(
                fs,
                models,
                names,
                instance_node.children,
                instance_node.children.len(),
            );
            match below.result {
                Err(error) => Projection { result: Err(error), names: below.names },
                Ok(children) => Projection {
                    result: Ok(Some(declared_instance(instance_node, name, children))),
                    names: below.names,
                },
            }
        },
        ProjectNodeView::SyncPoint(sync_node) => match spec_path(fs, models, names, sync_node.path) {
            Err(error) => Projection { result: Err(error), names },
            Ok(None) => Projection { result: Ok(None), names },
            Ok(Some(instance)) => Projection {
                result: Ok(Some(instance.named(name))),
                names: names.insert(sync_node.path, name),
            },
        },
    }
}

/// The projection of the first `count` of `children`, one after the other,
/// each with the names that the ones before it left.
pub open spec fn spec_node_children(
    fs: Seq<ImfsItemView>,
    models: Map<Seq<char>, ModelOutcomeView>,
    names: Map<Seq<char>, Seq<char>>,
    children: Seq<(Seq<char>, ProjectNodeView)>,
    count: nat,
) -> ChildrenProjection
    decreases children, count,
{
    if count == 0 || count > children.len() {
        ChildrenProjection { result: Ok(Seq::empty()), names }
    } else {
        let before = spec_node_children(fs, models, names, children, (count - 1) as nat);
        match before.result {
            Err(error) => before,
            Ok(instances) => {
                let child = spec_node(
                    fs,
                    models,
                    before.names,
                    children[count - 1].1,
                    children[count - 1].0,
                );
                match child.result {
                    Err(error) => ChildrenProjection { result: Err(error), names: child.names },
                    Ok(None) => ChildrenProjection { result: Ok(instances), names: child.names },
                    Ok(Some(instance)) => ChildrenProjection {
                        result: Ok(instances.push(instance)),
                        names: child.names,
                    },
                }
            },
        }
    }
}

/// The projection of a whole manifest.
pub open spec fn spec_project(
    fs: Seq<ImfsItemView>,
    models: Map<Seq<char>, ModelOutcomeView>,
    names: Map<Seq<char>, Seq<char>>,
    name: Seq<char>,
    tree: ProjectNodeView,
) -> Projection {
    spec_node(fs, models, names, tree, name)
}

/// An error among the children of a directory stays the result, however many
/// more children are counted.
pub proof fn lemma_directory_error_stays(
    fs: Seq<ImfsItemView>,
    models: Map<Seq<char>, ModelOutcomeView>,
    names: Map<Seq<char>, Seq<char>>,
    directory: ImfsDirectoryView,
    failed: nat,
    count: nat,
)
    requires
        items_well_formed(fs),
        fs.contains(ImfsItemView::Directory(directory)),
        failed <= count <= directory.children.len(),
        spec_directory_children(fs, models, names, directory, failed) is Err,
    ensures
        spec_directory_children(fs, models, names, directory, count) == spec_directory_children(
            fs,
            models,
            names,
            directory,
            failed,
        ),
    decreases count,
{
    if count > failed {
        lemma_directory_error_stays(fs, models, names, directory, failed, (count - 1) as nat);
    }
}

/// An error among the children of a node stays the result, however many more
/// children are counted.
pub proof fn lemma_node_error_stays(
    fs: Seq<ImfsItemView>,
    models: Map<Seq<char>, ModelOutcomeView>,
    names: Map<Seq<char>, Seq<char>>,
    children: Seq<(Seq<char>, ProjectNodeView)>,
    failed: nat,
    count: nat,
)
    requires
        failed <= count <= children.len(),
        spec_node_children(fs, models, names, children, failed).result is Err,
    ensures
        spec_node_children(fs, models, names, children, count) == spec_node_children(
            fs,
            models,
            names,
            children,
            failed,
        ),
    decreases count,
{
    if count > failed {
        lemma_node_error_stays(fs, models, names, children, failed, (count - 1) as nat);
    }
}

/// Whether `path` is among `paths`.
fn contains_path(paths: &Vec<String>, path: &str) -> (yes: bool)
    ensures
        yes == paths_view(paths@).contains(path@),
{
    let mut i: usize = 0;
    while i < paths.len()
        invariant
            i <= paths.len(),
            forall|j: int| 0 <= j < i ==> paths_view(paths@)[j] != path@,
        decreases paths.len() - i,
    {
        if str_equal(paths[i].as_str(), path) {
            assert(paths_view(paths@)[i as int] == path@);
            return true;
        }
        i += 1;
    }
    false
}

/// Whether `name` is the name of a file that a directory adopts.
fn is_init(name: &str) -> (yes: bool)
    ensures
        yes == is_init_name(name@),
{
    str_equal(name, "init.lua") || str_equal(name, "init.server.lua") || str_equal(
        name,
        "init.client.lua",
    )
}

/// The path of the file that `directory` adopts, if it holds one.
fn find_adopted_init(directory: &ImfsDirectory) -> (found: Option<String>)
    ensures
        match found {
            Some(path) => adopted_init(directory@) == Some(path@),
            None => adopted_init(directory@) is None,
        },
{
    let init_path = join(directory.path.as_str(), "init.lua");
    if contains_path(&directory.children, init_path.as_str()) {
        return Some(init_path);
    }
    let init_server_path = join(directory.path.as_str(), "init.server.lua");
    if contains_path(&directory.children, init_server_path.as_str()) {
        return Some(init_server_path);
    }
    let init_client_path = join(directory.path.as_str(), "init.client.lua");
    if contains_path(&directory.children, init_client_path.as_str()) {
        return Some(init_client_path);
    }
    None
}

/// The instance of a directory that adopts no file.
fn make_folder(path: &str) -> (instance: RbxSnapshotInstance)
    ensures
        instance@ == folder(path@),
{
    let instance = RbxSnapshotInstance {
        name: String::new(),
        class_name: "Folder".to_owned(),
        properties: Properties::new(),
        children: Vec::new(),
        source_path: Some(path.to_owned()),
        metadata: None,
    };
    assert(instance@.children =~= Seq::empty());
    instance
}

/// The instance that `path` stands for, with the names that the sync points
/// have given so far.
fn snapshot_path(imfs: &Imfs, models: &DecodedModels, metadata: &SnapshotMetadata, path: &str) -> (result:
    SnapshotResult)
    ensures
        result_view(result) == spec_path(imfs@, models@, metadata@, path@),
    decreases depth_budget(imfs@, path@), 2nat, 0nat,
{
    imfs.recall_well_formed();
    match imfs.get(path) {
        Some(imfs_item) => {
            proof {
                lemma_lookup(imfs@, path@);
            }
            snapshot_imfs_item(imfs, models, metadata, imfs_item)
        },
        None => Err(SnapshotError::DidNotExist(path.to_owned())),
    }
}

/// The instance that an item of the filesystem stands for.
fn snapshot_imfs_item(imfs: &Imfs, models: &DecodedModels, metadata: &SnapshotMetadata, item: &ImfsItem) -> (result:
    SnapshotResult)
    requires
        imfs@.contains(item@),
    ensures
        result_view(result) == match item@ {
            ImfsItemView::File(file) => spec_file(models@, metadata@, file),
            ImfsItemView::Directory(directory) => spec_directory(imfs@, models@, metadata@, directory),
        },
    decreases depth_budget(imfs@, item@.path()), 1nat, 1nat,
{
    match item {
        ImfsItem::File(file) => snapshot_imfs_file(models, metadata, file),
        ImfsItem::Directory(directory) => snapshot_imfs_directory(imfs, models, metadata, directory),
    }
}

/// The instance that a directory of the filesystem stands for.
#[verifier::loop_isolation(false)]
fn snapshot_imfs_directory(
    imfs: &Imfs,
    models: &DecodedModels,
    metadata: &SnapshotMetadata,
    directory: &ImfsDirectory,
) -> (result: SnapshotResult)
    requires
        imfs@.contains(ImfsItemView::Directory(directory@)),
    ensures
        result_view(result) == spec_directory(imfs@, models@, metadata@, directory@),
    decreases depth_budget(imfs@, directory@.path), 1nat, 0nat,
{
    imfs.recall_well_formed();
    let base = match find_adopted_init(directory) {
        Some(init) => {
            proof {
                lemma_child_budget(imfs@, directory@, init@);
            }
            match snapshot_path(imfs, models, metadata, init.as_str()) {
                Err(error) => {
                    return Err(error);
                },
                Ok(Some(snapshot)) => snapshot,
                Ok(None) => make_folder(directory.path.as_str()),
            }
        },
        None => make_folder(directory.path.as_str()),
    };
    let ghost base_view = base@;
    // The name of a sync point for this directory counts, whatever name
    // the adopted file gave.
    let name = match metadata.get(directory.path.as_str()) {
        Some(actual_name) => actual_name.clone(),
        None => file_name(directory.path.as_str()).to_owned(),
    };
    let RbxSnapshotInstance { name: _, class_name, properties, children: base_children, source_path, metadata: payload } =
        base;
    let mut children = base_children;
    let mut i: usize = 0;
    while i < directory.children.len()
        invariant
            i <= directory.children.len(),
            items_well_formed(imfs@),
            imfs@.contains(ImfsItemView::Directory(directory@)),
            spec_directory_children(imfs@, models@, metadata@, directory@, i as nat) is Ok,
            instances_view(children@) == base_view.children + spec_directory_children(
                imfs@,
                models@,
                metadata@,
                directory@,
                i as nat,
            )->Ok_0,
        decreases directory.children.len() - i,
    {
        let child_path = directory.children[i].as_str();
        let child_name = file_name(child_path);
        let ghost before = children@;
        assert(directory@.children[i as int] == child_path@);
        if !is_init(child_name) {
            proof {
                lemma_child_budget(imfs@, directory@, child_path@);
            }
            match snapshot_path(imfs, models, metadata, child_path) {
                Err(error) => {
                    proof {
                        lemma_directory_error_stays(
                            imfs@,
                            models@,
                            metadata@,
                            directory@,
                            (i + 1) as nat,
                            directory@.children.len(),
                        );
                    }
                    return Err(error);
                },
                Ok(Some(child)) => {
                    children.push(child);
                    assert(instances_view(children@) =~= instances_view(before).push(child@));
                },
                Ok(None) => {},
            }
        }
        i += 1;
    }
    let snapshot = RbxSnapshotInstance {
        name,
        class_name,
        properties,
        children,
        source_path,
        metadata: payload,
    };
    assert(snapshot@.children =~= instances_view(children@));
    Ok(Some(snapshot))
}

/// The instance that `path` stands for: what the file at the path makes of
/// it, or what the directory at the path holds. It is an error where the
/// filesystem holds nothing at `path`. The names of the sync points are read
/// and stay as they are.
pub fn snapshot_imfs_path(imfs: &Imfs, models: &DecodedModels, metadata: &mut SnapshotMetadata, path: &str) -> (result:
    SnapshotResult)
    ensures
        result_view(result) == spec_path(imfs@, models@, old(metadata)@, path@),
        *final(metadata) == *old(metadata),
{
    snapshot_path(imfs, models, metadata, path)
}

/// The projection of a node of the manifest under the name `instance_name`.
fn snapshot_project_node(
    imfs: &Imfs,
    models: &DecodedModels,
    metadata: &mut SnapshotMetadata,
    node: &ProjectNode,
    instance_name: &str,
) -> (result: SnapshotResult)
    ensures
        result_view(result) == spec_node(imfs@, models@, old(metadata)@, node@, instance_name@).result,
        final(metadata)@ == spec_node(imfs@, models@, old(metadata)@, node@, instance_name@).names,
    decreases node, 1nat,
{
    match node {
        ProjectNode::Instance(instance_node) => {
            proof {
                lemma_instance_node_view(*instance_node);
            }
            snapshot_instance_node(imfs, models, metadata, instance_node, instance_name)
        },
        ProjectNode::SyncPoint(sync_node) => snapshot_sync_point_node(
            imfs,
            models,
            metadata,
            sync_node,
            instance_name,
        ),
    }
}

/// The instance that a node declares, with the instances of its children.
fn snapshot_instance_node(
    imfs: &Imfs,
    models: &DecodedModels,
    metadata: &mut SnapshotMetadata,
    node: &InstanceProjectNode,
    instance_name: &str,
) -> (result: SnapshotResult)
    ensures
        result_view(result) == spec_node(
            imfs@,
            models@,
            old(metadata)@,
            ProjectNodeView::Instance(node@),
            instance_name@,
        ).result,
        final(metadata)@ == spec_node(
            imfs@,
            models@,
            old(metadata)@,
            ProjectNodeView::Instance(node@),
            instance_name@,
        ).names,
    decreases node, 0nat,
{
    let mut children: Vec<RbxSnapshotInstance> = Vec::new();
    let mut i: usize = 0;
    assert(instances_view(children@) =~= Seq::empty());
    while i < node.children.len()
        invariant
            i <= node.children.len(),
            spec_node_children(imfs@, models@, old(metadata)@, node@.children, i as nat)
                == (ChildrenProjection { result: Ok(instances_view(children@)), names: metadata@ }),
        decreases node.children.len() - i,
    {
        let ghost before = children@;
        assert(node@.children[i as int] == (node.children[i as int].0@, node.children[i as int].1@));
        match snapshot_project_node(
            imfs,
            models,
            metadata,
            &node.children[i].1,
            node.children[i].0.as_str(),
        ) {
            Err(error) => {
                proof {
                    lemma_node_error_stays(
                        imfs@,
                        models@,
                        old(metadata)@,
                        node@.children,
                        (i + 1) as nat,
                        node@.children.len(),
                    );
                }
                return Err(error);
            },
            Ok(Some(child)) => {
                children.push(child);
                assert(instances_view(children@) =~= instances_view(before).push(child@));
            },
            Ok(None) => {},
        }
        i += 1;
    }
    let snapshot = RbxSnapshotInstance {
        class_name: node.class_name.clone(),
        name: instance_name.to_owned(),
        properties: node.properties.clone(),
        children,
        source_path: None,
        metadata: Some(node.metadata),
    };
    assert(snapshot@.children =~= instances_view(children@));
    Ok(Some(snapshot))
}

/// The instance of the path that a sync point names, under the name of the
/// node.
fn snapshot_sync_point_node(
    imfs: &Imfs,
    models: &DecodedModels,
    metadata: &mut SnapshotMetadata,
    node: &SyncPointProjectNode,
    instance_name: &str,
) -> (result: SnapshotResult)
    ensures
        result_view(result) == spec_node(
            imfs@,
            models@,
            old(metadata)@,
            ProjectNodeView::SyncPoint(node@),
            instance_name@,
        ).result,
        final(metadata)@ == spec_node(
            imfs@,
            models@,
            old(metadata)@,
            ProjectNodeView::SyncPoint(node@),
            instance_name@,
        ).names,
{
    // A path that stands for no instance, like a file that no decoder
    // reads or a model file without instances, leaves nothing to name.
    let mut snapshot = match snapshot_path(imfs, models, metadata, node.path.as_str()) {
        Err(error) => {
            return Err(error);
        },
        Ok(None) => {
            return Ok(None);
        },
        Ok(Some(snapshot)) => snapshot,
    };
    let ghost found = snapshot@;
    snapshot.name = instance_name.to_owned();
    metadata.insert(node.path.clone(), instance_name.to_owned());
    assert(snapshot@.children =~= found.children);
    Ok(Some(snapshot))
}

/// The snapshot of a whole project: the projection of the tree of its
/// manifest, under the name of the project. `metadata` holds the names of
/// the sync points afterwards.
pub fn snapshot_project_tree(imfs: &Imfs, models: &DecodedModels, metadata: &mut SnapshotMetadata, project: &Project) -> (result:
    SnapshotResult)
    ensures
        result_view(result) == spec_project(
            imfs@,
            models@,
            old(metadata)@,
            project.name@,
            project.tree@,
        ).result,
        final(metadata)@ == spec_project(
            imfs@,
            models@,
            old(metadata)@,
            project.name@,
            project.tree@,
        ).names,
{
    snapshot_project_node(imfs, models, metadata, &project.tree, project.name.as_str())
}

} // verus!
