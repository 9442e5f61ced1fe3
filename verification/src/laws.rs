//! What holds of every projection.

use vstd::prelude::*;
use crate::error::SnapshotErrorView;
use crate::files::{
    script_class,
    script_name,
    spec_decoded_file,
    spec_file,
    spec_model_file,
    SnapshotView,
};
use crate::imfs::{items_well_formed, lookup, lemma_lookup, ImfsDirectoryView, ImfsFileView, ImfsItemView};
use crate::instance::InstanceView;
use crate::models::{ModelFormat, ModelOutcomeView};
use crate::project::{ProjectNodeView, SyncPointProjectNodeView};
use crate::snapshot::{
    adopted_init,
    depth_budget,
    lemma_child_budget,
    declared_instance,
    directory_name,
    folder,
    is_init_name,
    spec_directory,
    spec_directory_children,
    spec_node,
    spec_node_children,
    spec_path,
    ChildrenProjection,
    Projection,
};
use crate::text::{
    lemma_file_name_of_join,
    lemma_last_index_of_is,
    spec_ends_with,
    spec_extension,
    spec_file_name,
    spec_file_stem,
    spec_join,
};

verus! {

/// Whether no node of the subtree at `node` is a sync point.
pub open spec fn declares_all(node: ProjectNodeView) -> bool
    decreases node,
{
    match node {
        ProjectNodeView::Instance(instance_node) => forall|i: int|
            0 <= i < instance_node.children.len() ==> declares_all(
                (#[trigger] instance_node.children[i]).1,
            ),
        ProjectNodeView::SyncPoint(_) => false,
    }
}

/// The tree of instances that a subtree without sync points declares, its
/// root under the name `name`.
pub open spec fn declared_tree(node: ProjectNodeView, name: Seq<char>) -> InstanceView
    decreases node,
{
    match node {
        ProjectNodeView::Instance(instance_node) => declared_instance(
            instance_node,
            name,
            Seq::new(
                instance_node.children.len(),
                |i: int|
                    if 0 <= i < instance_node.children.len() {
                        declared_tree(instance_node.children[i].1, instance_node.children[i].0)
                    } else {
                        arbitrary()
                    },
            ),
        ),
        ProjectNodeView::SyncPoint(_) => arbitrary(),
    }
}

/// A subtree of the manifest without sync points is reproduced as it stands:
/// the class, the name, the properties and the payload of each node, and the
/// children of each node in their order. The filesystem, the decoded models
/// and the names of earlier sync points have no part in it, and the names
/// stay as they were.
pub proof fn law_declared_subtree_is_reproduced(
    fs: Seq<ImfsItemView>,
    models: Map<Seq<char>, ModelOutcomeView>,
    names: Map<Seq<char>, Seq<char>>,
    node: ProjectNodeView,
    name: Seq<char>,
)
    requires
        declares_all(node),
    ensures
        spec_node(fs, models, names, node, name) == (Projection {
            result: Ok(Some(declared_tree(node, name))),
            names,
        }),
    decreases node, 0nat,
{
    match node {
        ProjectNodeView::Instance(instance_node) => {
            lemma_declared_children(fs, models, names, instance_node.children, instance_node.children.len());
            let below = spec_node_children(
                fs,
                models,
                names,
                instance_node.children,
                instance_node.children.len(),
            );
            assert(below.result->Ok_0 =~= declared_tree(node, name).children);
        },
        ProjectNodeView::SyncPoint(_) => {},
    }
}

/// The children of a node whose subtrees hold no sync point are reproduced
/// one by one.
proof fn lemma_declared_children(
    fs: Seq<ImfsItemView>,
    models: Map<Seq<char>, ModelOutcomeView>,
    names: Map<Seq<char>, Seq<char>>,
    children: Seq<(Seq<char>, ProjectNodeView)>,
    count: nat,
)
    requires
        count <= children.len(),
        forall|i: int| 0 <= i < children.len() ==> declares_all((#[trigger] children[i]).1),
    ensures
        spec_node_children(fs, models, names, children, count) == (ChildrenProjection {
            result: Ok(Seq::new(count, |i: int| declared_tree(children[i].1, children[i].0))),
            names,
        }),
    decreases children, count,
{
    let expected = Seq::new(count, |i: int| declared_tree(children[i].1, children[i].0));
    if count == 0 {
        assert(expected =~= Seq::empty());
    } else {
        lemma_declared_children(fs, models, names, children, (count - 1) as nat);
        assert(declares_all(children[count - 1].1));
        law_declared_subtree_is_reproduced(fs, models, names, children[count - 1].1, children[count - 1].0);
        let before = Seq::new((count - 1) as nat, |i: int| declared_tree(children[i].1, children[i].0));
        assert(expected =~= before.push(declared_tree(children[count - 1].1, children[count - 1].0)));
    }
}

/// The file that a directory adopts has one of the three names of such
/// files, and the extension of a script.
pub proof fn lemma_adopted_init_is_a_script(directory: ImfsDirectoryView)
    ensures
        match adopted_init(directory) {
            Some(init) => is_init_name(spec_file_name(init)) && spec_extension(init) == Some("lua"@),
            None => true,
        },
{
    reveal_strlit("init.lua");
    reveal_strlit("init.server.lua");
    reveal_strlit("init.client.lua");
    reveal_strlit("lua");
    let module = "init.lua"@;
    let server = "init.server.lua"@;
    let client = "init.client.lua"@;
    lemma_file_name_of_join(directory.path, module);
    lemma_file_name_of_join(directory.path, server);
    lemma_file_name_of_join(directory.path, client);
    lemma_last_index_of_is(module, '.', 4);
    lemma_last_index_of_is(server, '.', 11);
    lemma_last_index_of_is(client, '.', 11);
    assert(module.subrange(5, 8) =~= "lua"@);
    assert(server.subrange(12, 15) =~= "lua"@);
    assert(client.subrange(12, 15) =~= "lua"@);
}

/// A path with the extension of a script never stands for no instance: it
/// gives an instance or an error.
pub proof fn lemma_script_path_gives_an_instance(
    fs: Seq<ImfsItemView>,
    models: Map<Seq<char>, ModelOutcomeView>,
    names: Map<Seq<char>, Seq<char>>,
    path: Seq<char>,
)
    requires
        items_well_formed(fs),
        spec_extension(path) == Some("lua"@),
    ensures
        spec_path(fs, models, names, path) != Ok::<Option<InstanceView>, SnapshotErrorView>(None),
{
    lemma_lookup(fs, path);
}

/// A directory takes after the file it adopts: the class, the properties,
/// the origin and the payload of its instance are those of the instance of
/// that file, and the children of that instance come first among its own. An
/// error of that file is the error of the directory. A directory that
/// adopts no file is a folder. Either way the name is the directory's own:
/// the name that a sync point gave to its path, or else the last component
/// of the path, whatever name the adopted file had.
pub proof fn law_directory_takes_after_adopted_file(
    fs: Seq<ImfsItemView>,
    models: Map<Seq<char>, ModelOutcomeView>,
    names: Map<Seq<char>, Seq<char>>,
    directory: ImfsDirectoryView,
)
    requires
        items_well_formed(fs),
        fs.contains(ImfsItemView::Directory(directory)),
    ensures
        match adopted_init(directory) {
            Some(init) => match spec_path(fs, models, names, init) {
                Err(error) => spec_directory(fs, models, names, directory) == Err::<
                    Option<InstanceView>,
                    SnapshotErrorView,
                >(error),
                Ok(Some(adopted)) => takes_after(spec_directory(fs, models, names, directory), adopted),
                Ok(None) => false,
            },
            None => takes_after(spec_directory(fs, models, names, directory), folder(directory.path)),
        },
        match spec_directory(fs, models, names, directory) {
            Ok(Some(instance)) => instance.name == directory_name(names, directory.path),
            Ok(None) => false,
            Err(_) => true,
        },
{
    lemma_adopted_init_is_a_script(directory);
    match adopted_init(directory) {
        Some(init) => {
            lemma_script_path_gives_an_instance(fs, models, names, init);
            match spec_path(fs, models, names, init) {
                Ok(Some(adopted)) => {
                    match spec_directory_children(fs, models, names, directory, directory.children.len()) {
                        Ok(children) => {
                            assert((adopted.children + children).take(adopted.children.len() as int)
                                =~= adopted.children);
                        },
                        Err(_) => {},
                    }
                },
                _ => {},
            }
        },
        None => {
            match spec_directory_children(fs, models, names, directory, directory.children.len()) {
                Ok(children) => {
                    assert((folder(directory.path).children + children).take(0) =~= folder(
                        directory.path,
                    ).children);
                },
                Err(_) => {},
            }
        },
    }
}

/// Whether the instance of a directory, where it has one, has everything
/// but its name from `base`, and the children of `base` before its other
/// children.
pub open spec fn takes_after(result: SnapshotView, base: InstanceView) -> bool {
    match result {
        Ok(Some(instance)) => {
            &&& instance.class_name == base.class_name
            &&& instance.properties == base.properties
            &&& instance.source_path == base.source_path
            &&& instance.metadata == base.metadata
            &&& base.children.len() <= instance.children.len()
            &&& instance.children.take(base.children.len() as int) == base.children
        },
        Ok(None) => false,
        Err(_) => true,
    }
}

/// A directory that holds `init.lua` adopts it, whether or not it also holds
/// `init.server.lua` or `init.client.lua`: its instance takes after the
/// instance of `init.lua`.
pub proof fn law_module_init_comes_first(
    fs: Seq<ImfsItemView>,
    models: Map<Seq<char>, ModelOutcomeView>,
    names: Map<Seq<char>, Seq<char>>,
    directory: ImfsDirectoryView,
)
    requires
        items_well_formed(fs),
        fs.contains(ImfsItemView::Directory(directory)),
        directory.children.contains(spec_join(directory.path, "init.lua"@)),
    ensures
        adopted_init(directory) == Some(spec_join(directory.path, "init.lua"@)),
        match spec_path(fs, models, names, spec_join(directory.path, "init.lua"@)) {
            Err(error) => spec_directory(fs, models, names, directory) == Err::<
                Option<InstanceView>,
                SnapshotErrorView,
            >(error),
            Ok(Some(adopted)) => takes_after(spec_directory(fs, models, names, directory), adopted),
            Ok(None) => false,
        },
{
    law_directory_takes_after_adopted_file(fs, models, names, directory);
}

/// A child with the name of an adopted file adds nothing to the children of
/// its directory. So the file that a directory adopts does not come a
/// second time, as a child of the instance that was made from it.
pub proof fn law_adopted_file_is_no_child(
    fs: Seq<ImfsItemView>,
    models: Map<Seq<char>, ModelOutcomeView>,
    names: Map<Seq<char>, Seq<char>>,
    directory: ImfsDirectoryView,
    at: nat,
)
    requires
        items_well_formed(fs),
        fs.contains(ImfsItemView::Directory(directory)),
        at < directory.children.len(),
        is_init_name(spec_file_name(directory.children[at as int])) || adopted_init(directory) == Some(
            directory.children[at as int],
        ),
    ensures
        spec_directory_children(fs, models, names, directory, at + 1) == spec_directory_children(
            fs,
            models,
            names,
            directory,
            at,
        ),
{
    lemma_adopted_init_is_a_script(directory);
}

/// A script is classed by the end of its file name, and named by what comes
/// before that end: `Script` for a name that ends in `.server.lua`,
/// `LocalScript` for one that ends in `.client.lua`, and `ModuleScript` for
/// any other name with the extension `lua`.
pub proof fn law_script_is_classed_by_its_name(path: Seq<char>, stem: Seq<char>)
    ensures
        spec_file_name(path) == stem + ".server.lua"@ ==> script_name(path) == stem && script_class(path)
            == "Script"@,
        spec_file_name(path) == stem + ".client.lua"@ ==> script_name(path) == stem && script_class(path)
            == "LocalScript"@,
        spec_file_name(path) == stem + ".lua"@ && stem.len() > 0 && !spec_ends_with(stem, ".server"@)
            && !spec_ends_with(stem, ".client"@) ==> script_name(path) == stem && script_class(path)
            == "ModuleScript"@,
{
    reveal_strlit(".server.lua");
    reveal_strlit(".client.lua");
    reveal_strlit(".server");
    reveal_strlit(".client");
    reveal_strlit(".lua");
    let name = spec_file_name(path);
    let server = ".server.lua"@;
    let client = ".client.lua"@;
    let n = stem.len() as int;
    if name == stem + server {
        assert(name.subrange(n, n + 11) =~= server);
        assert(name.subrange(0, n) =~= stem);
    }
    if name == stem + client {
        assert(name.subrange(n, n + 11) =~= client);
        assert(name.subrange(0, n) =~= stem);
        assert(name.subrange(n, n + 11)[1] != server[1]);
    }
    if name == stem + ".lua"@ && stem.len() > 0 && !spec_ends_with(stem, ".server"@) && !spec_ends_with(
        stem,
        ".client"@,
    ) {
        let total = name.len() as int;
        if spec_ends_with(name, server) {
            let tail = name.subrange(total - 11, total);
            assert(stem.subrange(n - 7, n) =~= ".server"@) by {
                assert forall|i: int| 0 <= i < 7 implies stem.subrange(n - 7, n)[i] == ".server"@[i] by {
                    assert(tail[i] == server[i]);
                    assert(tail[i] == name[total - 11 + i]);
                }
            }
        }
        if spec_ends_with(name, client) {
            let tail = name.subrange(total - 11, total);
            assert(stem.subrange(n - 7, n) =~= ".client"@) by {
                assert forall|i: int| 0 <= i < 7 implies stem.subrange(n - 7, n)[i] == ".client"@[i] by {
                    assert(tail[i] == client[i]);
                    assert(tail[i] == name[total - 11 + i]);
                }
            }
        }
        assert forall|i: int| n < i < total implies name[i] != '.' by {
            assert(name[i] == ".lua"@[i - n]);
        }
        lemma_last_index_of_is(name, '.', n);
        assert(name.subrange(0, n) =~= stem);
    }
}

/// A model file gives what its top level holds: no instance where it holds
/// none; its one instance where it holds one, under the name of the file
/// without its extension, whatever name the file gives it inside, and
/// otherwise as the codec read it; an error where it holds more than one.
pub proof fn law_model_file_follows_its_roots(
    models: Map<Seq<char>, ModelOutcomeView>,
    file: ImfsFileView,
    format: ModelFormat,
    roots: Seq<InstanceView>,
)
    requires
        models.contains_key(file.path),
        models[file.path] == (ModelOutcomeView::Decoded { roots }),
    ensures
        roots.len() == 0 ==> spec_model_file(models, file, format) == Ok::<
            Option<InstanceView>,
            SnapshotErrorView,
        >(None),
        roots.len() == 1 ==> spec_model_file(models, file, format) == Ok::<
            Option<InstanceView>,
            SnapshotErrorView,
        >(Some(InstanceView { name: spec_file_stem(file.path), ..roots[0] })),
        roots.len() > 1 ==> spec_model_file(models, file, format) == Err::<
            Option<InstanceView>,
            SnapshotErrorView,
        >(SnapshotErrorView::MultipleModelRoots { path: file.path }),
{
}

/// Whether a file with this extension is read at all.
pub open spec fn is_known_extension(extension: Option<Seq<char>>) -> bool {
    match extension {
        Some(ext) => ext == "lua"@ || ext == "csv"@ || ext == "txt"@ || ext == "rbxmx"@ || ext
            == "rbxm"@,
        None => false,
    }
}

/// A file whose extension is none of those that are read stands for no
/// instance, and that is no error. As a child of a directory it adds
/// nothing to the children of the directory's instance.
pub proof fn law_unknown_extension_gives_nothing(
    fs: Seq<ImfsItemView>,
    models: Map<Seq<char>, ModelOutcomeView>,
    names: Map<Seq<char>, Seq<char>>,
    file: ImfsFileView,
    directory: ImfsDirectoryView,
    at: nat,
)
    requires
        !is_known_extension(spec_extension(file.path)),
    ensures
        spec_file(models, names, file) == Ok::<Option<InstanceView>, SnapshotErrorView>(None),
        items_well_formed(fs) && lookup(fs, file.path) == Some(ImfsItemView::File(file)) ==> spec_path(
            fs,
            models,
            names,
            file.path,
        ) == Ok::<Option<InstanceView>, SnapshotErrorView>(None),
        items_well_formed(fs) && lookup(fs, file.path) == Some(ImfsItemView::File(file)) && fs.contains(
            ImfsItemView::Directory(directory),
        ) && at < directory.children.len() && directory.children[at as int] == file.path
            ==> spec_directory_children(fs, models, names, directory, at + 1)
            == spec_directory_children(fs, models, names, directory, at),
{
}

/// Whether two results are of one kind: the same error, or no instance both
/// times, or an instance both times.
pub open spec fn same_outcome(one: SnapshotView, other: SnapshotView) -> bool {
    match (one, other) {
        (Err(a), Err(b)) => a == b,
        (Ok(None), Ok(None)) => true,
        (Ok(Some(_)), Ok(Some(_))) => true,
        _ => false,
    }
}

/// The names of the sync points decide how instances are called, and
/// nothing else: whether a path stands for an instance, and which error it
/// gives, is the same under any names.
pub proof fn lemma_names_keep_outcome(
    fs: Seq<ImfsItemView>,
    models: Map<Seq<char>, ModelOutcomeView>,
    names: Map<Seq<char>, Seq<char>>,
    other_names: Map<Seq<char>, Seq<char>>,
    path: Seq<char>,
)
    requires
        items_well_formed(fs),
    ensures
        same_outcome(spec_path(fs, models, names, path), spec_path(fs, models, other_names, path)),
    decreases depth_budget(fs, path), 2nat, 0nat,
{
    lemma_lookup(fs, path);
    match lookup(fs, path) {
        Some(ImfsItemView::Directory(directory)) => {
            lemma_names_keep_directory_outcome(fs, models, names, other_names, directory);
        },
        _ => {},
    }
}

/// What `lemma_names_keep_outcome` says, of a directory.
proof fn lemma_names_keep_directory_outcome(
    fs: Seq<ImfsItemView>,
    models: Map<Seq<char>, ModelOutcomeView>,
    names: Map<Seq<char>, Seq<char>>,
    other_names: Map<Seq<char>, Seq<char>>,
    directory: ImfsDirectoryView,
)
    requires
        items_well_formed(fs),
        fs.contains(ImfsItemView::Directory(directory)),
    ensures
        same_outcome(
            spec_directory(fs, models, names, directory),
            spec_directory(fs, models, other_names, directory),
        ),
    decreases depth_budget(fs, directory.path), 1nat, 0nat,
{
    match adopted_init(directory) {
        Some(init) => {
            lemma_child_budget(fs, directory, init);
            lemma_names_keep_outcome(fs, models, names, other_names, init);
        },
        None => {},
    }
    lemma_names_keep_children_outcome(fs, models, names, other_names, directory, directory.children.len());
}

/// What `lemma_names_keep_outcome` says, of the children of a directory.
proof fn lemma_names_keep_children_outcome(
    fs: Seq<ImfsItemView>,
    models: Map<Seq<char>, ModelOutcomeView>,
    names: Map<Seq<char>, Seq<char>>,
    other_names: Map<Seq<char>, Seq<char>>,
    directory: ImfsDirectoryView,
    count: nat,
)
    requires
        items_well_formed(fs),
        fs.contains(ImfsItemView::Directory(directory)),
        count <= directory.children.len(),
    ensures
        match (
            spec_directory_children(fs, models, names, directory, count),
            spec_directory_children(fs, models, other_names, directory, count),
        ) {
            (Err(a), Err(b)) => a == b,
            (Ok(_), Ok(_)) => true,
            _ => false,
        },
    decreases depth_budget(fs, directory.path), 0nat, count,
{
    if count > 0 {
        lemma_names_keep_children_outcome(fs, models, names, other_names, directory, (count - 1) as nat);
        let child = directory.children[count - 1];
        if !is_init_name(spec_file_name(child)) {
            lemma_child_budget(fs, directory, child);
            lemma_names_keep_outcome(fs, models, names, other_names, child);
        }
    }
}

/// A projection of a path asks only for models that are missing: where it
/// stops at a model that was not decoded, that model is a file of the
/// filesystem, with the extension of a model, for which `models` holds
/// nothing. So each model that is decoded on such a request is a new one.
pub proof fn law_asked_model_is_missing(
    fs: Seq<ImfsItemView>,
    models: Map<Seq<char>, ModelOutcomeView>,
    names: Map<Seq<char>, Seq<char>>,
    path: Seq<char>,
)
    requires
        items_well_formed(fs),
    ensures
        match spec_path(fs, models, names, path) {
            Err(SnapshotErrorView::ModelNotDecoded { path: asked }) => is_missing_model(fs, models, asked),
            _ => true,
        },
    decreases depth_budget(fs, path), 2nat, 0nat,
{
    lemma_lookup(fs, path);
    match lookup(fs, path) {
        Some(ImfsItemView::Directory(directory)) => {
            lemma_asked_model_is_missing_below(fs, models, names, directory, directory.children.len());
            match adopted_init(directory) {
                Some(init) => {
                    lemma_child_budget(fs, directory, init);
                    law_asked_model_is_missing(fs, models, names, init);
                },
                None => {},
            }
        },
        _ => {},
    }
}

/// A projection of a manifest asks only for models that are missing, as a
/// projection of a path does.
pub proof fn law_project_asks_for_missing_models(
    fs: Seq<ImfsItemView>,
    models: Map<Seq<char>, ModelOutcomeView>,
    names: Map<Seq<char>, Seq<char>>,
    node: ProjectNodeView,
    name: Seq<char>,
)
    requires
        items_well_formed(fs),
    ensures
        match spec_node(fs, models, names, node, name).result {
            Err(SnapshotErrorView::ModelNotDecoded { path: asked }) => is_missing_model(fs, models, asked),
            _ => true,
        },
    decreases node, 0nat,
{
    match node {
        ProjectNodeView::Instance(instance_node) => {
            lemma_children_ask_for_missing_models(
                fs,
                models,
                names,
                instance_node.children,
                instance_node.children.len(),
            );
        },
        ProjectNodeView::SyncPoint(sync_node) => {
            law_asked_model_is_missing(fs, models, names, sync_node.path);
        },
    }
}

/// What `law_project_asks_for_missing_models` says, of the children of a
/// node.
proof fn lemma_children_ask_for_missing_models(
    fs: Seq<ImfsItemView>,
    models: Map<Seq<char>, ModelOutcomeView>,
    names: Map<Seq<char>, Seq<char>>,
    children: Seq<(Seq<char>, ProjectNodeView)>,
    count: nat,
)
    requires
        items_well_formed(fs),
        count <= children.len(),
    ensures
        match spec_node_children(fs, models, names, children, count).result {
            Err(SnapshotErrorView::ModelNotDecoded { path: asked }) => is_missing_model(fs, models, asked),
            _ => true,
        },
    decreases children, count,
{
    if count > 0 {
        lemma_children_ask_for_missing_models(fs, models, names, children, (count - 1) as nat);
        let before = spec_node_children(fs, models, names, children, (count - 1) as nat);
        law_project_asks_for_missing_models(
            fs,
            models,
            before.names,
            children[count - 1].1,
            children[count - 1].0,
        );
    }
}

/// Whether `path` is a model file of the filesystem for which `models` holds
/// nothing.
pub open spec fn is_missing_model(
    fs: Seq<ImfsItemView>,
    models: Map<Seq<char>, ModelOutcomeView>,
    path: Seq<char>,
) -> bool {
    &&& !models.contains_key(path)
    &&& lookup(fs, path) matches Some(ImfsItemView::File(_))
    &&& (spec_extension(path) == Some("rbxmx"@) || spec_extension(path) == Some("rbxm"@))
}

/// What `law_asked_model_is_missing` says, of the children of a directory.
proof fn lemma_asked_model_is_missing_below(
    fs: Seq<ImfsItemView>,
    models: Map<Seq<char>, ModelOutcomeView>,
    names: Map<Seq<char>, Seq<char>>,
    directory: ImfsDirectoryView,
    count: nat,
)
    requires
        items_well_formed(fs),
        fs.contains(ImfsItemView::Directory(directory)),
        count <= directory.children.len(),
    ensures
        match spec_directory_children(fs, models, names, directory, count) {
            Err(SnapshotErrorView::ModelNotDecoded { path: asked }) => is_missing_model(fs, models, asked),
            _ => true,
        },
    decreases depth_budget(fs, directory.path), 0nat, count,
{
    if count > 0 {
        lemma_asked_model_is_missing_below(fs, models, names, directory, (count - 1) as nat);
        let child = directory.children[count - 1];
        if !is_init_name(spec_file_name(child)) {
            lemma_child_budget(fs, directory, child);
            law_asked_model_is_missing(fs, models, names, child);
        }
    }
}

/// A sync point names the later visits of its path, and no earlier one.
///
/// Where `path` stands for an instance, a sync point for `path` gives that
/// instance under its own name `name` and notes the name. A visit of `path`
/// after that gives an instance called `name`. A visit before that, with
/// names that hold none for `path`, gives the name that the path has by
/// itself: the last component of the path for a directory, and for a file
/// the name that its decoder gives.
pub proof fn law_sync_point_names_later_visits(
    fs: Seq<ImfsItemView>,
    models: Map<Seq<char>, ModelOutcomeView>,
    names: Map<Seq<char>, Seq<char>>,
    path: Seq<char>,
    name: Seq<char>,
)
    requires
        items_well_formed(fs),
    ensures
        match spec_path(fs, models, names, path) {
            Ok(Some(found)) => {
                let point = ProjectNodeView::SyncPoint(SyncPointProjectNodeView { path });
                let after = spec_node(fs, models, names, point, name);
                &&& after.result == Ok::<Option<InstanceView>, SnapshotErrorView>(Some(found.named(name)))
                &&& after.names == names.insert(path, name)
                &&& match spec_path(fs, models, after.names, path) {
                    Ok(Some(seen)) => seen.name == name,
                    _ => false,
                }
                &&& !names.contains_key(path) ==> match lookup(fs, path) {
                    Some(ImfsItemView::Directory(_)) => found.name == spec_file_name(path),
                    Some(ImfsItemView::File(file)) => spec_decoded_file(models, file) == Ok::<
                        Option<InstanceView>,
                        SnapshotErrorView,
                    >(Some(found)),
                    None => false,
                }
            },
            _ => true,
        },
{
    lemma_lookup(fs, path);
    lemma_names_keep_outcome(fs, models, names, names.insert(path, name), path);
}

} // verus!
