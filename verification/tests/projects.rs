use rbx_tree::RbxValue;
use rojo_snapshot::{
    snapshot_project_tree, DecodedModels, Imfs, InstanceProjectNode, InstanceProjectNodeMetadata, Project,
    ProjectNode, Properties, PropertyValue, RbxSnapshotInstance, SnapshotError, SnapshotMetadata,
    SyncPointProjectNode,
};

fn listed(list: &[&str]) -> Vec<String> {
    list.iter().map(|path| path.to_string()).collect()
}

fn declared(class_name: &str, children: Vec<(&str, ProjectNode)>) -> ProjectNode {
    ProjectNode::Instance(InstanceProjectNode {
        class_name: class_name.to_owned(),
        children: children.into_iter().map(|(name, node)| (name.to_owned(), node)).collect(),
        properties: Properties::new(),
        metadata: InstanceProjectNodeMetadata { ignore_unknown_instances: false },
    })
}

fn sync_point(path: &str) -> ProjectNode {
    ProjectNode::SyncPoint(SyncPointProjectNode { path: path.to_owned() })
}

fn plain(name: &str, class_name: &str, children: Vec<RbxSnapshotInstance>) -> RbxSnapshotInstance {
    RbxSnapshotInstance {
        name: name.to_owned(),
        class_name: class_name.to_owned(),
        properties: Properties::new(),
        children,
        source_path: None,
        metadata: Some(InstanceProjectNodeMetadata { ignore_unknown_instances: false }),
    }
}

#[test]
fn declared_instances_are_reproduced_whatever_the_filesystem_holds() {
    let mut properties = Properties::new();
    properties.insert("Gravity".to_owned(), PropertyValue::Other { raw: RbxValue::Int32 { value: 196 } });
    properties.insert("Label".to_owned(), PropertyValue::String { value: "main".to_owned() });
    let tree = ProjectNode::Instance(InstanceProjectNode {
        class_name: "DataModel".to_owned(),
        children: vec![
            ("Workspace".to_owned(), declared("Workspace", vec![("B".to_owned().as_str(), declared("Part", Vec::new()))])),
            ("Lighting".to_owned(), declared("Lighting", Vec::new())),
            ("ABC".to_owned(), declared("Folder", Vec::new())),
        ],
        properties,
        metadata: InstanceProjectNodeMetadata { ignore_unknown_instances: true },
    });
    let project = Project { name: "game".to_owned(), tree };

    let mut expected_properties = Properties::new();
    expected_properties.insert("Gravity".to_owned(), PropertyValue::Other { raw: RbxValue::Int32 { value: 196 } });
    expected_properties.insert("Label".to_owned(), PropertyValue::String { value: "main".to_owned() });
    let expected = RbxSnapshotInstance {
        name: "game".to_owned(),
        class_name: "DataModel".to_owned(),
        properties: expected_properties,
        children: vec![
            plain("Workspace", "Workspace", vec![plain("B", "Part", Vec::new())]),
            plain("Lighting", "Lighting", Vec::new()),
            plain("ABC", "Folder", Vec::new()),
        ],
        source_path: None,
        metadata: Some(InstanceProjectNodeMetadata { ignore_unknown_instances: true }),
    };

    let empty = Imfs::new();
    let mut metadata = SnapshotMetadata::new();
    assert_eq!(
        snapshot_project_tree(&empty, &DecodedModels::new(), &mut metadata, &project),
        Ok(Some(expected.clone()))
    );
    assert_eq!(metadata, SnapshotMetadata::new());

    let mut busy = Imfs::new();
    busy.add_file("game".to_owned(), b"noise".to_vec());
    assert!(busy.add_directory("Workspace".to_owned(), listed(&["Workspace/B"])));
    let mut names = SnapshotMetadata::new();
    names.insert("Workspace".to_owned(), "Other".to_owned());
    assert_eq!(snapshot_project_tree(&busy, &DecodedModels::new(), &mut names, &project), Ok(Some(expected)));
    assert_eq!(names.sync_point_names, vec![("Workspace".to_owned(), "Other".to_owned())]);
}

#[test]
fn sync_point_gives_its_name_to_the_instance_of_its_path() {
    let mut imfs = Imfs::new();
    assert!(imfs.add_directory("proj/src".to_owned(), listed(&["proj/src/main.server.lua"])));
    imfs.add_file("proj/src/main.server.lua".to_owned(), b"print(1)".to_vec());
    let project = Project {
        name: "game".to_owned(),
        tree: declared("DataModel", vec![("ServerScriptService", sync_point("proj/src"))]),
    };
    let mut metadata = SnapshotMetadata::new();
    let snapshot = snapshot_project_tree(&imfs, &DecodedModels::new(), &mut metadata, &project).unwrap().unwrap();
    assert_eq!(snapshot.name, "game");
    assert_eq!(snapshot.children.len(), 1);
    let service = &snapshot.children[0];
    assert_eq!(service.name, "ServerScriptService");
    assert_eq!(service.class_name, "Folder");
    assert_eq!(service.source_path, Some("proj/src".to_owned()));
    assert_eq!(service.metadata, None);
    assert_eq!(service.children.len(), 1);
    assert_eq!(service.children[0].name, "main");
    assert_eq!(service.children[0].class_name, "Script");
    assert_eq!(metadata.get("proj/src"), Some(&"ServerScriptService".to_owned()));
    assert_eq!(metadata.get("proj/src/main.server.lua"), None);
}

#[test]
fn sync_point_as_the_root_takes_the_name_of_the_project() {
    let mut imfs = Imfs::new();
    imfs.add_file("lib/thing.lua".to_owned(), b"return nil".to_vec());
    let project = Project { name: "library".to_owned(), tree: sync_point("lib/thing.lua") };
    let mut metadata = SnapshotMetadata::new();
    let snapshot = snapshot_project_tree(&imfs, &DecodedModels::new(), &mut metadata, &project).unwrap().unwrap();
    assert_eq!(snapshot.name, "library");
    assert_eq!(snapshot.class_name, "ModuleScript");
    assert_eq!(metadata.sync_point_names, vec![("lib/thing.lua".to_owned(), "library".to_owned())]);
}

#[test]
fn sync_point_names_later_visits_and_no_earlier_one() {
    let mut imfs = Imfs::new();
    assert!(imfs.add_directory("root".to_owned(), listed(&["root/lib", "root/tool.lua"])));
    assert!(imfs.add_directory("root/lib".to_owned(), Vec::new()));
    imfs.add_file("root/tool.lua".to_owned(), b"".to_vec());
    let project = Project {
        name: "game".to_owned(),
        tree: declared(
            "DataModel",
            vec![
                ("Early", sync_point("root")),
                ("Library", sync_point("root/lib")),
                ("Tool", sync_point("root/tool.lua")),
                ("Late", sync_point("root")),
            ],
        ),
    };
    let mut metadata = SnapshotMetadata::new();
    let snapshot = snapshot_project_tree(&imfs, &DecodedModels::new(), &mut metadata, &project).unwrap().unwrap();
    let names: Vec<&str> = snapshot.children.iter().map(|child| child.name.as_str()).collect();
    assert_eq!(names, vec!["Early", "Library", "Tool", "Late"]);

    let early: Vec<&str> = snapshot.children[0].children.iter().map(|child| child.name.as_str()).collect();
    assert_eq!(early, vec!["lib", "tool"]);
    let late: Vec<&str> = snapshot.children[3].children.iter().map(|child| child.name.as_str()).collect();
    assert_eq!(late, vec!["Library", "Tool"]);

    assert_eq!(metadata.get("root"), Some(&"Late".to_owned()));
    assert_eq!(metadata.get("root/lib"), Some(&"Library".to_owned()));
    assert_eq!(metadata.get("root/tool.lua"), Some(&"Tool".to_owned()));
}

#[test]
fn sync_point_without_an_instance_is_left_out_and_notes_nothing() {
    let mut imfs = Imfs::new();
    imfs.add_file("assets/logo.png".to_owned(), vec![1, 2, 3]);
    imfs.add_file("assets/empty.rbxm".to_owned(), Vec::new());
    let mut models = DecodedModels::new();
    models.insert("assets/empty.rbxm".to_owned(), rojo_snapshot::ModelOutcome::Decoded { roots: Vec::new() });
    let project = Project {
        name: "game".to_owned(),
        tree: declared(
            "DataModel",
            vec![
                ("Logo", sync_point("assets/logo.png")),
                ("Kept", declared("Folder", Vec::new())),
                ("Model", sync_point("assets/empty.rbxm")),
            ],
        ),
    };
    let mut metadata = SnapshotMetadata::new();
    let snapshot = snapshot_project_tree(&imfs, &models, &mut metadata, &project).unwrap().unwrap();
    let names: Vec<&str> = snapshot.children.iter().map(|child| child.name.as_str()).collect();
    assert_eq!(names, vec!["Kept"]);
    assert!(metadata.sync_point_names.is_empty());

    let alone = Project { name: "game".to_owned(), tree: sync_point("assets/logo.png") };
    assert_eq!(snapshot_project_tree(&imfs, &models, &mut metadata, &alone), Ok(None));
}

#[test]
fn error_below_ends_the_projection_and_keeps_the_names_so_far() {
    let mut imfs = Imfs::new();
    imfs.add_file("a.lua".to_owned(), b"".to_vec());
    imfs.add_file("c.lua".to_owned(), b"".to_vec());
    let project = Project {
        name: "game".to_owned(),
        tree: declared(
            "DataModel",
            vec![("A", sync_point("a.lua")), ("B", sync_point("b.lua")), ("C", sync_point("c.lua"))],
        ),
    };
    let mut metadata = SnapshotMetadata::new();
    assert_eq!(
        snapshot_project_tree(&imfs, &DecodedModels::new(), &mut metadata, &project),
        Err(SnapshotError::DidNotExist("b.lua".to_owned()))
    );
    assert_eq!(metadata.sync_point_names, vec![("a.lua".to_owned(), "A".to_owned())]);
}

#[test]
fn model_that_was_not_decoded_asks_for_its_path() {
    let mut imfs = Imfs::new();
    assert!(imfs.add_directory("m".to_owned(), listed(&["m/a.rbxmx"])));
    imfs.add_file("m/a.rbxmx".to_owned(), b"<roblox version=\"4\"></roblox>".to_vec());
    let project = Project { name: "game".to_owned(), tree: sync_point("m") };
    let mut metadata = SnapshotMetadata::new();
    assert_eq!(
        snapshot_project_tree(&imfs, &DecodedModels::new(), &mut metadata, &project),
        Err(SnapshotError::ModelNotDecoded { path: "m/a.rbxmx".to_owned() })
    );
    let mut models = DecodedModels::new();
    models.insert("m/a.rbxmx".to_owned(), rojo_snapshot::ModelOutcome::Decoded { roots: Vec::new() });
    let mut fresh = SnapshotMetadata::new();
    let snapshot = snapshot_project_tree(&imfs, &models, &mut fresh, &project).unwrap().unwrap();
    assert_eq!(snapshot.name, "game");
    assert!(snapshot.children.is_empty());
}

#[test]
fn names_and_properties_are_kept_by_name() {
    let mut metadata = SnapshotMetadata::new();
    assert_eq!(metadata.get("a"), None);
    metadata.insert("a".to_owned(), "First".to_owned());
    metadata.insert("b".to_owned(), "Other".to_owned());
    metadata.insert("a".to_owned(), "Second".to_owned());
    assert_eq!(metadata.get("a"), Some(&"Second".to_owned()));
    assert_eq!(metadata.get("b"), Some(&"Other".to_owned()));

    let mut properties = Properties::new();
    assert_eq!(properties.get("x"), None);
    properties.insert("x".to_owned(), PropertyValue::String { value: "1".to_owned() });
    properties.insert("x".to_owned(), PropertyValue::String { value: "2".to_owned() });
    assert_eq!(properties.get("x"), Some(&PropertyValue::String { value: "2".to_owned() }));
    let copy = properties.clone();
    assert_eq!(copy.get("x"), Some(&PropertyValue::String { value: "2".to_owned() }));
    assert_eq!(PropertyValue::String { value: "2".to_owned() }.clone(), PropertyValue::String { value: "2".to_owned() });
}
