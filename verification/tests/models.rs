use std::collections::HashMap;

use rbx_tree::{RbxId, RbxInstanceProperties, RbxTree, RbxValue};
use rojo_snapshot::files::{snapshot_binary_model_file, snapshot_imfs_file, snapshot_model_file, snapshot_xml_model_file};
use rojo_snapshot::{
    DecodedModels, ImfsFile, ModelFormat, ModelOutcome, Properties, PropertyValue, RbxSnapshotInstance,
    SnapshotError, SnapshotMetadata,
};

fn model_file(path: &str, contents: &[u8]) -> ImfsFile {
    ImfsFile { path: path.to_owned(), contents: contents.to_vec() }
}

fn temp_tree() -> RbxTree {
    RbxTree::new(RbxInstanceProperties {
        name: "Temp".to_owned(),
        class_name: "Folder".to_owned(),
        properties: HashMap::new(),
    })
}

fn instance_at(tree: &RbxTree, id: RbxId) -> RbxSnapshotInstance {
    let instance = tree.get_instance(id).unwrap();
    let mut properties = Properties::new();
    let mut names: Vec<&String> = instance.properties.keys().collect();
    names.sort();
    for name in names {
        let value = match &instance.properties[name] {
            RbxValue::String { value } => PropertyValue::String { value: value.clone() },
            other => PropertyValue::Other { raw: other.clone() },
        };
        properties.insert(name.clone(), value);
    }
    RbxSnapshotInstance {
        name: instance.name.clone(),
        class_name: instance.class_name.clone(),
        properties,
        children: instance.get_children_ids().iter().map(|child| instance_at(tree, *child)).collect(),
        source_path: None,
        metadata: None,
    }
}

fn roots_of(tree: &RbxTree) -> Vec<RbxSnapshotInstance> {
    let root = tree.get_instance(tree.get_root_id()).unwrap();
    root.get_children_ids().iter().map(|child| instance_at(tree, *child)).collect()
}

fn decode_xml(source: &[u8]) -> ModelOutcome {
    let mut tree = temp_tree();
    let root_id = tree.get_root_id();
    match rbx_xml::decode(&mut tree, root_id, source) {
        Ok(()) => ModelOutcome::Decoded { roots: roots_of(&tree) },
        Err(error) => ModelOutcome::Failed { cause: format!("{:?}", error) },
    }
}

fn decode_binary(source: &[u8]) -> ModelOutcome {
    let mut tree = temp_tree();
    let root_id = tree.get_root_id();
    match rbx_binary::decode(&mut tree, root_id, source) {
        Ok(()) => ModelOutcome::Decoded { roots: roots_of(&tree) },
        Err(error) => ModelOutcome::Failed { cause: format!("{:?}", error) },
    }
}

fn models_with(path: &str, outcome: ModelOutcome) -> DecodedModels {
    let mut models = DecodedModels::new();
    models.insert(path.to_owned(), outcome);
    models
}

fn bare(name: &str, class_name: &str) -> RbxSnapshotInstance {
    RbxSnapshotInstance {
        name: name.to_owned(),
        class_name: class_name.to_owned(),
        properties: Properties::new(),
        children: Vec::new(),
        source_path: None,
        metadata: None,
    }
}

const ONE_ROOT: &str = "<roblox version=\"4\"><Item class=\"Folder\" referent=\"RBX0\"><Properties><string name=\"Name\">Embedded</string><bool name=\"Archivable\">true</bool><string name=\"Note\">kept</string></Properties><Item class=\"StringValue\" referent=\"RBX1\"><Properties><string name=\"Name\">Inner</string><string name=\"Value\">text</string></Properties></Item></Item></roblox>";

#[test]
fn xml_model_with_one_root_is_named_after_its_file() {
    let file = model_file("models/thing.rbxmx", ONE_ROOT.as_bytes());
    let models = models_with("models/thing.rbxmx", decode_xml(&file.contents));
    let snapshot = snapshot_xml_model_file(&file, &models).unwrap().unwrap();
    assert_eq!(snapshot.name, "thing");
    assert_eq!(snapshot.class_name, "Folder");
    assert_eq!(snapshot.source_path, None);
    assert_eq!(snapshot.metadata, None);
    assert_eq!(
        snapshot.properties.get("Note"),
        Some(&PropertyValue::String { value: "kept".to_owned() })
    );
    assert_eq!(
        snapshot.properties.get("Archivable"),
        Some(&PropertyValue::Other { raw: RbxValue::Bool { value: true } })
    );
    assert_eq!(snapshot.children.len(), 1);
    assert_eq!(snapshot.children[0].name, "Inner");
    assert_eq!(snapshot.children[0].class_name, "StringValue");
    assert_eq!(
        snapshot.children[0].properties.get("Value"),
        Some(&PropertyValue::String { value: "text".to_owned() })
    );
}

#[test]
fn xml_model_without_roots_is_no_instance() {
    let file = model_file("models/empty.rbxmx", b"<roblox version=\"4\"></roblox>");
    let models = models_with("models/empty.rbxmx", decode_xml(&file.contents));
    assert_eq!(snapshot_xml_model_file(&file, &models), Ok(None));
}

#[test]
fn xml_model_with_two_roots_is_an_error() {
    let source = "<roblox version=\"4\"><Item class=\"Folder\" referent=\"A\"></Item><Item class=\"Folder\" referent=\"B\"></Item></roblox>";
    let file = model_file("models/two.rbxmx", source.as_bytes());
    let models = models_with("models/two.rbxmx", decode_xml(&file.contents));
    assert_eq!(
        snapshot_xml_model_file(&file, &models),
        Err(SnapshotError::MultipleModelRoots { path: "models/two.rbxmx".to_owned() })
    );
}

#[test]
fn xml_model_that_the_codec_refuses_is_an_error() {
    let file = model_file("models/bad.rbxmx", b"<roblox version=\"3\"></roblox>");
    let models = models_with("models/bad.rbxmx", decode_xml(&file.contents));
    match snapshot_xml_model_file(&file, &models) {
        Err(SnapshotError::XmlModelDecodeError { inner, path }) => {
            assert_eq!(path, "models/bad.rbxmx");
            assert_eq!(inner, "Message(\"Not version 4\")");
        }
        other => panic!("unexpected result {:?}", other),
    }
}

#[test]
fn binary_model_with_one_root_is_named_after_its_file() {
    let mut tree = temp_tree();
    let root_id = tree.get_root_id();
    let mut properties = HashMap::new();
    properties.insert("Value".to_owned(), RbxValue::String { value: "hello".to_owned() });
    let value_id = tree.insert_instance(
        RbxInstanceProperties { name: "Embedded".to_owned(), class_name: "StringValue".to_owned(), properties },
        root_id,
    );
    let mut encoded = Vec::new();
    rbx_binary::encode(&tree, &[value_id], &mut encoded).unwrap();

    let file = model_file("models/value.rbxm", &encoded);
    let models = models_with("models/value.rbxm", decode_binary(&file.contents));
    let snapshot = snapshot_binary_model_file(&file, &models).unwrap().unwrap();
    assert_eq!(snapshot.name, "value");
    assert_eq!(snapshot.class_name, "StringValue");
    assert_eq!(
        snapshot.properties.get("Value"),
        Some(&PropertyValue::String { value: "hello".to_owned() })
    );
    assert!(snapshot.children.is_empty());
}

#[test]
fn binary_model_that_the_codec_refuses_is_an_error() {
    let file = model_file("models/bad.rbxm", b"this is no model file at all, only text");
    let models = models_with("models/bad.rbxm", decode_binary(&file.contents));
    match snapshot_binary_model_file(&file, &models) {
        Err(SnapshotError::BinaryModelDecodeError { inner, path }) => {
            assert_eq!(path, "models/bad.rbxm");
            assert_eq!(inner, "MissingMagicFileHeader");
        }
        other => panic!("unexpected result {:?}", other),
    }
}

#[test]
fn model_that_was_not_decoded_is_an_error() {
    let file = model_file("models/thing.rbxm", b"");
    assert_eq!(
        snapshot_binary_model_file(&file, &DecodedModels::new()),
        Err(SnapshotError::ModelNotDecoded { path: "models/thing.rbxm".to_owned() })
    );
    assert_eq!(
        snapshot_xml_model_file(&file, &models_with("models/other.rbxm", ModelOutcome::Decoded { roots: Vec::new() })),
        Err(SnapshotError::ModelNotDecoded { path: "models/thing.rbxm".to_owned() })
    );
}

#[test]
fn model_roots_decide_the_result() {
    let file = model_file("a/b/model.rbxm", b"");
    let none = models_with("a/b/model.rbxm", ModelOutcome::Decoded { roots: Vec::new() });
    assert_eq!(snapshot_model_file(&file, &none, ModelFormat::Binary), Ok(None));

    let mut root = bare("Embedded", "Model");
    root.children.push(bare("Part", "Part"));
    root.source_path = Some("elsewhere".to_owned());
    let one = models_with("a/b/model.rbxm", ModelOutcome::Decoded { roots: vec![root] });
    let mut expected = bare("model", "Model");
    expected.children.push(bare("Part", "Part"));
    expected.source_path = Some("elsewhere".to_owned());
    assert_eq!(snapshot_model_file(&file, &one, ModelFormat::Binary), Ok(Some(expected)));

    let three = models_with(
        "a/b/model.rbxm",
        ModelOutcome::Decoded { roots: vec![bare("A", "Folder"), bare("B", "Folder"), bare("C", "Folder")] },
    );
    assert_eq!(
        snapshot_model_file(&file, &three, ModelFormat::Xml),
        Err(SnapshotError::MultipleModelRoots { path: "a/b/model.rbxm".to_owned() })
    );

    let failed = models_with("a/b/model.rbxm", ModelOutcome::Failed { cause: "why".to_owned() });
    assert_eq!(
        snapshot_model_file(&file, &failed, ModelFormat::Xml),
        Err(SnapshotError::XmlModelDecodeError { inner: "why".to_owned(), path: "a/b/model.rbxm".to_owned() })
    );
    assert_eq!(
        snapshot_model_file(&file, &failed, ModelFormat::Binary),
        Err(SnapshotError::BinaryModelDecodeError { inner: "why".to_owned(), path: "a/b/model.rbxm".to_owned() })
    );
}

#[test]
fn later_outcome_for_a_path_replaces_the_earlier() {
    let mut models = DecodedModels::new();
    assert_eq!(models.get("m.rbxm"), None);
    models.insert("m.rbxm".to_owned(), ModelOutcome::Failed { cause: "first".to_owned() });
    models.insert("n.rbxm".to_owned(), ModelOutcome::Failed { cause: "other".to_owned() });
    models.insert("m.rbxm".to_owned(), ModelOutcome::Decoded { roots: Vec::new() });
    assert_eq!(models.get("m.rbxm"), Some(&ModelOutcome::Decoded { roots: Vec::new() }));
    assert_eq!(models.get("n.rbxm"), Some(&ModelOutcome::Failed { cause: "other".to_owned() }));
}

#[test]
fn file_is_read_by_its_extension() {
    let models = models_with("x/m.rbxmx", ModelOutcome::Decoded { roots: vec![bare("Embedded", "Model")] });
    let metadata = SnapshotMetadata::new();
    let script = snapshot_imfs_file(&models, &metadata, &model_file("x/a.lua", b"")).unwrap().unwrap();
    assert_eq!(script.class_name, "ModuleScript");
    let table = snapshot_imfs_file(&models, &metadata, &model_file("x/t.csv", b"")).unwrap().unwrap();
    assert_eq!(table.class_name, "LocalizationTable");
    let text = snapshot_imfs_file(&models, &metadata, &model_file("x/t.txt", b"")).unwrap().unwrap();
    assert_eq!(text.class_name, "StringValue");
    let model = snapshot_imfs_file(&models, &metadata, &model_file("x/m.rbxmx", b"")).unwrap().unwrap();
    assert_eq!(model.name, "m");
    assert_eq!(model.class_name, "Model");
    assert_eq!(
        snapshot_imfs_file(&models, &metadata, &model_file("x/m.rbxm", b"")),
        Err(SnapshotError::ModelNotDecoded { path: "x/m.rbxm".to_owned() })
    );
}

#[test]
fn file_with_an_unknown_extension_is_no_instance() {
    let models = DecodedModels::new();
    let metadata = SnapshotMetadata::new();
    assert_eq!(snapshot_imfs_file(&models, &metadata, &model_file("x/picture.png", &[0xff, 0x00])), Ok(None));
    assert_eq!(snapshot_imfs_file(&models, &metadata, &model_file("x/README", b"text")), Ok(None));
    assert_eq!(snapshot_imfs_file(&models, &metadata, &model_file("x/.lua", b"text")), Ok(None));
    assert_eq!(snapshot_imfs_file(&models, &metadata, &model_file("x/a.LUA", b"text")), Ok(None));
    assert_eq!(snapshot_imfs_file(&models, &metadata, &model_file("x/a.lua.bak", b"text")), Ok(None));
}

#[test]
fn file_named_by_a_sync_point_takes_that_name() {
    let models = DecodedModels::new();
    let mut metadata = SnapshotMetadata::new();
    metadata.insert("x/a.server.lua".to_owned(), "Main".to_owned());
    let named = snapshot_imfs_file(&models, &metadata, &model_file("x/a.server.lua", b"")).unwrap().unwrap();
    assert_eq!(named.name, "Main");
    assert_eq!(named.class_name, "Script");
    let other = snapshot_imfs_file(&models, &metadata, &model_file("x/b.server.lua", b"")).unwrap().unwrap();
    assert_eq!(other.name, "b");
    assert_eq!(
        snapshot_imfs_file(
            &models,
            &{
                let mut names = SnapshotMetadata::new();
                names.insert("x/picture.png".to_owned(), "Picture".to_owned());
                names
            },
            &model_file("x/picture.png", b"")
        ),
        Ok(None)
    );
}

#[test]
fn copy_of_an_instance_equals_it() {
    let mut instance = bare("A", "Folder");
    instance.properties.insert("Flag".to_owned(), PropertyValue::Other { raw: RbxValue::Bool { value: true } });
    instance.properties.insert("Text".to_owned(), PropertyValue::String { value: "t".to_owned() });
    instance.children.push(bare("B", "Part"));
    instance.source_path = Some("a/b".to_owned());
    let copy = instance.clone();
    assert_eq!(copy, instance);
    assert_eq!(
        copy.properties.get("Flag"),
        Some(&PropertyValue::Other { raw: RbxValue::Bool { value: true } })
    );
    assert_eq!(copy.properties.get("Missing"), None);
}
