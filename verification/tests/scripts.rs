use rojo_snapshot::files::{snapshot_lua_file, snapshot_txt_file};
use rojo_snapshot::text::match_trailing;
use rojo_snapshot::{ImfsFile, PropertyValue, SnapshotError};

fn file(path: &str, contents: &[u8]) -> ImfsFile {
    ImfsFile { path: path.to_owned(), contents: contents.to_vec() }
}

#[test]
fn server_script_is_a_script() {
    let snapshot = snapshot_lua_file(&file("src/foo.server.lua", b"print('hi')")).unwrap().unwrap();
    assert_eq!(snapshot.name, "foo");
    assert_eq!(snapshot.class_name, "Script");
    assert_eq!(
        snapshot.properties.get("Source"),
        Some(&PropertyValue::String { value: "print('hi')".to_owned() })
    );
    assert_eq!(snapshot.source_path, Some("src/foo.server.lua".to_owned()));
    assert!(snapshot.children.is_empty());
    assert_eq!(snapshot.metadata, None);
}

#[test]
fn client_script_is_a_local_script() {
    let snapshot = snapshot_lua_file(&file("src/foo.client.lua", b"")).unwrap().unwrap();
    assert_eq!(snapshot.name, "foo");
    assert_eq!(snapshot.class_name, "LocalScript");
}

#[test]
fn plain_script_is_a_module_script() {
    let snapshot = snapshot_lua_file(&file("src/foo.lua", b"return {}")).unwrap().unwrap();
    assert_eq!(snapshot.name, "foo");
    assert_eq!(snapshot.class_name, "ModuleScript");
}

#[test]
fn script_that_is_not_utf8_is_an_error() {
    let error = snapshot_lua_file(&file("src/foo.lua", &[0x66, 0xff, 0x6f])).unwrap_err();
    match error {
        SnapshotError::Utf8Error { ref inner, ref path } => {
            assert_eq!(path, "src/foo.lua");
            assert!(!inner.is_empty());
        }
        ref other => panic!("unexpected error {:?}", other),
    }
    assert!(error.message().starts_with("Invalid UTF-8: "));
    assert!(error.message().ends_with(" in path src/foo.lua"));
}

#[test]
fn text_file_is_a_string_value() {
    let snapshot = snapshot_txt_file(&file("docs/readme.txt", "hällo".as_bytes())).unwrap().unwrap();
    assert_eq!(snapshot.name, "readme");
    assert_eq!(snapshot.class_name, "StringValue");
    assert_eq!(
        snapshot.properties.get("Value"),
        Some(&PropertyValue::String { value: "hällo".to_owned() })
    );
    assert_eq!(snapshot.source_path, Some("docs/readme.txt".to_owned()));
}

#[test]
fn match_trailing_takes_the_trailer_off() {
    assert_eq!(match_trailing("foo.server.lua", ".server.lua"), Some("foo"));
    assert_eq!(match_trailing("foo.lua", ".server.lua"), None);
    assert_eq!(match_trailing(".server.lua", ".server.lua"), Some(""));
    assert_eq!(match_trailing("lua", ".server.lua"), None);
    assert_eq!(match_trailing("héllo.lua", ".lua"), Some("héllo"));
}
