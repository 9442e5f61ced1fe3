use rojo_snapshot::files::snapshot_csv_file;
use rojo_snapshot::localization::{
    entries_from_rows, entry_from_row, entry_json, find_sole_column, is_fixed, localization_json, table_json,
    LocalizationEntryCsv, LocalizationEntryJson,
};
use rojo_snapshot::{ImfsFile, PropertyValue, SnapshotError};

fn table_file(path: &str, contents: &str) -> ImfsFile {
    ImfsFile { path: path.to_owned(), contents: contents.as_bytes().to_vec() }
}

fn strings(fields: &[&str]) -> Vec<String> {
    fields.iter().map(|field| field.to_string()).collect()
}

#[test]
fn table_row_becomes_json_object() {
    let file = table_file(
        "loc/greetings.csv",
        "key,context,example,source,en,fr\ngreet,ui,,hi,Hi,Salut\n",
    );
    let snapshot = snapshot_csv_file(&file).unwrap().unwrap();
    assert_eq!(snapshot.name, "greetings");
    assert_eq!(snapshot.class_name, "LocalizationTable");
    assert_eq!(snapshot.source_path, Some("loc/greetings.csv".to_owned()));
    assert!(snapshot.children.is_empty());
    let expected = "[{\"key\":\"greet\",\"context\":\"ui\",\"example\":\"\",\"source\":\"hi\",\"values\":{\"en\":\"Hi\",\"fr\":\"Salut\"}}]";
    assert_eq!(
        snapshot.properties.get("Contents"),
        Some(&PropertyValue::String { value: expected.to_owned() })
    );
    let parsed: serde_json::Value = serde_json::from_str(expected).unwrap();
    let object = &parsed[0];
    assert_eq!(object["key"], "greet");
    assert_eq!(object["context"], "ui");
    assert_eq!(object["example"], "");
    assert_eq!(object["source"], "hi");
    assert_eq!(object["values"]["en"], "Hi");
    assert_eq!(object["values"]["fr"], "Salut");
}

#[test]
fn table_with_two_rows_lists_both_in_order() {
    let json = localization_json(b"key,context,example,source\na,b,c,d\ne,f,g,h\n").unwrap();
    assert_eq!(
        json,
        "[{\"key\":\"a\",\"context\":\"b\",\"example\":\"c\",\"source\":\"d\",\"values\":{}},{\"key\":\"e\",\"context\":\"f\",\"example\":\"g\",\"source\":\"h\",\"values\":{}}]"
    );
}

#[test]
fn table_text_is_escaped_as_json() {
    let json = localization_json(b"key,context,example,source,en\nk,,,\"say \"\"hi\"\"\",\"a\\b\nc\"\n").unwrap();
    assert_eq!(
        json,
        "[{\"key\":\"k\",\"context\":\"\",\"example\":\"\",\"source\":\"say \\\"hi\\\"\",\"values\":{\"en\":\"a\\\\b\\nc\"}}]"
    );
    let parsed: serde_json::Value = serde_json::from_str(&json).unwrap();
    assert_eq!(parsed[0]["source"], "say \"hi\"");
    assert_eq!(parsed[0]["values"]["en"], "a\\b\nc");
}

#[test]
fn table_columns_may_come_in_any_order() {
    let json = localization_json(b"fr,source,key,en,example,context\nSalut,hi,greet,Hi,,ui\n").unwrap();
    assert_eq!(
        json,
        "[{\"key\":\"greet\",\"context\":\"ui\",\"example\":\"\",\"source\":\"hi\",\"values\":{\"fr\":\"Salut\",\"en\":\"Hi\"}}]"
    );
}

#[test]
fn empty_table_is_an_empty_array() {
    assert_eq!(localization_json(b""), Some("[]".to_owned()));
    assert_eq!(localization_json(b"key,context,example,source\n"), Some("[]".to_owned()));
    assert_eq!(localization_json(b"whatever,columns\n"), Some("[]".to_owned()));
}

#[test]
fn table_without_a_fixed_column_is_malformed() {
    let file = table_file("loc/broken.csv", "key,context,example,en\na,b,c,d\n");
    assert_eq!(
        snapshot_csv_file(&file),
        Err(SnapshotError::MalformedLocalizationTable { path: "loc/broken.csv".to_owned() })
    );
}

#[test]
fn table_with_a_fixed_column_twice_is_malformed() {
    assert_eq!(localization_json(b"key,key,context,example,source\na,b,c,d,e\n"), None);
}

#[test]
fn table_with_a_short_row_is_malformed() {
    assert_eq!(localization_json(b"key,context,example,source\na,b,c\n"), None);
    assert_eq!(localization_json(b"key,context,example,source\na,b,c,d\ne,f,g,h,i\n"), None);
}

#[test]
fn table_that_is_not_utf8_is_malformed() {
    assert_eq!(localization_json(b"key,context,example,source\na,b,c,\xff\n"), None);
}

#[test]
fn locale_named_twice_keeps_the_later_text_in_the_first_place() {
    let header = strings(&["key", "en", "context", "fr", "example", "en", "source"]);
    let row = strings(&["k", "old", "c", "fr text", "e", "new", "s"]);
    let entry = entry_from_row(&header, &row).unwrap();
    assert_eq!(
        entry,
        LocalizationEntryCsv {
            key: "k".to_owned(),
            context: "c".to_owned(),
            example: "e".to_owned(),
            source: "s".to_owned(),
            values: vec![("en".to_owned(), "new".to_owned()), ("fr".to_owned(), "fr text".to_owned())],
        }
    );
}

#[test]
fn entry_needs_a_row_as_long_as_the_header() {
    let header = strings(&["key", "context", "example", "source"]);
    assert_eq!(entry_from_row(&header, &strings(&["a", "b", "c"])), None);
    assert_eq!(entry_from_row(&header, &strings(&["a", "b", "c", "d", "e"])), None);
    assert!(entry_from_row(&header, &strings(&["a", "b", "c", "d"])).is_some());
}

#[test]
fn column_names_are_matched_exactly() {
    assert_eq!(localization_json(b"Key,Context,Example,Source\na,b,c,d\n"), None);
    assert!(is_fixed("key"));
    assert!(is_fixed("context"));
    assert!(is_fixed("example"));
    assert!(is_fixed("source"));
    assert!(!is_fixed("Key"));
    assert!(!is_fixed("en"));
    assert!(!is_fixed(""));
}

#[test]
fn sole_column_is_found_only_where_it_is_alone() {
    assert_eq!(find_sole_column(&strings(&["a", "b", "c"]), "b"), Some(1));
    assert_eq!(find_sole_column(&strings(&["a", "b", "b"]), "b"), None);
    assert_eq!(find_sole_column(&strings(&["a", "b", "c"]), "d"), None);
    assert_eq!(find_sole_column(&strings(&[]), "a"), None);
}

#[test]
fn rows_after_the_header_become_entries() {
    let rows = vec![
        strings(&["key", "context", "example", "source", "de"]),
        strings(&["a", "b", "c", "d", "e"]),
    ];
    let entries = entries_from_rows(&rows).unwrap();
    assert_eq!(
        entries,
        vec![LocalizationEntryJson {
            key: "a".to_owned(),
            context: "b".to_owned(),
            example: "c".to_owned(),
            source: "d".to_owned(),
            values: vec![("de".to_owned(), "e".to_owned())],
        }]
    );
    assert_eq!(entries_from_rows(&Vec::new()), Some(Vec::new()));
    let broken = vec![strings(&["key"]), strings(&["a"])];
    assert_eq!(entries_from_rows(&broken), None);
}

#[test]
fn to_json_keeps_every_field() {
    let entry = LocalizationEntryCsv {
        key: "k".to_owned(),
        context: "c".to_owned(),
        example: "e".to_owned(),
        source: "s".to_owned(),
        values: vec![("en".to_owned(), "text".to_owned())],
    };
    assert_eq!(
        entry.to_json(),
        LocalizationEntryJson {
            key: "k".to_owned(),
            context: "c".to_owned(),
            example: "e".to_owned(),
            source: "s".to_owned(),
            values: vec![("en".to_owned(), "text".to_owned())],
        }
    );
}

#[test]
fn entry_and_table_are_framed_as_json() {
    let entry = LocalizationEntryJson {
        key: "k".to_owned(),
        context: "c".to_owned(),
        example: "e".to_owned(),
        source: "s".to_owned(),
        values: vec![("en".to_owned(), "x".to_owned()), ("fr".to_owned(), "y".to_owned())],
    };
    assert_eq!(
        entry_json(&entry),
        "{\"key\":\"k\",\"context\":\"c\",\"example\":\"e\",\"source\":\"s\",\"values\":{\"en\":\"x\",\"fr\":\"y\"}}"
    );
    assert_eq!(table_json(&Vec::new()), "[]");
    assert_eq!(
        table_json(&vec![entry]),
        "[{\"key\":\"k\",\"context\":\"c\",\"example\":\"e\",\"source\":\"s\",\"values\":{\"en\":\"x\",\"fr\":\"y\"}}]"
    );
}
