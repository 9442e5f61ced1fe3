//! From one file of the filesystem to the instance it stands for.
//!
//! The extension of a file decides how it is read: `lua` as a script, `txt`
//! as a text value, `csv` as a localization table, `rbxmx` and `rbxm` as a
//! model. A file with another extension, or with none, stands for no
//! instance.

use vstd::prelude::*;
use vstd::utf8::*;
use crate::error::{SnapshotError, SnapshotErrorView};
use crate::imfs::{ImfsFile, ImfsFileView};
use crate::instance::{InstanceView, RbxSnapshotInstance};
use crate::localization::{localization_json, spec_localization_json};
use crate::metadata::SnapshotMetadata;
use crate::models::{spec_model_snapshot, DecodedModels, ModelFormat, ModelOutcome, ModelOutcomeView};
use crate::text::{
    extension,
    file_name,
    file_stem,
    match_trailing,
    spec_extension,
    spec_file_name,
    spec_file_stem,
    spec_match_trailing,
    str_equal,
};
use crate::value::{Properties, PropertyValue, PropertyValueView};

verus! {

/// What a projection gives: an instance, no instance, or an error.
pub type SnapshotResult = Result<Option<RbxSnapshotInstance>, SnapshotError>;

/// What a `SnapshotResult` stands for.
pub type SnapshotView = Result<Option<InstanceView>, SnapshotErrorView>;

/// What a `SnapshotResult` stands for.
pub open spec fn result_view(result: SnapshotResult) -> SnapshotView {
    match result {
        Ok(Some(instance)) => Ok(Some(instance@)),
        Ok(None) => Ok(None),
        Err(error) => Err(error@),
    }
}

/// What the standard library says of bytes that are not UTF-8, as a sentence.
pub uninterp spec fn utf8_error_text(bytes: Seq<u8>) -> Seq<char>;

/// Reads `bytes` as text with `std::str::from_utf8`: the text that the bytes
/// encode where they are UTF-8, and else the sentence that the error of the
/// standard library prints.
#[verifier::external_body]
fn decode_text(bytes: &[u8]) -> (text: Result<&str, String>)
    ensures
        match text {
            Ok(decoded) => valid_utf8(bytes@) && decoded@ == decode_utf8(bytes@),
            Err(cause) => !valid_utf8(bytes@) && cause@ == utf8_error_text(bytes@),
        },
{
    std::str::from_utf8(bytes).map_err(|error| format!("{}", error))
}

/// An instance without children that was read from the file at `path`, with
/// one property that holds text.
pub open spec fn text_instance(
    name: Seq<char>,
    class_name: Seq<char>,
    property: Seq<char>,
    text: Seq<char>,
    path: Seq<char>,
) -> InstanceView {
    InstanceView {
        name,
        class_name,
        properties: Map::empty().insert(property, PropertyValueView::String { value: text }),
        children: Seq::empty(),
        source_path: Some(path),
        metadata: None,
    }
}

/// The name of the instance that a script file stands for: the file name
/// without `.server.lua` or `.client.lua` where it ends so, and else without
/// its extension.
pub open spec fn script_name(path: Seq<char>) -> Seq<char> {
    let name = spec_file_name(path);
    match spec_match_trailing(name, ".server.lua"@) {
        Some(rest) => rest,
        None => match spec_match_trailing(name, ".client.lua"@) {
            Some(rest) => rest,
            None => spec_file_stem(path),
        },
    }
}

/// The class of the instance that a script file stands for.
pub open spec fn script_class(path: Seq<char>) -> Seq<char> {
    let name = spec_file_name(path);
    if spec_match_trailing(name, ".server.lua"@) is Some {
        "Script"@
    } else if spec_match_trailing(name, ".client.lua"@) is Some {
        "LocalScript"@
    } else {
        "ModuleScript"@
    }
}

/// The instance that stands for a file that holds text: an error where the
/// bytes are not UTF-8, and else an instance with the text as a property.
pub open spec fn spec_text_file(
    file: ImfsFileView,
    name: Seq<char>,
    class_name: Seq<char>,
    property: Seq<char>,
) -> SnapshotView {
    if valid_utf8(file.contents) {
        Ok(Some(text_instance(name, class_name, property, decode_utf8(file.contents), file.path)))
    } else {
        Err(SnapshotErrorView::Utf8Error { inner: utf8_error_text(file.contents), path: file.path })
    }
}

/// The instance that a script file stands for.
pub open spec fn spec_lua_file(file: ImfsFileView) -> SnapshotView {
    spec_text_file(file, script_name(file.path), script_class(file.path), "Source"@)
}

/// The instance that a text file stands for.
pub open spec fn spec_txt_file(file: ImfsFileView) -> SnapshotView {
    spec_text_file(file, spec_file_stem(file.path), "StringValue"@, "Value"@)
}

/// The instance that a localization table stands for.
pub open spec fn spec_csv_file(file: ImfsFileView) -> SnapshotView {
    match spec_localization_json(file.contents) {
        Some(json) => Ok(
            Some(
                text_instance(spec_file_stem(file.path), "LocalizationTable"@, "Contents"@, json, file.path),
            ),
        ),
        None => Err(SnapshotErrorView::MalformedLocalizationTable { path: file.path }),
    }
}

/// What `models` holds for `path`.
pub open spec fn decoded_model(models: Map<Seq<char>, ModelOutcomeView>, path: Seq<char>) -> Option<
    ModelOutcomeView,
> {
    if models.contains_key(path) {
        Some(models[path])
    } else {
        None
    }
}

/// The instance that a model file stands for.
pub open spec fn spec_model_file(
    models: Map<Seq<char>, ModelOutcomeView>,
    file: ImfsFileView,
    format: ModelFormat,
) -> SnapshotView {
    spec_model_snapshot(decoded_model(models, file.path), format, spec_file_stem(file.path), file.path)
}

/// The instance that a file stands for by its extension, before any sync
/// point has a say.
pub open spec fn spec_decoded_file(models: Map<Seq<char>, ModelOutcomeView>, file: ImfsFileView) -> SnapshotView {
    match spec_extension(file.path) {
        Some(ext) => if ext == "lua"@ {
            spec_lua_file(file)
        } else if ext == "csv"@ {
            spec_csv_file(file)
        } else if ext == "txt"@ {
            spec_txt_file(file)
        } else if ext == "rbxmx"@ {
            spec_model_file(models, file, ModelFormat::Xml)
        } else if ext == "rbxm"@ {
            spec_model_file(models, file, ModelFormat::Binary)
        } else {
            Ok(None)
        },
        None => Ok(None),
    }
}

/// `snapshot` under the name that a sync point gave to `path`, where one
/// did.
pub open spec fn with_sync_point_name(
    snapshot: SnapshotView,
    names: Map<Seq<char>, Seq<char>>,
    path: Seq<char>,
) -> SnapshotView {
    match snapshot {
        Ok(Some(instance)) => if names.contains_key(path) {
            Ok(Some(instance.named(names[path])))
        } else {
            Ok(Some(instance))
        },
        other => other,
    }
}

/// The instance that a file stands for.
pub open spec fn spec_file(
    models: Map<Seq<char>, ModelOutcomeView>,
    names: Map<Seq<char>, Seq<char>>,
    file: ImfsFileView,
) -> SnapshotView {
    with_sync_point_name(spec_decoded_file(models, file), names, file.path)
}

/// An instance without children for the file at `path`, with `text` as its
/// one property.
fn make_text_instance(name: &str, class_name: &str, property: &str, text: String, path: &str) -> (instance:
    RbxSnapshotInstance)
    ensures
        instance@ == text_instance(name@, class_name@, property@, text@, path@),
{
    let mut properties = Properties::new();
    properties.insert(property.to_owned(), PropertyValue::String { value: text });
    let instance = RbxSnapshotInstance {
        name: name.to_owned(),
        class_name: class_name.to_owned(),
        properties,
        children: Vec::new(),
        source_path: Some(path.to_owned()),
        metadata: None,
    };
    assert(instance@.children =~= Seq::empty());
    instance
}

/// Reads a file as text and makes it the one property of an instance.
fn snapshot_text_file(file: &ImfsFile, name: &str, class_name: &str, property: &str) -> (result:
    SnapshotResult)
    ensures
        result_view(result) == spec_text_file(file@, name@, class_name@, property@),
{
    match decode_text(file.contents.as_slice()) {
        Ok(text) => Ok(
            Some(make_text_instance(name, class_name, property, text.to_owned(), file.path.as_str())),
        ),
        Err(cause) => Err(SnapshotError::Utf8Error { inner: cause, path: file.path.clone() }),
    }
}

/// Reads a script. Its class follows from the end of its file name:
/// `Script` for `.server.lua`, `LocalScript` for `.client.lua`, and
/// `ModuleScript` for the rest. Its text becomes the property `Source`.
pub fn snapshot_lua_file(file: &ImfsFile) -> (result: SnapshotResult)
    ensures
        result_view(result) == spec_lua_file(file@),
{
    let name = file_name(file.path.as_str());
    match match_trailing(name, ".server.lua") {
        Some(rest) => snapshot_text_file(file, rest, "Script", "Source"),
        None => match match_trailing(name, ".client.lua") {
            Some(rest) => snapshot_text_file(file, rest, "LocalScript", "Source"),
            None => snapshot_text_file(file, file_stem(file.path.as_str()), "ModuleScript", "Source"),
        },
    }
}

/// Reads a text file into a `StringValue`, named after the file, with the
/// text as its property `Value`.
pub fn snapshot_txt_file(file: &ImfsFile) -> (result: SnapshotResult)
    ensures
        result_view(result) == spec_txt_file(file@),
{
    snapshot_text_file(file, file_stem(file.path.as_str()), "StringValue", "Value")
}

/// Reads a localization table into a `LocalizationTable`, named after the
/// file, with the table as JSON in its property `Contents`.
pub fn snapshot_csv_file(file: &ImfsFile) -> (result: SnapshotResult)
    ensures
        result_view(result) == spec_csv_file(file@),
{
    match localization_json(file.contents.as_slice()) {
        Some(json) => Ok(
            Some(
                make_text_instance(
                    file_stem(file.path.as_str()),
                    "LocalizationTable",
                    "Contents",
                    json,
                    file.path.as_str(),
                ),
            ),
        ),
        None => Err(SnapshotError::MalformedLocalizationTable { path: file.path.clone() }),
    }
}

/// The instance of a model file, from what the codec made of the file.
pub fn snapshot_model_file(file: &ImfsFile, models: &DecodedModels, format: ModelFormat) -> (result:
    SnapshotResult)
    ensures
        result_view(result) == spec_model_file(models@, file@, format),
{
    match models.get(file.path.as_str()) {
        None => Err(SnapshotError::ModelNotDecoded { path: file.path.clone() }),
        Some(ModelOutcome::Failed { cause }) => match format {
            ModelFormat::Xml => Err(
                SnapshotError::XmlModelDecodeError { inner: cause.clone(), path: file.path.clone() },
            ),
            ModelFormat::Binary => Err(
                SnapshotError::BinaryModelDecodeError { inner: cause.clone(), path: file.path.clone() },
            ),
        },
        Some(ModelOutcome::Decoded { roots }) => if roots.len() == 0 {
            Ok(None)
        } else if roots.len() == 1 {
            let mut snapshot = roots[0].clone();
            snapshot.name = file_stem(file.path.as_str()).to_owned();
            assert(snapshot@.children =~= roots[0]@.children);
            Ok(Some(snapshot))
        } else {
            Err(SnapshotError::MultipleModelRoots { path: file.path.clone() })
        },
    }
}

/// Reads an XML model file: no instance where the file holds none, its one
/// instance under the name of the file, and an error where it holds more.
pub fn snapshot_xml_model_file(file: &ImfsFile, models: &DecodedModels) -> (result: SnapshotResult)
    ensures
        result_view(result) == spec_model_file(models@, file@, ModelFormat::Xml),
{
    snapshot_model_file(file, models, ModelFormat::Xml)
}

/// Reads a binary model file: no instance where the file holds none, its one
/// instance under the name of the file, and an error where it holds more.
pub fn snapshot_binary_model_file(file: &ImfsFile, models: &DecodedModels) -> (result: SnapshotResult)
    ensures
        result_view(result) == spec_model_file(models@, file@, ModelFormat::Binary),
{
    snapshot_model_file(file, models, ModelFormat::Binary)
}

/// Reads the file by its extension.
fn snapshot_decoded_file(models: &DecodedModels, file: &ImfsFile) -> (result: SnapshotResult)
    ensures
        result_view(result) == spec_decoded_file(models@, file@),
{
    match extension(file.path.as_str()) {
        Some(ext) => if str_equal(ext, "lua") {
            snapshot_lua_file(file)
        } else if str_equal(ext, "csv") {
            snapshot_csv_file(file)
        } else if str_equal(ext, "txt") {
            snapshot_txt_file(file)
        } else if str_equal(ext, "rbxmx") {
            snapshot_xml_model_file(file, models)
        } else if str_equal(ext, "rbxm") {
            snapshot_binary_model_file(file, models)
        } else {
            Ok(None)
        },
        None => Ok(None),
    }
}

/// The instance that a file stands for: what its extension makes of it,
/// under the name that a sync point gave to its path, where one did.
pub fn snapshot_imfs_file(models: &DecodedModels, metadata: &SnapshotMetadata, file: &ImfsFile) -> (result:
    SnapshotResult)
    ensures
        result_view(result) == spec_file(models@, metadata@, file@),
{
    match snapshot_decoded_file(models, file) {
        Ok(Some(snapshot)) => match metadata.get(file.path.as_str()) {
            Some(actual_name) => {
                let mut renamed = snapshot;
                renamed.name = actual_name.clone();
                assert(renamed@.children =~= snapshot@.children);
                Ok(Some(renamed))
            },
            None => Ok(Some(snapshot)),
        },
        other => other,
    }
}

} // verus!
