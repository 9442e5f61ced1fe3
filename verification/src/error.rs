//! What can go wrong while a snapshot is made.

use vstd::prelude::*;
use vstd::string::StringExecFns;

verus! {

/// Why a projection stopped. Each error ends the whole projection.
#[derive(Debug, PartialEq, Eq)]
pub enum SnapshotError {
    /// The filesystem has nothing at this path.
    DidNotExist(String),
    /// A file that has to hold text does not hold UTF-8.
    Utf8Error { inner: String, path: String },
    /// The codec refused an XML model file.
    XmlModelDecodeError { inner: String, path: String },
    /// The codec refused a binary model file.
    BinaryModelDecodeError { inner: String, path: String },
    /// A localization table lacks one of its fixed columns, names one twice,
    /// or holds a row that does not fit its header.
    MalformedLocalizationTable { path: String },
    /// A model file holds more than one top-level instance.
    MultipleModelRoots { path: String },
    /// The projection reached a model file that nobody has decoded for it.
    /// Once the file is decoded, the projection can be run again.
    ModelNotDecoded { path: String },
}

/// What a `SnapshotError` stands for.
pub enum SnapshotErrorView {
    DidNotExist(Seq<char>),
    Utf8Error { inner: Seq<char>, path: Seq<char> },
    XmlModelDecodeError { inner: Seq<char>, path: Seq<char> },
    BinaryModelDecodeError { inner: Seq<char>, path: Seq<char> },
    MalformedLocalizationTable { path: Seq<char> },
    MultipleModelRoots { path: Seq<char> },
    ModelNotDecoded { path: Seq<char> },
}

impl View for SnapshotError {
    type V = SnapshotErrorView;

    open spec fn view(&self) -> SnapshotErrorView {
        match self {
            SnapshotError::DidNotExist(path) => SnapshotErrorView::DidNotExist(path@),
            SnapshotError::Utf8Error { inner, path } => SnapshotErrorView::Utf8Error {
                inner: inner@,
                path: path@,
            },
            SnapshotError::XmlModelDecodeError { inner, path } => SnapshotErrorView::XmlModelDecodeError {
                inner: inner@,
                path: path@,
            },
            SnapshotError::BinaryModelDecodeError { inner, path } => SnapshotErrorView::BinaryModelDecodeError {
                inner: inner@,
                path: path@,
            },
            SnapshotError::MalformedLocalizationTable { path } => SnapshotErrorView::MalformedLocalizationTable {
                path: path@,
            },
            SnapshotError::MultipleModelRoots { path } => SnapshotErrorView::MultipleModelRoots {
                path: path@,
            },
            SnapshotError::ModelNotDecoded { path } => SnapshotErrorView::ModelNotDecoded { path: path@ },
        }
    }
}

impl SnapshotErrorView {
    /// The sentence that tells a reader of this error.
    pub open spec fn message(self) -> Seq<char> {
        match self {
            SnapshotErrorView::DidNotExist(path) => "Path did not exist: "@ + path,
            SnapshotErrorView::Utf8Error { inner, path } => "Invalid UTF-8: "@ + inner + " in path "@
                + path,
            SnapshotErrorView::XmlModelDecodeError { inner, path } => "Malformed rbxmx model: "@ + inner
                + " in path "@ + path,
            SnapshotErrorView::BinaryModelDecodeError { inner, path } => "Malformed rbxm model: "@ + inner
                + " in path "@ + path,
            SnapshotErrorView::MalformedLocalizationTable { path } => "Malformed localization table in path "@
                + path,
            SnapshotErrorView::MultipleModelRoots { path } => "Model file with more than one root in path "@
                + path,
            SnapshotErrorView::ModelNotDecoded { path } => "Model file was not decoded: "@ + path,
        }
    }
}

/// `lead`, `what`, `" in path "` and `path` in a row.
fn in_path(lead: &str, what: &str, path: &str) -> (out: String)
    ensures
        out@ == lead@ + what@ + " in path "@ + path@,
{
    let mut out = lead.to_owned();
    out.append(what);
    out.append(" in path ");
    out.append(path);
    out
}

/// `lead` and then `path`.
fn with_path(lead: &str, path: &str) -> (out: String)
    ensures
        out@ == lead@ + path@,
{
    let mut out = lead.to_owned();
    out.append(path);
    out
}

impl SnapshotError {
    /// The error as a sentence.
    pub fn message(&self) -> (out: String)
        ensures
            out@ == self@.message(),
    {
        match self {
            SnapshotError::DidNotExist(path) => with_path("Path did not exist: ", path.as_str()),
            SnapshotError::Utf8Error { inner, path } => in_path(
                "Invalid UTF-8: ",
                inner.as_str(),
                path.as_str(),
            ),
            SnapshotError::XmlModelDecodeError { inner, path } => in_path(
                "Malformed rbxmx model: ",
                inner.as_str(),
                path.as_str(),
            ),
            SnapshotError::BinaryModelDecodeError { inner, path } => in_path(
                "Malformed rbxm model: ",
                inner.as_str(),
                path.as_str(),
            ),
            SnapshotError::MalformedLocalizationTable { path } => with_path(
                "Malformed localization table in path ",
                path.as_str(),
            ),
            SnapshotError::MultipleModelRoots { path } => with_path(
                "Model file with more than one root in path ",
                path.as_str(),
            ),
            SnapshotError::ModelNotDecoded { path } => with_path(
                "Model file was not decoded: ",
                path.as_str(),
            ),
        }
    }
}

} // verus!
