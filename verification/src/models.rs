//! Model files in decoded form.
//!
//! A model file holds a serialized tree of instances. Decoding it is the work
//! of a codec outside this library; what the codec made of a file is kept
//! here, by the file's path, for the projection to read.

use vstd::prelude::*;
use crate::error::SnapshotErrorView;
use crate::instance::{instances_view, InstanceView, RbxSnapshotInstance};
use crate::value::{entries_view, find_entry};

verus! {

/// What a codec made of one model file: the instances at its top level, in
/// their order, or the reason why it could not be read.
#[derive(Debug, PartialEq)]
pub enum ModelOutcome {
    Decoded { roots: Vec<RbxSnapshotInstance> },
    Failed { cause: String },
}

/// What a `ModelOutcome` stands for.
pub enum ModelOutcomeView {
    Decoded { roots: Seq<InstanceView> },
    Failed { cause: Seq<char> },
}

impl View for ModelOutcome {
    type V = ModelOutcomeView;

    open spec fn view(&self) -> ModelOutcomeView {
        match self {
            ModelOutcome::Decoded { roots } => ModelOutcomeView::Decoded { roots: instances_view(roots@) },
            ModelOutcome::Failed { cause } => ModelOutcomeView::Failed { cause: cause@ },
        }
    }
}

/// The two formats in which a model file comes.
#[derive(Debug, Clone, Copy, PartialEq, Eq)]
pub enum ModelFormat {
    Xml,
    Binary,
}

/// The decoded model files, by path.
#[derive(Debug, PartialEq)]
pub struct DecodedModels {
    pub entries: Vec<(String, ModelOutcome)>,
}

impl View for DecodedModels {
    type V = Map<Seq<char>, ModelOutcomeView>;

    open spec fn view(&self) -> Map<Seq<char>, ModelOutcomeView> {
        entries_view(self.entries@)
    }
}

impl DecodedModels {
    /// No file is decoded yet.
    pub fn new() -> (models: DecodedModels)
        ensures
            models@ == Map::<Seq<char>, ModelOutcomeView>::empty(),
    {
        DecodedModels { entries: Vec::new() }
    }

    /// Records what the codec made of the file at `path`.
    pub fn insert(&mut self, path: String, outcome: ModelOutcome)
        ensures
            final(self)@ == old(self)@.insert(path@, outcome@),
    {
        self.entries.push((path, outcome));
        proof {
            assert(self.entries@.drop_last() == old(self).entries@);
        }
    }

    /// What the codec made of the file at `path`, if it was decoded.
    pub fn get(&self, path: &str) -> (found: Option<&ModelOutcome>)
        ensures
            match found {
                Some(outcome) => self@.contains_key(path@) && self@[path@] == outcome@,
                None => !self@.contains_key(path@),
            },
    {
        find_entry(&self.entries, path)
    }
}

/// The error that tells that the codec of `format` refused the file at
/// `path`.
pub open spec fn decode_error(format: ModelFormat, cause: Seq<char>, path: Seq<char>) -> SnapshotErrorView {
    match format {
        ModelFormat::Xml => SnapshotErrorView::XmlModelDecodeError { inner: cause, path },
        ModelFormat::Binary => SnapshotErrorView::BinaryModelDecodeError { inner: cause, path },
    }
}

/// The instance that a model file gives, from what the codec made of it. A
/// file that was not decoded, or that the codec refused, is an error. A file
/// without instances gives none. A file with one instance gives it, under
/// `name`, whatever name the file itself gave it. A file with more than one
/// is an error.
pub open spec fn spec_model_snapshot(
    outcome: Option<ModelOutcomeView>,
    format: ModelFormat,
    name: Seq<char>,
    path: Seq<char>,
) -> Result<Option<InstanceView>, SnapshotErrorView> {
    match outcome {
        None => Err(SnapshotErrorView::ModelNotDecoded { path }),
        Some(ModelOutcomeView::Failed { cause }) => Err(decode_error(format, cause, path)),
        Some(ModelOutcomeView::Decoded { roots }) => if roots.len() == 0 {
            Ok(None)
        } else if roots.len() == 1 {
            Ok(Some(roots[0].named(name)))
        } else {
            Err(SnapshotErrorView::MultipleModelRoots { path })
        },
    }
}

} // verus!
