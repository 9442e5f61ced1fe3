//! Projection of a project manifest and a virtual filesystem into a snapshot
//! tree of instances.
//!
//! The manifest declares instances or points at paths of the filesystem; the
//! filesystem holds scripts, text, localization tables and model files. The
//! projection merges the two into one tree of instances, see `snapshot`.
//!
//! Model files are decoded by codecs that this library does not call. What a
//! codec made of a file is handed in, see `models`. A projection that comes
//! across a model file without it stops with
//! `SnapshotError::ModelNotDecoded` and can be run again once the file is
//! decoded.
//!
//! `laws` states what holds of every projection.

pub mod error;
pub mod files;
pub mod imfs;
pub mod instance;
pub mod laws;
pub mod localization;
pub mod metadata;
pub mod models;
pub mod project;
pub mod snapshot;
pub mod text;
pub mod value;

pub use crate::error::SnapshotError;
pub use crate::files::SnapshotResult;
pub use crate::imfs::{Imfs, ImfsDirectory, ImfsFile, ImfsItem};
pub use crate::instance::{InstanceProjectNodeMetadata, RbxSnapshotInstance};
pub use crate::metadata::SnapshotMetadata;
pub use crate::models::{DecodedModels, ModelFormat, ModelOutcome};
pub use crate::project::{InstanceProjectNode, Project, ProjectNode, SyncPointProjectNode};
pub use crate::snapshot::{snapshot_imfs_path, snapshot_project_tree};
pub use crate::value::{Properties, PropertyValue};
