//! A snapshot lifecycle engine for copy-on-write subvolumes.
//!
//! The library models the state and the decisions of a snapshot daemon:
//! snapshot metadata and its persisted format, the identity scheme, the
//! catalogue of eligible subvolumes, the plans of filesystem steps that
//! create, delete and restore snapshots, and the registry that maps a
//! snapshot identity to an externally addressable handle. Mounting,
//! filesystem mutation and transport live outside the library and execute
//! the plans it produces.

use vstd::prelude::*;

pub mod catalog;
pub mod cli;
pub mod codec;
pub mod config;
pub mod id;
pub mod laws;
pub mod metadata;
pub mod paths;
pub mod service;
pub mod snapshot_object;
pub mod store;
pub mod strutil;
pub mod timefmt;
pub mod util;

verus! {

/// The kinds of failure a snapshot operation can surface.
#[derive(Debug, Clone, PartialEq, Eq, Structural)]
pub enum SnapshotError {
    /// The block device backing the root subvolume could not be located.
    DeviceNotFound,
    /// Mounting the root volume failed.
    MountFailed,
    /// Walking the subvolume tree failed.
    SubvolumeEnumerationFailed,
    /// The snapshot identity or its storage directory is absent.
    SnapshotNotFound,
    /// A subvolume clone or delete primitive failed.
    SubvolumeOperationFailed,
    /// A persisted metadata record could not be parsed.
    MetadataCorrupt,
    /// The action lock is already held by another mutating operation.
    Busy,
    /// A caller-supplied identity string is malformed.
    InvalidIdentity,
    /// The configuration was malformed on load or reload.
    ConfigInvalid,
}

/// The user-visible text of each failure.
pub open spec fn spec_error_message(e: SnapshotError) -> Seq<char> {
    match e {
        SnapshotError::DeviceNotFound => "failed to find the root volume device"@,
        SnapshotError::MountFailed => "failed to mount the root volume"@,
        SnapshotError::SubvolumeEnumerationFailed => "failed to enumerate subvolumes"@,
        SnapshotError::SnapshotNotFound => "snapshot does not exist"@,
        SnapshotError::SubvolumeOperationFailed => "a subvolume operation failed"@,
        SnapshotError::MetadataCorrupt => "failed to parse snapshot metadata"@,
        SnapshotError::Busy => "the snapshot service is busy"@,
        SnapshotError::InvalidIdentity => "failed to parse the snapshot identity"@,
        SnapshotError::ConfigInvalid => "failed to parse the configuration"@,
    }
}

impl SnapshotError {
    /// A short, distinguishable description of the failure.
    pub fn message(&self) -> (r: String)
        ensures
            r@ == spec_error_message(*self),
    {
        match self {
            SnapshotError::DeviceNotFound => String::from_str(
                "failed to find the root volume device",
            ),
            SnapshotError::MountFailed => String::from_str("failed to mount the root volume"),
            SnapshotError::SubvolumeEnumerationFailed => String::from_str(
                "failed to enumerate subvolumes",
            ),
            SnapshotError::SnapshotNotFound => String::from_str("snapshot does not exist"),
            SnapshotError::SubvolumeOperationFailed => String::from_str(
                "a subvolume operation failed",
            ),
            SnapshotError::MetadataCorrupt => String::from_str("failed to parse snapshot metadata"),
            SnapshotError::Busy => String::from_str("the snapshot service is busy"),
            SnapshotError::InvalidIdentity => String::from_str(
                "failed to parse the snapshot identity",
            ),
            SnapshotError::ConfigInvalid => String::from_str("failed to parse the configuration"),
        }
    }
}

} // verus!
