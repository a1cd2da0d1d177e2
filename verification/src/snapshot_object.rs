//! The per-snapshot façade: the derived read-only properties of one
//! snapshot and its two writable labels.
//!
//! Reading a label that is unset yields the empty string; writing a
//! blank value clears the label. Every label write changes the record,
//! and the updated persisted text is handed back to be written out at
//! once.

use vstd::prelude::*;

use crate::codec::encode_metadata;
use crate::codec::spec_encode;
use crate::id::spec_format_id;
use crate::metadata::SnapshotMetadata;
use crate::metadata::label_view;
use crate::metadata::normalize_label;
use crate::metadata::spec_norm_label;
use crate::paths::metadata_file_path;
use crate::paths::spec_metadata_file;
use crate::strutil::clone_string_vec;

verus! {

/// What reading a label yields: its text, or the empty string when it
/// is unset.
pub open spec fn spec_label_text(l: Option<Seq<char>>) -> Seq<char> {
    match l {
        Some(s) => s,
        None => Seq::empty(),
    }
}

/// The externally addressable façade of one snapshot.
pub struct SnapshotObject {
    pub metadata: SnapshotMetadata,
}

impl SnapshotObject {
    pub fn new(metadata: SnapshotMetadata) -> (r: SnapshotObject)
        ensures
            r.metadata == metadata,
    {
        SnapshotObject { metadata }
    }

    /// The creation time, in the fixed textual standard.
    pub fn creation_time(&self) -> (r: String)
        ensures
            r@ == self.metadata.creation_time@,
    {
        self.metadata.creation_time.clone()
    }

    /// The name, or the empty string when none is set.
    pub fn name(&self) -> (r: String)
        ensures
            r@ == spec_label_text(label_view(&self.metadata.name)),
    {
        match &self.metadata.name {
            Some(n) => n.clone(),
            None => String::new(),
        }
    }

    /// Sets the name: blank input clears it. The returned pair is the
    /// path and the full text of the updated metadata record, to be
    /// persisted immediately.
    pub fn set_name(&mut self, value: &str, snapshot_path: &str) -> (r: (String, String))
        ensures
            label_view(&final(self).metadata.name) == spec_norm_label(Some(value@)),
            final(self).metadata.uuid == old(self).metadata.uuid,
            final(self).metadata.description == old(self).metadata.description,
            final(self).metadata.creation_time == old(self).metadata.creation_time,
            final(self).metadata.subvolumes == old(self).metadata.subvolumes,
            old(self).metadata.wf() ==> final(self).metadata.wf(),
            r.0@ == spec_metadata_file(snapshot_path@, final(self).metadata.uuid.value),
            r.1@ == spec_encode(&final(self).metadata),
    {
        self.metadata.name = normalize_label(value);
        let path = metadata_file_path(snapshot_path, &self.metadata.uuid);
        let contents = encode_metadata(&self.metadata);
        (path, contents)
    }

    /// The description, or the empty string when none is set.
    pub fn description(&self) -> (r: String)
        ensures
            r@ == spec_label_text(label_view(&self.metadata.description)),
    {
        match &self.metadata.description {
            Some(d) => d.clone(),
            None => String::new(),
        }
    }

    /// Sets the description: blank input clears it. The returned pair
    /// is the path and the full text of the updated metadata record,
    /// to be persisted immediately.
    pub fn set_description(&mut self, value: &str, snapshot_path: &str) -> (r: (String, String))
        ensures
            label_view(&final(self).metadata.description) == spec_norm_label(Some(value@)),
            final(self).metadata.uuid == old(self).metadata.uuid,
            final(self).metadata.name == old(self).metadata.name,
            final(self).metadata.creation_time == old(self).metadata.creation_time,
            final(self).metadata.subvolumes == old(self).metadata.subvolumes,
            old(self).metadata.wf() ==> final(self).metadata.wf(),
            r.0@ == spec_metadata_file(snapshot_path@, final(self).metadata.uuid.value),
            r.1@ == spec_encode(&final(self).metadata),
    {
        self.metadata.description = normalize_label(value);
        let path = metadata_file_path(snapshot_path, &self.metadata.uuid);
        let contents = encode_metadata(&self.metadata);
        (path, contents)
    }

    /// The captured subvolume paths, in capture order.
    pub fn subvolumes(&self) -> (r: Vec<String>)
        ensures
            r@ == self.metadata.subvolumes@,
    {
        clone_string_vec(&self.metadata.subvolumes)
    }

    /// The identity, in its hyphenated textual form.
    pub fn uuid(&self) -> (r: String)
        ensures
            r@ == spec_format_id(self.metadata.uuid.value),
    {
        self.metadata.uuid.format()
    }
}

} // verus!
