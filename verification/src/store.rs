//! The snapshot store: what each mutating operation does to the volume.
//!
//! The store's decisions are computed here as plans: ordered lists of
//! filesystem steps against paths relative to the mounted root. The
//! executor performs them in order and stops at the first failure;
//! create writes its metadata record last, so a record on disk means
//! every clone before it succeeded.

use vstd::prelude::*;

use crate::SnapshotError;
use crate::catalog::list_subvolumes_eligible_for_snapshotting;
use crate::catalog::needs_enumeration;
use crate::catalog::resolve_subvolumes;
use crate::catalog::spec_excluded;
use crate::codec::spec_encode;
use crate::codec::encode_metadata;
use crate::config::Config;
use crate::id::SnapshotId;
use crate::id::spec_format_id;
use crate::id::has_v4_layout;
use crate::metadata::SnapshotMetadata;
use crate::metadata::label_view;
use crate::metadata::spec_norm_label;
use crate::paths::spec_snapshot_dir;
use crate::paths::spec_metadata_file;
use crate::paths::spec_flat_name;
use crate::paths::snapshot_dir_path;
use crate::paths::metadata_file_path;
use crate::paths::flatten_subvolume_name;
use crate::strutil::clone_string_vec;

verus! {

broadcast use vstd::std_specs::vec::axiom_spec_len;

/// One filesystem step of a plan, on paths relative to the mounted
/// root volume.
#[derive(Debug, Clone, PartialEq, Eq)]
pub enum FsStep {
    /// Create this directory, with its parents, if it is absent.
    CreateDir { path: String },
    /// Take a copy-on-write snapshot of the subvolume at `source`
    /// into `dest`.
    SnapshotSubvolume { source: String, dest: String, read_only: bool },
    /// Move the subvolume at `source` to `dest`.
    MoveSubvolume { source: String, dest: String },
    /// Write `contents` to the file at `path`, replacing it.
    WriteFile { path: String, contents: String },
    /// Destroy the subvolume at `path`.
    DeleteSubvolume { path: String },
    /// Remove the directory at `path` and anything left in it.
    RemoveDirTree { path: String },
    /// Remove the file at `path`.
    RemoveFile { path: String },
}

/// The mathematical shadow of one step.
#[verifier::ext_equal]
pub enum SpecStep {
    CreateDir { path: Seq<char> },
    SnapshotSubvolume { source: Seq<char>, dest: Seq<char>, read_only: bool },
    MoveSubvolume { source: Seq<char>, dest: Seq<char> },
    WriteFile { path: Seq<char>, contents: Seq<char> },
    DeleteSubvolume { path: Seq<char> },
    RemoveDirTree { path: Seq<char> },
    RemoveFile { path: Seq<char> },
}

/// What a step is, over views.
pub open spec fn step_view(s: FsStep) -> SpecStep {
    match s {
        FsStep::CreateDir { path } => SpecStep::CreateDir { path: path@ },
        FsStep::SnapshotSubvolume { source, dest, read_only } => SpecStep::SnapshotSubvolume {
            source: source@,
            dest: dest@,
            read_only,
        },
        FsStep::MoveSubvolume { source, dest } => SpecStep::MoveSubvolume {
            source: source@,
            dest: dest@,
        },
        FsStep::WriteFile { path, contents } => SpecStep::WriteFile {
            path: path@,
            contents: contents@,
        },
        FsStep::DeleteSubvolume { path } => SpecStep::DeleteSubvolume { path: path@ },
        FsStep::RemoveDirTree { path } => SpecStep::RemoveDirTree { path: path@ },
        FsStep::RemoveFile { path } => SpecStep::RemoveFile { path: path@ },
    }
}

/// What a plan is, over views.
pub open spec fn plan_view(v: Seq<FsStep>) -> Seq<SpecStep> {
    Seq::new(v.len(), |i: int| step_view(v[i]))
}

/// The destination of the clone of `sub` inside the directory `dir`.
pub open spec fn spec_clone_dest(dir: Seq<char>, sub: Seq<char>) -> Seq<char> {
    dir + seq!['/'] + spec_flat_name(sub)
}

/// The plan of a create: make the snapshot directory, clone every
/// captured subvolume read-only into it in list order, and only then
/// write the metadata record.
pub open spec fn spec_create_plan(snapshot_path: Seq<char>, m: &SnapshotMetadata) -> Seq<
    SpecStep,
> {
    let dir = spec_snapshot_dir(snapshot_path, m.uuid.value);
    seq![SpecStep::CreateDir { path: dir }] + Seq::new(
        m.subvolumes.deep_view().len(),
        |i: int|
            SpecStep::SnapshotSubvolume {
                source: m.subvolumes.deep_view()[i],
                dest: spec_clone_dest(dir, m.subvolumes.deep_view()[i]),
                read_only: true,
            },
    ) + seq![
        SpecStep::WriteFile {
            path: spec_metadata_file(snapshot_path, m.uuid.value),
            contents: spec_encode(m),
        },
    ]
}

fn clone_dest(dir: &str, sub: &str) -> (r: String)
    ensures
        r@ == spec_clone_dest(dir@, sub@),
{
    let mut r = String::from_str(dir);
    r.push('/');
    let flat = flatten_subvolume_name(sub);
    r.append(flat.as_str());
    proof {
        assert(r@ =~= spec_clone_dest(dir@, sub@));
    }
    r
}

/// Computes the steps that create the snapshot described by `m` under
/// the given storage path.
pub fn create_snapshot_plan(snapshot_path: &str, m: &SnapshotMetadata) -> (r: Vec<FsStep>)
    ensures
        plan_view(r@) == spec_create_plan(snapshot_path@, m),
{
    let dir = snapshot_dir_path(snapshot_path, &m.uuid);
    let mut r: Vec<FsStep> = Vec::new();
    r.push(FsStep::CreateDir { path: dir.clone() });
    let mut i: usize = 0;
    while i < m.subvolumes.len()
        invariant
            i <= m.subvolumes@.len(),
            m.subvolumes.deep_view().len() == m.subvolumes@.len(),
            dir@ == spec_snapshot_dir(snapshot_path@, m.uuid.value),
            r@.len() == i + 1,
            step_view(r@[0]) == (SpecStep::CreateDir { path: dir@ }),
            forall|k: int|
                1 <= k < i + 1 ==> step_view(#[trigger] r@[k]) == (SpecStep::SnapshotSubvolume {
                    source: m.subvolumes.deep_view()[k - 1],
                    dest: spec_clone_dest(dir@, m.subvolumes.deep_view()[k - 1]),
                    read_only: true,
                }),
        decreases m.subvolumes@.len() - i,
    {
        let sub = &m.subvolumes[i];
        r.push(
            FsStep::SnapshotSubvolume {
                source: sub.clone(),
                dest: clone_dest(dir.as_str(), sub.as_str()),
                read_only: true,
            },
        );
        proof {
            assert(m.subvolumes.deep_view()[i as int] == m.subvolumes@[i as int]@);
        }
        i = i + 1;
    }
    let contents = encode_metadata(m);
    r.push(FsStep::WriteFile { path: metadata_file_path(snapshot_path, &m.uuid), contents });
    proof {
        assert(plan_view(r@) =~~= spec_create_plan(snapshot_path@, m));
    }
    r
}

/// The whole decision of a create: resolves the captured subvolume
/// set with the documented precedence — the explicit request, then the
/// configured allow-list, then everything eligible among the
/// enumerated subvolumes — builds the fresh record, and plans the
/// filesystem steps that realize it.
///
/// `enumerated` is the subvolume tree walked beneath the root; it is
/// consulted only when neither a request nor an allow-list is present.
pub fn create_snapshot(
    name: Option<String>,
    description: Option<String>,
    request: Option<Vec<String>>,
    config: &Config,
    enumerated: &Vec<String>,
) -> (r: (SnapshotMetadata, Vec<FsStep>))
    ensures
        match request {
            Some(req) => r.0.subvolumes == req,
            None => match config.include_subvolumes {
                Some(ref inc) => r.0.subvolumes@ == inc@,
                None => r.0.subvolumes.deep_view() == enumerated.deep_view().filter(
                    |p: Seq<char>|
                        !spec_excluded(
                            p,
                            config.snapshot_path@,
                            config.exclude_subvolumes.deep_view(),
                        ),
                ),
            },
        },
        has_v4_layout(r.0.uuid.value),
        label_view(&r.0.name) == spec_norm_label(label_view(&name)),
        label_view(&r.0.description) == spec_norm_label(label_view(&description)),
        r.0.wf(),
        plan_view(r.1@) == spec_create_plan(config.snapshot_path@, &r.0),
{
    let computed = if needs_enumeration(&request, &config.include_subvolumes) {
        list_subvolumes_eligible_for_snapshotting(
            enumerated,
            config.snapshot_path.as_str(),
            &config.exclude_subvolumes,
        )
    } else {
        Vec::new()
    };
    let include_list = match &config.include_subvolumes {
        Some(inc) => Some(clone_string_vec(inc)),
        None => None,
    };
    let chosen = resolve_subvolumes(request, include_list, computed);
    let metadata = SnapshotMetadata::now(name, description, chosen);
    let steps = create_snapshot_plan(config.snapshot_path.as_str(), &metadata);
    (metadata, steps)
}

/// The plan of a delete: destroy every clone found in the snapshot's
/// directory, remove the directory, then remove the metadata record.
pub open spec fn spec_delete_plan(
    snapshot_path: Seq<char>,
    id: u128,
    entries: Seq<Seq<char>>,
) -> Seq<SpecStep> {
    let dir = spec_snapshot_dir(snapshot_path, id);
    Seq::new(
        entries.len(),
        |i: int| SpecStep::DeleteSubvolume { path: dir + seq!['/'] + entries[i] },
    ) + seq![
        SpecStep::RemoveDirTree { path: dir },
        SpecStep::RemoveFile { path: spec_metadata_file(snapshot_path, id) },
    ]
}

/// Computes the steps that delete snapshot `id`, given whether its
/// storage directory exists and the entry names found inside it.
///
/// A snapshot whose directory is absent does not exist: the delete is
/// refused, and nothing else is.
pub fn delete_snapshot_plan(
    snapshot_path: &str,
    id: &SnapshotId,
    dir_exists: bool,
    entries: &Vec<String>,
) -> (r: Result<Vec<FsStep>, SnapshotError>)
    ensures
        r is Ok <==> dir_exists,
        r is Ok ==> plan_view(r.unwrap()@) == spec_delete_plan(
            snapshot_path@,
            id.value,
            entries.deep_view(),
        ),
        r is Err ==> r == Err::<Vec<FsStep>, SnapshotError>(SnapshotError::SnapshotNotFound),
{
    if !dir_exists {
        return Err(SnapshotError::SnapshotNotFound);
    }
    let dir = snapshot_dir_path(snapshot_path, id);
    let mut r: Vec<FsStep> = Vec::new();
    let mut i: usize = 0;
    while i < entries.len()
        invariant
            i <= entries@.len(),
            entries.deep_view().len() == entries@.len(),
            dir@ == spec_snapshot_dir(snapshot_path@, id.value),
            r@.len() == i,
            forall|k: int|
                0 <= k < i ==> step_view(#[trigger] r@[k]) == (SpecStep::DeleteSubvolume {
                    path: spec_snapshot_dir(snapshot_path@, id.value) + seq!['/']
                        + entries.deep_view()[k],
                }),
        decreases entries@.len() - i,
    {
        let mut p = String::from_str(dir.as_str());
        p.push('/');
        p.append(entries[i].as_str());
        r.push(FsStep::DeleteSubvolume { path: p });
        proof {
            assert(entries.deep_view()[i as int] == entries@[i as int]@);
            assert(step_view(r@[i as int]) =~= SpecStep::DeleteSubvolume {
                path: spec_snapshot_dir(snapshot_path@, id.value) + seq!['/']
                    + entries.deep_view()[i as int],
            });
        }
        i = i + 1;
    }
    r.push(FsStep::RemoveDirTree { path: dir });
    r.push(FsStep::RemoveFile { path: metadata_file_path(snapshot_path, id) });
    proof {
        assert(plan_view(r@) =~= spec_delete_plan(snapshot_path@, id.value, entries.deep_view()));
    }
    Ok(r)
}

/// The plan of a restore: make the backup's directory, then for each
/// subvolume in list order move its live state into the backup and
/// clone the stored copy back to the live path writable, and finally
/// write the backup's metadata record.
pub open spec fn spec_restore_plan(
    snapshot_path: Seq<char>,
    source: &SnapshotMetadata,
    backup: &SnapshotMetadata,
) -> Seq<SpecStep> {
    let restore_dir = spec_snapshot_dir(snapshot_path, source.uuid.value);
    let backup_dir = spec_snapshot_dir(snapshot_path, backup.uuid.value);
    let subs = source.subvolumes.deep_view();
    seq![SpecStep::CreateDir { path: backup_dir }] + Seq::new(
        2 * subs.len(),
        |i: int|
            if i % 2 == 0 {
                SpecStep::MoveSubvolume {
                    source: subs[i / 2],
                    dest: spec_clone_dest(backup_dir, subs[i / 2]),
                }
            } else {
                SpecStep::SnapshotSubvolume {
                    source: spec_clone_dest(restore_dir, subs[i / 2]),
                    dest: subs[i / 2],
                    read_only: false,
                }
            },
    ) + seq![
        SpecStep::WriteFile {
            path: spec_metadata_file(snapshot_path, backup.uuid.value),
            contents: spec_encode(backup),
        },
    ]
}

/// Computes the steps that restore the snapshot described by `source`,
/// backing the current state up as `backup`.
///
/// A snapshot whose directory is absent does not exist: the restore is
/// refused before anything is moved.
pub fn restore_snapshot_plan(
    snapshot_path: &str,
    source: &SnapshotMetadata,
    backup: &SnapshotMetadata,
    dir_exists: bool,
) -> (r: Result<Vec<FsStep>, SnapshotError>)
    requires
        backup.subvolumes.deep_view() == source.subvolumes.deep_view(),
    ensures
        r is Ok <==> dir_exists,
        r is Ok ==> plan_view(r.unwrap()@) == spec_restore_plan(snapshot_path@, source, backup),
        r is Err ==> r == Err::<Vec<FsStep>, SnapshotError>(SnapshotError::SnapshotNotFound),
{
    if !dir_exists {
        return Err(SnapshotError::SnapshotNotFound);
    }
    let restore_dir = snapshot_dir_path(snapshot_path, &source.uuid);
    let backup_dir = snapshot_dir_path(snapshot_path, &backup.uuid);
    let mut r: Vec<FsStep> = Vec::new();
    r.push(FsStep::CreateDir { path: backup_dir.clone() });
    let ghost subs = source.subvolumes.deep_view();
    let mut i: usize = 0;
    while i < source.subvolumes.len()
        invariant
            i <= source.subvolumes@.len(),
            subs == source.subvolumes.deep_view(),
            subs.len() == source.subvolumes@.len(),
            restore_dir@ == spec_snapshot_dir(snapshot_path@, source.uuid.value),
            backup_dir@ == spec_snapshot_dir(snapshot_path@, backup.uuid.value),
            r@.len() == 2 * i + 1,
            step_view(r@[0]) == (SpecStep::CreateDir { path: backup_dir@ }),
            forall|k: int|
                1 <= k < 2 * i + 1 ==> step_view(#[trigger] r@[k]) == (if (k - 1) % 2 == 0 {
                    SpecStep::MoveSubvolume {
                        source: subs[(k - 1) / 2],
                        dest: spec_clone_dest(backup_dir@, subs[(k - 1) / 2]),
                    }
                } else {
                    SpecStep::SnapshotSubvolume {
                        source: spec_clone_dest(restore_dir@, subs[(k - 1) / 2]),
                        dest: subs[(k - 1) / 2],
                        read_only: false,
                    }
                }),
        decreases source.subvolumes@.len() - i,
    {
        let sub = &source.subvolumes[i];
        r.push(
            FsStep::MoveSubvolume {
                source: sub.clone(),
                dest: clone_dest(backup_dir.as_str(), sub.as_str()),
            },
        );
        r.push(
            FsStep::SnapshotSubvolume {
                source: clone_dest(restore_dir.as_str(), sub.as_str()),
                dest: sub.clone(),
                read_only: false,
            },
        );
        proof {
            assert(subs[i as int] == source.subvolumes@[i as int]@);
        }
        i = i + 1;
    }
    let contents = encode_metadata(backup);
    r.push(FsStep::WriteFile { path: metadata_file_path(snapshot_path, &backup.uuid), contents });
    proof {
        assert(plan_view(r@) =~~= spec_restore_plan(snapshot_path@, source, backup));
    }
    Ok(r)
}

/// Builds the backup record a restore writes before touching anything:
/// a fresh identity, no name, an automatic description naming the
/// restored snapshot, and the same captured subvolume set.
pub fn backup_metadata_for(source: &SnapshotMetadata) -> (r: SnapshotMetadata)
    ensures
        has_v4_layout(r.uuid.value),
        label_view(&r.name) == Option::<Seq<char>>::None,
        label_view(&r.description) == Some(
            "Automatic snapshot made when restoring snapshot "@ + spec_format_id(
                source.uuid.value,
            ),
        ),
        r.subvolumes.deep_view() == source.subvolumes.deep_view(),
        r.wf(),
{
    let mut description = String::from_str("Automatic snapshot made when restoring snapshot ");
    let idtext = source.uuid.format();
    description.append(idtext.as_str());
    proof {
        reveal_strlit("Automatic snapshot made when restoring snapshot ");
        assert(description@[0] == 'A');
        assert(!crate::metadata::spec_is_blank(description@));
    }
    let subvolumes = clone_string_vec(&source.subvolumes);
    let r = SnapshotMetadata::now(None, Some(description), subvolumes);
    r
}

} // verus!
