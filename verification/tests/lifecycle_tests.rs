//! Lifecycle scenarios over the persisted listing: the sequence of
//! metadata records whose files exist under the storage path, driven
//! through the same plans the executor performs.

use pop_snapshot::codec::decode_metadata;
use pop_snapshot::id::SnapshotId;
use pop_snapshot::metadata::SnapshotMetadata;
use pop_snapshot::store::FsStep;
use pop_snapshot::store::backup_metadata_for;
use pop_snapshot::store::create_snapshot_plan;
use pop_snapshot::store::delete_snapshot_plan;
use pop_snapshot::store::restore_snapshot_plan;

const STORAGE: &str = "@snapshots/pop-snapshots";

fn strings(items: &[&str]) -> Vec<String> {
    items.iter().map(|s| (*s).to_owned()).collect()
}

/// The record a plan's metadata write carries, read back through the
/// decoder, as the listing would see it.
fn written_record(plan: &[FsStep]) -> SnapshotMetadata {
    let contents = plan
        .iter()
        .find_map(|step| match step {
            FsStep::WriteFile { contents, .. } => Some(contents.clone()),
            _ => None,
        })
        .expect("the plan writes no metadata record");
    decode_metadata(&contents).expect("the written record must decode")
}

#[test]
fn create_then_list_shows_exactly_one_fresh_record() {
    let mut listing: Vec<SnapshotMetadata> = Vec::new();
    let requested = strings(&["@", "@var"]);
    let m = SnapshotMetadata::now(None, None, requested.clone());
    assert!(listing.iter().all(|x| x.uuid != m.uuid));
    listing.push(written_record(&create_snapshot_plan(STORAGE, &m)));
    let matching: Vec<&SnapshotMetadata> =
        listing.iter().filter(|x| x.uuid == m.uuid).collect();
    assert_eq!(matching.len(), 1);
    assert_eq!(matching[0].subvolumes, requested);
}

#[test]
fn delete_then_list_no_longer_shows_the_identity() {
    let a = SnapshotMetadata::now(Some("a".to_owned()), None, strings(&["@"]));
    let b = SnapshotMetadata::now(Some("b".to_owned()), None, strings(&["@"]));
    let mut listing = vec![a.clone(), b.clone()];
    let plan = delete_snapshot_plan(STORAGE, &a.uuid, true, &strings(&["@"])).unwrap();
    let removed_metadata_file = plan
        .iter()
        .any(|step| matches!(step, FsStep::RemoveFile { path }
            if path.contains(&a.uuid.format())));
    assert!(removed_metadata_file);
    listing.retain(|x| x.uuid != a.uuid);
    assert!(listing.iter().all(|x| x.uuid != a.uuid));
    assert!(listing.iter().any(|x| x.uuid == b.uuid));
}

#[test]
fn restore_adds_a_distinct_backup_and_keeps_the_original() {
    let source = SnapshotMetadata::now(None, None, strings(&["@var"]));
    let mut listing = vec![source.clone()];
    let backup = backup_metadata_for(&source);
    assert_ne!(backup.uuid, source.uuid);
    let plan = restore_snapshot_plan(STORAGE, &source, &backup, true).unwrap();
    listing.push(written_record(&plan));
    assert!(listing.iter().any(|x| *x == source));
    assert!(listing.iter().any(|x| x.uuid == backup.uuid));
    let stored_backup = listing.iter().find(|x| x.uuid == backup.uuid).unwrap();
    assert_eq!(stored_backup.subvolumes, source.subvolumes);
}

#[test]
fn a_create_decision_resolves_by_precedence() {
    let mut config = pop_snapshot::config::Config::default();
    let enumerated = strings(&["@", "@home", "@var"]);
    let (by_request, _) = pop_snapshot::store::create_snapshot(
        None,
        None,
        Some(strings(&["@opt"])),
        &config,
        &enumerated,
    );
    assert_eq!(by_request.subvolumes, strings(&["@opt"]));
    config.include_subvolumes = Some(strings(&["@srv"]));
    let (by_allow_list, _) =
        pop_snapshot::store::create_snapshot(None, None, None, &config, &enumerated);
    assert_eq!(by_allow_list.subvolumes, strings(&["@srv"]));
    config.include_subvolumes = None;
    let (by_exclusion, plan) = pop_snapshot::store::create_snapshot(
        Some("daily".to_owned()),
        Some("  ".to_owned()),
        None,
        &config,
        &enumerated,
    );
    assert_eq!(by_exclusion.subvolumes, strings(&["@", "@var"]));
    assert_eq!(by_exclusion.name.as_deref(), Some("daily"));
    assert_eq!(by_exclusion.description, None);
    assert_eq!(written_record(&plan), by_exclusion);
}

#[test]
fn the_default_exclusion_scenario_captures_root_and_var() {
    let enumerated = strings(&["@", "@home", "@var"]);
    let exclude = strings(&["@home"]);
    let eligible = pop_snapshot::catalog::list_subvolumes_eligible_for_snapshotting(
        &enumerated,
        STORAGE,
        &exclude,
    );
    let chosen = pop_snapshot::catalog::resolve_subvolumes(None, None, eligible);
    assert_eq!(chosen, strings(&["@", "@var"]));
    let m = SnapshotMetadata::now(None, None, chosen);
    let plan = create_snapshot_plan(STORAGE, &m);
    let record = written_record(&plan);
    assert_eq!(record.subvolumes, strings(&["@", "@var"]));
    let dir = pop_snapshot::paths::snapshot_dir_path(STORAGE, &m.uuid);
    let delete_plan =
        delete_snapshot_plan(STORAGE, &m.uuid, true, &strings(&["@", "@var"])).unwrap();
    assert!(delete_plan
        .iter()
        .any(|step| matches!(step, FsStep::RemoveDirTree { path } if *path == dir)));
}
