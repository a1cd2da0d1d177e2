use pop_snapshot::SnapshotError;
use pop_snapshot::id::SnapshotId;
use pop_snapshot::metadata::SnapshotMetadata;
use pop_snapshot::paths::flatten_subvolume_name;
use pop_snapshot::paths::is_metadata_filename;
use pop_snapshot::paths::metadata_file_path;
use pop_snapshot::paths::snapshot_dir_path;
use pop_snapshot::store::FsStep;
use pop_snapshot::store::backup_metadata_for;
use pop_snapshot::store::create_snapshot_plan;
use pop_snapshot::store::delete_snapshot_plan;
use pop_snapshot::store::restore_snapshot_plan;

fn strings(items: &[&str]) -> Vec<String> {
    items.iter().map(|s| (*s).to_owned()).collect()
}

fn sample(subvolumes: &[&str]) -> SnapshotMetadata {
    SnapshotMetadata {
        uuid: SnapshotId { value: 1 },
        name: None,
        description: None,
        creation_time: "2024-01-02T03:04:05Z".to_owned(),
        subvolumes: strings(subvolumes),
    }
}

const DIR: &str = "@snapshots/pop-snapshots/00000000-0000-0000-0000-000000000001";

#[test]
fn flattening_replaces_separators() {
    assert_eq!(flatten_subvolume_name("@"), "@");
    assert_eq!(flatten_subvolume_name("@home/user"), "@home__user");
    assert_eq!(flatten_subvolume_name("a/b/c"), "a__b__c");
}

#[test]
fn paths_follow_the_layout() {
    let id = SnapshotId { value: 1 };
    assert_eq!(snapshot_dir_path("@snapshots/pop-snapshots", &id), DIR);
    assert_eq!(
        metadata_file_path("@snapshots/pop-snapshots", &id),
        format!("{DIR}.snapshot.json")
    );
    assert!(is_metadata_filename("x.snapshot.json"));
    assert!(!is_metadata_filename("x.snapshot.json.bak"));
    assert!(!is_metadata_filename("json"));
}

#[test]
fn the_create_plan_clones_then_writes_metadata() {
    let m = sample(&["@", "@home/user"]);
    let plan = create_snapshot_plan("@snapshots/pop-snapshots", &m);
    assert_eq!(plan.len(), 4);
    assert!(matches!(&plan[0], FsStep::CreateDir { path } if path == DIR));
    assert!(matches!(
        &plan[1],
        FsStep::SnapshotSubvolume { source, dest, read_only: true }
            if source == "@" && *dest == format!("{DIR}/@")
    ));
    assert!(matches!(
        &plan[2],
        FsStep::SnapshotSubvolume { source, dest, read_only: true }
            if source == "@home/user" && *dest == format!("{DIR}/@home__user")
    ));
    assert!(matches!(
        &plan[3],
        FsStep::WriteFile { path, contents }
            if *path == format!("{DIR}.snapshot.json")
                && *contents == pop_snapshot::codec::encode_metadata(&m)
    ));
}

#[test]
fn the_delete_plan_requires_the_directory() {
    let id = SnapshotId { value: 1 };
    let entries = strings(&["@", "@var"]);
    assert_eq!(
        delete_snapshot_plan("@snapshots/pop-snapshots", &id, false, &entries),
        Err(SnapshotError::SnapshotNotFound)
    );
    let plan = delete_snapshot_plan("@snapshots/pop-snapshots", &id, true, &entries).unwrap();
    assert_eq!(plan.len(), 4);
    assert!(matches!(&plan[0], FsStep::DeleteSubvolume { path } if *path == format!("{DIR}/@")));
    assert!(matches!(&plan[1], FsStep::DeleteSubvolume { path } if *path == format!("{DIR}/@var")));
    assert!(matches!(&plan[2], FsStep::RemoveDirTree { path } if path == DIR));
    assert!(matches!(
        &plan[3],
        FsStep::RemoveFile { path } if *path == format!("{DIR}.snapshot.json")
    ));
}

#[test]
fn the_backup_record_names_its_source() {
    let source = sample(&["@var"]);
    let backup = backup_metadata_for(&source);
    assert_eq!(backup.name, None);
    assert_eq!(
        backup.description.as_deref(),
        Some("Automatic snapshot made when restoring snapshot 00000000-0000-0000-0000-000000000001")
    );
    assert_eq!(backup.subvolumes, source.subvolumes);
}

#[test]
fn the_restore_plan_backs_up_before_cloning_back() {
    let source = sample(&["@var"]);
    let mut backup = sample(&["@var"]);
    backup.uuid = SnapshotId { value: 2 };
    let backup_dir = "@snapshots/pop-snapshots/00000000-0000-0000-0000-000000000002";
    assert_eq!(
        restore_snapshot_plan("@snapshots/pop-snapshots", &source, &backup, false),
        Err(SnapshotError::SnapshotNotFound)
    );
    let plan = restore_snapshot_plan("@snapshots/pop-snapshots", &source, &backup, true).unwrap();
    assert_eq!(plan.len(), 4);
    assert!(matches!(&plan[0], FsStep::CreateDir { path } if path == backup_dir));
    assert!(matches!(
        &plan[1],
        FsStep::MoveSubvolume { source, dest }
            if source == "@var" && *dest == format!("{backup_dir}/@var")
    ));
    assert!(matches!(
        &plan[2],
        FsStep::SnapshotSubvolume { source, dest, read_only: false }
            if *source == format!("{DIR}/@var") && dest == "@var"
    ));
    assert!(matches!(
        &plan[3],
        FsStep::WriteFile { path, contents }
            if *path == format!("{backup_dir}.snapshot.json")
                && *contents == pop_snapshot::codec::encode_metadata(&backup)
    ));
}
