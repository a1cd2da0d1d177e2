use pop_snapshot::config::Config;
use pop_snapshot::id::SnapshotId;
use pop_snapshot::metadata::SnapshotMetadata;
use pop_snapshot::metadata::is_blank;
use pop_snapshot::metadata::normalize_label;
use pop_snapshot::snapshot_object::SnapshotObject;
use pop_snapshot::timefmt::is_rfc3339_str;

fn strings(items: &[&str]) -> Vec<String> {
    items.iter().map(|s| (*s).to_owned()).collect()
}

fn object() -> SnapshotObject {
    SnapshotObject::new(SnapshotMetadata {
        uuid: SnapshotId { value: 5 },
        name: None,
        description: None,
        creation_time: "2024-01-02T03:04:05Z".to_owned(),
        subvolumes: strings(&["@", "@var"]),
    })
}

#[test]
fn blankness_follows_whitespace() {
    assert!(is_blank(""));
    assert!(is_blank("   \t\n"));
    assert!(is_blank("\u{a0}\u{2003}"));
    assert!(!is_blank(" a "));
}

#[test]
fn labels_normalize_blank_to_unset() {
    assert_eq!(normalize_label(""), None);
    assert_eq!(normalize_label("  \t"), None);
    assert_eq!(normalize_label(" kept as given "), Some(" kept as given ".to_owned()));
}

#[test]
fn a_new_record_normalizes_its_labels() {
    let m = SnapshotMetadata::now(
        Some("  ".to_owned()),
        Some("before the upgrade".to_owned()),
        strings(&["@"]),
    );
    assert_eq!(m.name, None);
    assert_eq!(m.description.as_deref(), Some("before the upgrade"));
    assert_eq!(m.subvolumes, strings(&["@"]));
    assert!(is_rfc3339_str(&m.creation_time));
}

#[test]
fn fresh_records_get_distinct_identities() {
    let a = SnapshotMetadata::now(None, None, strings(&["@"]));
    let b = SnapshotMetadata::now(None, None, strings(&["@"]));
    assert_ne!(a.uuid, b.uuid);
}

#[test]
fn name_round_trips_through_set_and_get() {
    let mut o = object();
    assert_eq!(o.name(), "");
    o.set_name("daily", "@snapshots/pop-snapshots");
    assert_eq!(o.name(), "daily");
    o.set_name("   ", "@snapshots/pop-snapshots");
    assert_eq!(o.name(), "");
}

#[test]
fn description_round_trips_through_set_and_get() {
    let mut o = object();
    assert_eq!(o.description(), "");
    o.set_description("before the upgrade", "@snapshots/pop-snapshots");
    assert_eq!(o.description(), "before the upgrade");
    o.set_description("", "@snapshots/pop-snapshots");
    assert_eq!(o.description(), "");
}

#[test]
fn a_label_write_hands_back_the_updated_record() {
    let mut o = object();
    let (path, contents) = o.set_name("daily", "@snapshots/pop-snapshots");
    assert_eq!(
        path,
        "@snapshots/pop-snapshots/00000000-0000-0000-0000-000000000005.snapshot.json"
    );
    assert_eq!(contents, pop_snapshot::codec::encode_metadata(&o.metadata));
    let back = pop_snapshot::codec::decode_metadata(&contents).unwrap();
    assert_eq!(back.name.as_deref(), Some("daily"));
}

#[test]
fn object_properties_read_the_record() {
    let o = object();
    assert_eq!(o.creation_time(), "2024-01-02T03:04:05Z");
    assert_eq!(o.uuid(), "00000000-0000-0000-0000-000000000005");
    assert_eq!(o.subvolumes(), strings(&["@", "@var"]));
}

#[test]
fn the_default_configuration_matches_the_documented_policy() {
    let c = Config::default();
    assert_eq!(c.snapshot_path, "@snapshots/pop-snapshots");
    assert_eq!(c.exclude_subvolumes, strings(&["@home"]));
    assert_eq!(c.include_subvolumes, None);
    assert_eq!(c.log_level, "info");
}

#[test]
fn missing_options_fall_back_to_defaults() {
    let c = Config::from_parts(None, Some(strings(&["@home", "@var"])), None, None);
    assert_eq!(c.snapshot_path, "@snapshots/pop-snapshots");
    assert_eq!(c.exclude_subvolumes, strings(&["@home", "@var"]));
    assert_eq!(c.include_subvolumes, None);
    assert_eq!(c.log_level, "info");
    let d = Config::from_parts(
        Some("@snaps".to_owned()),
        None,
        Some(strings(&["@"])),
        Some("debug".to_owned()),
    );
    assert_eq!(d.snapshot_path, "@snaps");
    assert_eq!(d.exclude_subvolumes, strings(&["@home"]));
    assert_eq!(d.include_subvolumes, Some(strings(&["@"])));
    assert_eq!(d.log_level, "debug");
}
