use pop_snapshot::SnapshotError;
use pop_snapshot::config::Config;
use pop_snapshot::id::SnapshotId;
use pop_snapshot::service::SnapshotService;

fn service() -> SnapshotService {
    SnapshotService::new(Config::default())
}

#[test]
fn a_fresh_service_publishes_nothing() {
    let s = service();
    assert!(s.snapshots().is_empty());
    assert_eq!(s.find_snapshot("00000000-0000-0000-0000-000000000001"), Ok(None));
}

#[test]
fn lookup_rejects_malformed_identities_only() {
    let s = service();
    assert_eq!(
        s.find_snapshot("definitely not an identity"),
        Err(SnapshotError::InvalidIdentity)
    );
    assert_eq!(s.find_snapshot(""), Err(SnapshotError::InvalidIdentity));
    assert_eq!(s.find_snapshot("00000000-0000-0000-0000-000000000001"), Ok(None));
}

#[test]
fn published_snapshots_resolve_to_their_handles() {
    let mut s = service();
    let id = SnapshotId { value: 7 };
    let handle = s.publish_snapshot(id);
    assert_eq!(handle, "/com/system76/PopSnapshot/Snapshot/1");
    assert_eq!(
        s.find_snapshot(&id.format()),
        Ok(Some("/com/system76/PopSnapshot/Snapshot/1".to_owned()))
    );
    assert_eq!(s.snapshots(), vec!["/com/system76/PopSnapshot/Snapshot/1".to_owned()]);
}

#[test]
fn publication_indexes_count_up() {
    let mut s = service();
    assert_eq!(s.publish_snapshot(SnapshotId { value: 1 }), "/com/system76/PopSnapshot/Snapshot/1");
    assert_eq!(s.publish_snapshot(SnapshotId { value: 2 }), "/com/system76/PopSnapshot/Snapshot/2");
    assert_eq!(
        s.publish_snapshot(SnapshotId { value: 30 }),
        "/com/system76/PopSnapshot/Snapshot/3"
    );
    assert_eq!(s.snapshots().len(), 3);
}

#[test]
fn removed_snapshots_no_longer_resolve() {
    let mut s = service();
    let a = SnapshotId { value: 1 };
    let b = SnapshotId { value: 2 };
    s.publish_snapshot(a);
    let handle_b = s.publish_snapshot(b);
    s.remove_snapshot(a);
    assert_eq!(s.find_snapshot(&a.format()), Ok(None));
    assert_eq!(s.find_snapshot(&b.format()), Ok(Some(handle_b)));
    assert_eq!(s.snapshots().len(), 1);
}

#[test]
fn the_action_lock_admits_exactly_one_taker() {
    let mut s = service();
    assert_eq!(s.try_begin_action(), Ok(()));
    assert_eq!(s.try_begin_action(), Err(SnapshotError::Busy));
    assert_eq!(s.try_begin_action(), Err(SnapshotError::Busy));
    s.end_action();
    assert_eq!(s.try_begin_action(), Ok(()));
}

#[test]
fn a_reload_replaces_the_configuration_whole() {
    let mut s = service();
    let mut fresh = Config::default();
    fresh.exclude_subvolumes = vec!["@home".to_owned(), "@var".to_owned()];
    assert_eq!(s.reload_config(Some(fresh.clone())), Ok(()));
    assert_eq!(s.config, fresh);
}

#[test]
fn a_failed_reload_keeps_the_prior_configuration() {
    let mut s = service();
    let before = s.config.clone();
    assert_eq!(s.reload_config(None), Err(SnapshotError::ConfigInvalid));
    assert_eq!(s.config, before);
}

#[test]
fn errors_read_distinguishably() {
    assert_eq!(SnapshotError::Busy.message(), "the snapshot service is busy");
    assert_eq!(
        SnapshotError::SnapshotNotFound.message(),
        "snapshot does not exist"
    );
    assert_eq!(
        SnapshotError::InvalidIdentity.message(),
        "failed to parse the snapshot identity"
    );
    assert_eq!(
        SnapshotError::MetadataCorrupt.message(),
        "failed to parse snapshot metadata"
    );
    assert_eq!(
        SnapshotError::ConfigInvalid.message(),
        "failed to parse the configuration"
    );
}
