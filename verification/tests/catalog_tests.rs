use pop_snapshot::catalog::is_path_prefix_exec;
use pop_snapshot::catalog::list_subvolumes_eligible_for_snapshotting;
use pop_snapshot::catalog::needs_enumeration;
use pop_snapshot::catalog::resolve_subvolumes;

fn strings(items: &[&str]) -> Vec<String> {
    items.iter().map(|s| (*s).to_owned()).collect()
}

#[test]
fn excludes_home_and_keeps_the_rest() {
    let enumerated = strings(&["@", "@home", "@var"]);
    let exclude = strings(&["@home"]);
    let eligible =
        list_subvolumes_eligible_for_snapshotting(&enumerated, "@snapshots/pop-snapshots", &exclude);
    assert_eq!(eligible, strings(&["@", "@var"]));
}

#[test]
fn excludes_descendants_but_not_lookalikes() {
    let enumerated = strings(&["@home", "@home/user", "@homework", "@var"]);
    let exclude = strings(&["@home"]);
    let eligible =
        list_subvolumes_eligible_for_snapshotting(&enumerated, "@snapshots/pop-snapshots", &exclude);
    assert_eq!(eligible, strings(&["@homework", "@var"]));
}

#[test]
fn excludes_the_storage_path_itself() {
    let enumerated = strings(&["@", "@snapshots/pop-snapshots", "@snapshots/pop-snapshots/x"]);
    let eligible =
        list_subvolumes_eligible_for_snapshotting(&enumerated, "@snapshots/pop-snapshots", &strings(&[]));
    assert_eq!(eligible, strings(&["@"]));
}

#[test]
fn prefix_match_is_componentwise() {
    assert!(is_path_prefix_exec("@home", "@home"));
    assert!(is_path_prefix_exec("@home", "@home/user"));
    assert!(!is_path_prefix_exec("@home", "@homework"));
    assert!(!is_path_prefix_exec("@home/user", "@home"));
    assert!(is_path_prefix_exec("", "@anything"));
}

#[test]
fn an_explicit_request_wins() {
    let chosen = resolve_subvolumes(
        Some(strings(&["@var"])),
        Some(strings(&["@opt"])),
        strings(&["@", "@var"]),
    );
    assert_eq!(chosen, strings(&["@var"]));
}

#[test]
fn the_allow_list_beats_the_computed_set() {
    let chosen = resolve_subvolumes(None, Some(strings(&["@opt"])), strings(&["@", "@var"]));
    assert_eq!(chosen, strings(&["@opt"]));
}

#[test]
fn the_computed_set_is_the_fallback() {
    let chosen = resolve_subvolumes(None, None, strings(&["@", "@var"]));
    assert_eq!(chosen, strings(&["@", "@var"]));
}

#[test]
fn enumeration_happens_only_when_nothing_was_named() {
    assert!(needs_enumeration(&None, &None));
    assert!(!needs_enumeration(&Some(strings(&["@"])), &None));
    assert!(!needs_enumeration(&None, &Some(strings(&["@"]))));
}
