use pop_snapshot::timefmt::current_time_rfc3339;
use pop_snapshot::timefmt::epoch_timestamp;
use pop_snapshot::timefmt::is_rfc3339_str;

#[test]
fn accepts_plain_timestamps() {
    assert!(is_rfc3339_str("2024-01-02T03:04:05Z"));
    assert!(is_rfc3339_str("1970-01-01T00:00:00Z"));
    assert!(is_rfc3339_str("2023-12-31T23:59:59Z"));
}

#[test]
fn accepts_fractions_and_offsets() {
    assert!(is_rfc3339_str("2024-01-02T03:04:05.123456789Z"));
    assert!(is_rfc3339_str("2024-01-02T03:04:05.5Z"));
    assert!(is_rfc3339_str("2024-01-02T03:04:05+02:00"));
    assert!(is_rfc3339_str("2024-01-02T03:04:05.25-07:30"));
    assert!(is_rfc3339_str("2024-01-02t03:04:05z"));
}

#[test]
fn rejects_bad_shapes() {
    assert!(!is_rfc3339_str(""));
    assert!(!is_rfc3339_str("2024-01-02 03:04:05Z"));
    assert!(!is_rfc3339_str("2024-01-02T03:04:05"));
    assert!(!is_rfc3339_str("2024-01-02T03:04:05.Z"));
    assert!(!is_rfc3339_str("2024-1-02T03:04:05Z"));
    assert!(!is_rfc3339_str("2024-01-02T03:04:65Z"));
    assert!(!is_rfc3339_str("2024-01-02T24:04:05Z"));
    assert!(!is_rfc3339_str("2024-01-02T03:04:05+24:00"));
}

#[test]
fn respects_the_calendar() {
    assert!(!is_rfc3339_str("2024-00-02T03:04:05Z"));
    assert!(!is_rfc3339_str("2024-13-02T03:04:05Z"));
    assert!(!is_rfc3339_str("2024-04-31T03:04:05Z"));
    assert!(!is_rfc3339_str("2023-02-29T03:04:05Z"));
    assert!(is_rfc3339_str("2024-02-29T03:04:05Z"));
    assert!(!is_rfc3339_str("1900-02-29T03:04:05Z"));
    assert!(is_rfc3339_str("2000-02-29T03:04:05Z"));
}

#[test]
fn epoch_is_the_fixed_fallback() {
    assert_eq!(epoch_timestamp(), "1970-01-01T00:00:00Z");
    assert!(is_rfc3339_str(&epoch_timestamp()));
}

#[test]
fn the_clock_reading_is_well_formed() {
    let now = current_time_rfc3339();
    assert!(is_rfc3339_str(&now));
    assert_ne!(now, epoch_timestamp());
}

#[test]
fn the_clock_reading_parses_in_the_time_crate() {
    let now = current_time_rfc3339();
    let parsed = time::OffsetDateTime::parse(
        &now,
        &time::format_description::well_known::Rfc3339,
    )
    .unwrap();
    assert!(parsed.year() >= 2024);
}
