use pop_snapshot::SnapshotError;
use pop_snapshot::id::SnapshotId;
use pop_snapshot::id::parse_id;

#[test]
fn format_is_hyphenated_lowercase() {
    let id = SnapshotId { value: 0x00112233_4455_6677_8899_aabbccddeeff_u128 };
    assert_eq!(id.format(), "00112233-4455-6677-8899-aabbccddeeff");
}

#[test]
fn format_pads_to_32_digits() {
    let id = SnapshotId { value: 7 };
    assert_eq!(id.format(), "00000000-0000-0000-0000-000000000007");
}

#[test]
fn parse_accepts_hyphenated() {
    let r = parse_id("00112233-4455-6677-8899-aabbccddeeff").unwrap();
    assert_eq!(r.value, 0x00112233_4455_6677_8899_aabbccddeeff_u128);
}

#[test]
fn parse_accepts_uppercase_and_simple_forms() {
    let a = parse_id("00112233-4455-6677-8899-AABBCCDDEEFF").unwrap();
    let b = parse_id("00112233445566778899aabbccddeeff").unwrap();
    assert_eq!(a.value, b.value);
}

#[test]
fn parse_rejects_malformed_input() {
    assert_eq!(parse_id(""), Err(SnapshotError::InvalidIdentity));
    assert_eq!(parse_id("not-an-identity"), Err(SnapshotError::InvalidIdentity));
    assert_eq!(
        parse_id("00112233-4455-6677-8899-aabbccddeefg"),
        Err(SnapshotError::InvalidIdentity)
    );
    assert_eq!(
        parse_id("00112233+4455+6677+8899+aabbccddeeff"),
        Err(SnapshotError::InvalidIdentity)
    );
    assert_eq!(
        parse_id("00112233-4455-6677-8899-aabbccddeeff0"),
        Err(SnapshotError::InvalidIdentity)
    );
}

#[test]
fn parse_round_trips_format() {
    let values: [u128; 4] = [0, 1, u128::MAX, 0xdead_beef_dead_beef_dead_beef_dead_beef];
    for v in values {
        let id = SnapshotId { value: v };
        let text = id.format();
        assert_eq!(parse_id(&text).unwrap().value, v);
    }
}

#[test]
fn fresh_ids_carry_the_version_4_layout() {
    for _ in 0..32 {
        let id = SnapshotId::fresh();
        let text = id.format();
        let chars: Vec<char> = text.chars().collect();
        assert_eq!(chars[14], '4');
        assert!(matches!(chars[19], '8' | '9' | 'a' | 'b'));
    }
}

#[test]
fn fresh_matches_the_uuid_crate_reading() {
    let text = SnapshotId::fresh().format();
    let parsed = uuid::Uuid::parse_str(&text).unwrap();
    assert_eq!(parsed.get_version_num(), 4);
    assert_eq!(parsed.as_u128(), parse_id(&text).unwrap().value);
}

#[test]
fn parse_accepts_what_the_uuid_crate_prints() {
    let u = uuid::Uuid::new_v4();
    let r = parse_id(&u.to_string()).unwrap();
    assert_eq!(r.value, u.as_u128());
    assert_eq!(r.format(), u.to_string());
}
