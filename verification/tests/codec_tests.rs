use pop_snapshot::SnapshotError;
use pop_snapshot::codec::decode_metadata;
use pop_snapshot::codec::encode_metadata;
use pop_snapshot::id::SnapshotId;
use pop_snapshot::metadata::SnapshotMetadata;

fn sample(name: Option<&str>, description: Option<&str>, subvolumes: &[&str]) -> SnapshotMetadata {
    SnapshotMetadata {
        uuid: SnapshotId { value: 0x00112233_4455_6677_8899_aabbccddeeff_u128 },
        name: name.map(|s| s.to_owned()),
        description: description.map(|s| s.to_owned()),
        creation_time: "2024-01-02T03:04:05Z".to_owned(),
        subvolumes: subvolumes.iter().map(|s| (*s).to_owned()).collect(),
    }
}

#[test]
fn encodes_the_canonical_pretty_form() {
    let m = sample(None, None, &["@", "@var"]);
    assert_eq!(
        encode_metadata(&m),
        "{\n  \"uuid\": \"00112233-4455-6677-8899-aabbccddeeff\",\n  \"creation_time\": \"2024-01-02T03:04:05Z\",\n  \"subvolumes\": [\n    \"@\",\n    \"@var\"\n  ]\n}"
    );
}

#[test]
fn encodes_an_empty_capture_as_an_empty_array() {
    let m = sample(None, None, &[]);
    assert_eq!(
        encode_metadata(&m),
        "{\n  \"uuid\": \"00112233-4455-6677-8899-aabbccddeeff\",\n  \"creation_time\": \"2024-01-02T03:04:05Z\",\n  \"subvolumes\": []\n}"
    );
}

#[test]
fn encodes_labels_on_their_own_lines() {
    let m = sample(Some("daily"), Some("before the upgrade"), &["@"]);
    let text = encode_metadata(&m);
    assert!(text.contains("\n  \"name\": \"daily\",\n"));
    assert!(text.contains("\n  \"description\": \"before the upgrade\",\n"));
}

#[test]
fn round_trips_every_field() {
    let cases = [
        sample(None, None, &["@", "@var"]),
        sample(Some("daily"), None, &["@"]),
        sample(None, Some("before the upgrade"), &["@", "@home/sub", "@var"]),
        sample(Some("a b"), Some("c d"), &[]),
    ];
    for m in cases {
        let text = encode_metadata(&m);
        let back = decode_metadata(&text).unwrap();
        assert_eq!(back, m);
    }
}

#[test]
fn round_trips_escaped_characters() {
    let m = sample(
        Some("quote \" backslash \\ tab \t newline \n bell \u{7}"),
        Some("naïve café — ❄"),
        &["@weird\"name", "@with\\slash"],
    );
    let text = encode_metadata(&m);
    let back = decode_metadata(&text).unwrap();
    assert_eq!(back, m);
}

#[test]
fn the_encoding_is_valid_json_with_the_right_fields() {
    let m = sample(Some("daily"), None, &["@", "@var"]);
    let value: serde_json::Value = serde_json::from_str(&encode_metadata(&m)).unwrap();
    assert_eq!(
        value["uuid"].as_str().unwrap(),
        "00112233-4455-6677-8899-aabbccddeeff"
    );
    assert_eq!(value["name"].as_str().unwrap(), "daily");
    assert!(value.get("description").is_none());
    assert_eq!(value["creation_time"].as_str().unwrap(), "2024-01-02T03:04:05Z");
    let subs: Vec<&str> = value["subvolumes"]
        .as_array()
        .unwrap()
        .iter()
        .map(|v| v.as_str().unwrap())
        .collect();
    assert_eq!(subs, ["@", "@var"]);
}

#[test]
fn rejects_corrupt_records() {
    let m = sample(Some("daily"), None, &["@"]);
    let good = encode_metadata(&m);
    assert_eq!(decode_metadata(""), Err(SnapshotError::MetadataCorrupt));
    assert_eq!(decode_metadata("{}"), Err(SnapshotError::MetadataCorrupt));
    assert_eq!(
        decode_metadata(&good[..good.len() - 1]),
        Err(SnapshotError::MetadataCorrupt)
    );
    let mut trailing = good.clone();
    trailing.push('\n');
    assert_eq!(decode_metadata(&trailing), Err(SnapshotError::MetadataCorrupt));
    let bad_uuid = good.replace("00112233", "0011223g");
    assert_eq!(decode_metadata(&bad_uuid), Err(SnapshotError::MetadataCorrupt));
    let bad_time = good.replace("2024-01-02T03:04:05Z", "yesterday about noon");
    assert_eq!(decode_metadata(&bad_time), Err(SnapshotError::MetadataCorrupt));
}

#[test]
fn rejects_reordered_fields() {
    let m = sample(Some("daily"), Some("notes"), &["@"]);
    let good = encode_metadata(&m);
    let name_line = "  \"name\": \"daily\",\n";
    let desc_line = "  \"description\": \"notes\",\n";
    let swapped = good.replace(
        &format!("{name_line}{desc_line}"),
        &format!("{desc_line}{name_line}"),
    );
    assert_ne!(swapped, good);
    assert_eq!(decode_metadata(&swapped), Err(SnapshotError::MetadataCorrupt));
}

#[test]
fn accepts_exactly_the_canonical_form() {
    let m = sample(None, None, &["@"]);
    let good = encode_metadata(&m);
    assert!(decode_metadata(&good).is_ok());
    let spaced = good.replace("{\n", "{ \n");
    assert_eq!(decode_metadata(&spaced), Err(SnapshotError::MetadataCorrupt));
}

#[test]
fn rejects_blank_labels() {
    let m = sample(Some("daily"), None, &["@"]);
    let blank = encode_metadata(&m).replace("\"daily\"", "\"   \"");
    assert_eq!(decode_metadata(&blank), Err(SnapshotError::MetadataCorrupt));
}
