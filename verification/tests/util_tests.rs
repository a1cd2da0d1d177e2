use pop_snapshot::cli::is_affirmative_key;
use pop_snapshot::cli::should_proceed;
use pop_snapshot::util::find_root_device_in_mounts;

const MOUNTS: &str = "\
/dev/nvme0n1p1 /boot/efi vfat rw,relatime 0 0\n\
/dev/nvme0n1p2 / btrfs rw,relatime,subvol=/@root 0 0\n\
/dev/nvme0n1p2 /home btrfs rw,relatime,subvol=/@home 0 0\n";

#[test]
fn finds_the_device_of_the_root_subvolume() {
    assert_eq!(
        find_root_device_in_mounts(MOUNTS).as_deref(),
        Some("/dev/nvme0n1p2")
    );
}

#[test]
fn takes_the_first_matching_line() {
    let doubled = format!("/dev/sda1 / btrfs subvol=/@root 0 0\n{MOUNTS}");
    assert_eq!(find_root_device_in_mounts(&doubled).as_deref(), Some("/dev/sda1"));
}

#[test]
fn reports_nothing_without_a_root_entry() {
    assert_eq!(find_root_device_in_mounts(""), None);
    assert_eq!(
        find_root_device_in_mounts("/dev/sda1 /home btrfs subvol=/@home 0 0\n"),
        None
    );
}

#[test]
fn skips_leading_spaces_before_the_field() {
    assert_eq!(
        find_root_device_in_mounts("   /dev/sdb2 / btrfs subvol=/@root 0 0\n").as_deref(),
        Some("/dev/sdb2")
    );
    assert_eq!(find_root_device_in_mounts("   subvol=/@root\n   x\n").as_deref(), Some("subvol=/@root"));
}

#[test]
fn only_y_confirms_a_prompt() {
    assert!(is_affirmative_key(b'y'));
    assert!(is_affirmative_key(b'Y'));
    assert!(!is_affirmative_key(b'n'));
    assert!(!is_affirmative_key(b'\n'));
}

#[test]
fn the_yes_flag_skips_the_prompt() {
    assert!(should_proceed(true, None));
    assert!(should_proceed(false, Some(b'y')));
    assert!(!should_proceed(false, Some(b'q')));
    assert!(!should_proceed(false, None));
}
