use whatsapp_lite::quiet_hours::{
    cloudstore_quiet_hours_blocks_notifications, quiet_hours_state_blocks_notifications,
    registry_bytes, registry_number, utf16le_contains_ascii, windows_do_not_disturb_enabled,
    SETTINGS_CAPACITY,
};

fn utf16le(s: &str) -> Vec<u8> {
    s.bytes().flat_map(|b| [b, 0]).collect()
}

#[test]
fn quiet_hours_blocks_only_nonzero_state() {
    assert!(!quiet_hours_state_blocks_notifications(None));
    assert!(!quiet_hours_state_blocks_notifications(Some(0)));
    assert!(quiet_hours_state_blocks_notifications(Some(1)));
    assert!(quiet_hours_state_blocks_notifications(Some(2)));
}

#[test]
fn cloudstore_quiet_hours_blocks_only_restricted_profiles() {
    assert_eq!(
        cloudstore_quiet_hours_blocks_notifications(&utf16le(
            "Microsoft.QuietHoursProfile.PriorityOnly"
        )),
        Some(true)
    );
    assert_eq!(
        cloudstore_quiet_hours_blocks_notifications(&utf16le(
            "Microsoft.QuietHoursProfile.AlarmsOnly"
        )),
        Some(true)
    );
    assert_eq!(
        cloudstore_quiet_hours_blocks_notifications(&utf16le(
            "Microsoft.QuietHoursProfile.Unrestricted"
        )),
        Some(false)
    );
    assert_eq!(
        cloudstore_quiet_hours_blocks_notifications(b"no profile"),
        None
    );
}

#[test]
fn text_is_found_anywhere_in_utf16() {
    assert!(utf16le_contains_ascii(&[9, b'a', 0, b'b', 0, 7], "ab"));
    assert!(utf16le_contains_ascii(&[b'a', 0], "a"));
    assert!(!utf16le_contains_ascii(&[b'a', 1], "a"));
    assert!(!utf16le_contains_ascii(b"ab", "ab"));
    assert!(!utf16le_contains_ascii(&[], "a"));
    assert!(!utf16le_contains_ascii(&[b'a', 0, b'b'], "ab"));
}

#[test]
fn restricted_profile_wins() {
    let mut data = utf16le("Microsoft.QuietHoursProfile.Unrestricted");
    data.extend([1, 2, 3]);
    data.extend(utf16le("Microsoft.QuietHoursProfile.AlarmsOnly"));
    assert_eq!(
        cloudstore_quiet_hours_blocks_notifications(&data),
        Some(true)
    );
    assert!(windows_do_not_disturb_enabled(&Some(data), Some(0)));
}

#[test]
fn service_decides_where_the_settings_do_not() {
    let free = Some(utf16le("Microsoft.QuietHoursProfile.Unrestricted"));
    let unknown = Some(vec![1, 2, 3]);
    assert!(!windows_do_not_disturb_enabled(&free, Some(1)));
    assert!(windows_do_not_disturb_enabled(&unknown, Some(1)));
    assert!(!windows_do_not_disturb_enabled(&unknown, Some(0)));
    assert!(windows_do_not_disturb_enabled(&None, Some(2)));
    assert!(!windows_do_not_disturb_enabled(&None, None));
}

#[test]
fn registry_answers_are_cut_to_size() {
    assert_eq!(registry_bytes(0, vec![1, 2, 3], 2), Some(vec![1, 2]));
    assert_eq!(registry_bytes(0, vec![1, 2, 3], 9), Some(vec![1, 2, 3]));
    assert_eq!(registry_bytes(2, vec![1, 2, 3], 2), None);
    assert_eq!(registry_number(0, 7), Some(7));
    assert_eq!(registry_number(2, 7), None);
    assert_eq!(SETTINGS_CAPACITY, 512);
}
