use usbhid::{
    find_mask_in_available_devices, is_mask_given, is_pid_and_vid_given, resolve_device,
    select_usb_device, DeviceDescriptor, DeviceIdentity, ScannerError, Selection,
};

fn desc(vid: u16, pid: u16, manufacturer: &str, product: &str) -> DeviceDescriptor {
    DeviceDescriptor {
        vendor_id: vid,
        product_id: pid,
        manufacturer_string: manufacturer.to_string(),
        product_string: product.to_string(),
    }
}

fn sample() -> Vec<DeviceDescriptor> {
    vec![desc(0x0c2e, 0x0db3, "Honeywell", "Scanner A"), desc(0x05e0, 0x1200, "Scanner Co", "Other")]
}

#[test]
fn pair_given_only_when_both_are_present() {
    assert!(is_pid_and_vid_given(Some(1), Some(2)));
    assert!(!is_pid_and_vid_given(None, Some(2)));
    assert!(!is_pid_and_vid_given(Some(1), None));
    assert!(!is_pid_and_vid_given(None, None));
}

#[test]
fn mask_given_when_present() {
    assert!(is_mask_given(&Some("x".to_string())));
    assert!(is_mask_given(&Some(String::new())));
    assert!(!is_mask_given(&None));
}

#[test]
fn product_match_precedes_manufacturer_match() {
    let c = sample();
    assert_eq!(find_mask_in_available_devices(&c, "Scanner"), Some(0));
    let found = find_mask_in_available_devices(&c, "Scanner").map(|k| c[k].product_string.clone());
    assert_eq!(found, Some("Scanner A".to_string()));
}

#[test]
fn manufacturer_match_when_no_product_matches() {
    let c = sample();
    assert_eq!(find_mask_in_available_devices(&c, "Co"), Some(1));
}

#[test]
fn later_product_match_beats_earlier_manufacturer_match() {
    let c = vec![desc(1, 1, "Acme Scan", "Keyboard"), desc(2, 2, "Other", "Scan Pro")];
    assert_eq!(find_mask_in_available_devices(&c, "Scan"), Some(1));
}

#[test]
fn mask_match_is_case_sensitive() {
    let c = sample();
    assert_eq!(find_mask_in_available_devices(&c, "scanner"), None);
}

#[test]
fn mask_match_takes_first_in_catalog_order() {
    let c = vec![desc(1, 1, "M", "Reader One"), desc(2, 2, "M", "Reader Two")];
    assert_eq!(find_mask_in_available_devices(&c, "Reader"), Some(0));
    assert_eq!(find_mask_in_available_devices(&c, "Two"), Some(1));
}

#[test]
fn mask_matching_nothing_fails() {
    let c = sample();
    assert_eq!(find_mask_in_available_devices(&c, "Zebra"), None);
    assert_eq!(
        resolve_device(None, None, &Some("Zebra".to_string()), &c),
        Err(ScannerError::NoDeviceForMask)
    );
}

#[test]
fn mask_on_empty_catalog_fails() {
    assert_eq!(
        resolve_device(None, None, &Some("Scanner".to_string()), &vec![]),
        Err(ScannerError::NoDeviceForMask)
    );
}

#[test]
fn mask_resolves_to_matching_identity() {
    let c = sample();
    assert_eq!(
        resolve_device(None, None, &Some("Scanner".to_string()), &c),
        Ok(Selection::Resolved(DeviceIdentity { vendor_id: 0x0c2e, product_id: 0x0db3 }))
    );
}

#[test]
fn explicit_pair_takes_precedence_over_mask() {
    let c = sample();
    assert_eq!(
        resolve_device(Some(0x1234), Some(0x5678), &Some("Scanner".to_string()), &c),
        Ok(Selection::Resolved(DeviceIdentity { vendor_id: 0x1234, product_id: 0x5678 }))
    );
    assert_eq!(
        resolve_device(Some(0x1234), Some(0x5678), &Some("Zebra".to_string()), &vec![]),
        Ok(Selection::Resolved(DeviceIdentity { vendor_id: 0x1234, product_id: 0x5678 }))
    );
}

#[test]
fn half_a_pair_falls_back_to_the_mask() {
    let c = sample();
    assert_eq!(
        resolve_device(Some(0x1234), None, &Some("Co".to_string()), &c),
        Ok(Selection::Resolved(DeviceIdentity { vendor_id: 0x05e0, product_id: 0x1200 }))
    );
}

#[test]
fn nothing_given_means_interactive_pick() {
    let c = sample();
    assert_eq!(resolve_device(None, None, &None, &c), Ok(Selection::Interactive));
    assert_eq!(resolve_device(None, Some(3), &None, &c), Ok(Selection::Interactive));
}

#[test]
fn index_within_catalog_is_accepted() {
    let c = sample();
    assert_eq!(select_usb_device(&c, "0\n"), Some(0));
    assert_eq!(select_usb_device(&c, "  1 \r\n"), Some(1));
    assert_eq!(select_usb_device(&c, "01"), Some(1));
}

#[test]
fn index_out_of_range_or_not_a_number_is_refused() {
    let c = sample();
    assert_eq!(select_usb_device(&c, "2\n"), None);
    assert_eq!(select_usb_device(&c, "abc\n"), None);
    assert_eq!(select_usb_device(&c, "\n"), None);
    assert_eq!(select_usb_device(&c, "1 1"), None);
    assert_eq!(select_usb_device(&c, "-1"), None);
    assert_eq!(select_usb_device(&c, "1x"), None);
    assert_eq!(select_usb_device(&c, "99999999999999999999999999"), None);
    assert_eq!(select_usb_device(&vec![], "0"), None);
}

#[test]
fn empty_mask_selects_first_device() {
    let c = sample();
    assert_eq!(find_mask_in_available_devices(&c, ""), Some(0));
}
