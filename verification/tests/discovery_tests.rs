use led_matrix::discovery::DeviceProbe;
use led_matrix::discovery::PRODUCT_ID;
use led_matrix::discovery::VENDOR_ID;
use led_matrix::discovery::find_devices;
use led_matrix::discovery::probe_is_match;

fn good_probe(serial: &str) -> DeviceProbe {
    DeviceProbe {
        vendor_id: VENDOR_ID,
        product_id: PRODUCT_ID,
        manufacturer: Some("Raspberry Pi".to_string()),
        product: Some("Pico".to_string()),
        serial_number: Some(serial.to_string()),
    }
}

#[test]
fn matching_device_is_found() {
    let probes = vec![good_probe("SN-1")];
    let found = find_devices(&probes);
    assert_eq!(found.len(), 1);
    assert_eq!(found[0].0, "Raspberry Pi");
    assert_eq!(found[0].1, "Pico");
    assert_eq!(found[0].2, "SN-1");
}

#[test]
fn wrong_ids_are_filtered_out() {
    let mut wrong_vendor = good_probe("SN-2");
    wrong_vendor.vendor_id = 0x1234;
    let mut wrong_product = good_probe("SN-3");
    wrong_product.product_id = 0x0001;
    let found = find_devices(&vec![wrong_vendor, wrong_product]);
    assert!(found.is_empty());
}

#[test]
fn wrong_descriptor_strings_are_filtered_out() {
    let mut wrong_manufacturer = good_probe("SN-4");
    wrong_manufacturer.manufacturer = Some("Some Other Vendor".to_string());
    let mut wrong_product = good_probe("SN-5");
    wrong_product.product = Some("Other Board".to_string());
    let found = find_devices(&vec![wrong_manufacturer, wrong_product]);
    assert!(found.is_empty());
}

#[test]
fn unreadable_devices_are_skipped_not_fatal() {
    let mut unreadable = good_probe("SN-6");
    unreadable.manufacturer = None;
    let mut no_serial = good_probe("SN-7");
    no_serial.serial_number = None;
    let probes = vec![unreadable, good_probe("SN-8"), no_serial, good_probe("SN-9")];
    let found = find_devices(&probes);
    assert_eq!(found.len(), 2);
    assert_eq!(found[0].2, "SN-8");
    assert_eq!(found[1].2, "SN-9");
}

#[test]
fn probe_match_requires_all_four_fields() {
    assert!(probe_is_match(&good_probe("SN-10")));
    let mut p = good_probe("SN-11");
    p.vendor_id = 0;
    assert!(!probe_is_match(&p));
}
