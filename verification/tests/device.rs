use hid_scanner::device::{list_hid_devices, DeviceIdentity, DeviceRecord, EnumerationError};

#[test]
fn named_device_keeps_its_name() {
    let record = DeviceRecord {
        vendor_id: 0xE851,
        product_id: 0x1000,
        product_name: Some("Line Scanner".to_string()),
    };
    let identity = DeviceIdentity::from_record(&record);
    assert_eq!(
        identity,
        DeviceIdentity {
            vendor_id: 0xE851,
            product_id: 0x1000,
            display_name: "Line Scanner".to_string(),
        }
    );
}

#[test]
fn unnamed_device_is_unknown() {
    let record = DeviceRecord { vendor_id: 1, product_id: 2, product_name: None };
    let identity = DeviceIdentity::from_record(&record);
    assert_eq!(identity.vendor_id, 1);
    assert_eq!(identity.product_id, 2);
    assert_eq!(identity.display_name, "Unknown Device");
}

#[test]
fn empty_name_is_still_a_name() {
    let record = DeviceRecord { vendor_id: 1, product_id: 2, product_name: Some(String::new()) };
    assert_eq!(DeviceIdentity::from_record(&record).display_name, "");
}

#[test]
fn listing_keeps_every_device_in_order() {
    let found = vec![
        DeviceRecord { vendor_id: 0x046D, product_id: 0xC52B, product_name: Some("Receiver".to_string()) },
        DeviceRecord { vendor_id: 0xE851, product_id: 0x1000, product_name: None },
        DeviceRecord { vendor_id: 0x046D, product_id: 0xC52B, product_name: Some("Receiver".to_string()) },
    ];
    let listing = list_hid_devices(Ok(found)).unwrap();
    let plain: Vec<(u16, u16, String)> =
        listing.into_iter().map(|d| (d.vendor_id, d.product_id, d.display_name)).collect();
    assert_eq!(
        plain,
        vec![
            (0x046D, 0xC52B, "Receiver".to_string()),
            (0xE851, 0x1000, "Unknown Device".to_string()),
            (0x046D, 0xC52B, "Receiver".to_string()),
        ]
    );
}

#[test]
fn empty_enumeration_gives_an_empty_listing() {
    assert_eq!(list_hid_devices(Ok(Vec::new())), Ok(Vec::new()));
}

#[test]
fn failed_enumeration_is_passed_on() {
    let listing = list_hid_devices(Err("hidapi error: backend unavailable".to_string()));
    assert_eq!(
        listing,
        Err(EnumerationError { message: "hidapi error: backend unavailable".to_string() })
    );
}
