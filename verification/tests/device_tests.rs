use dsled::device::{
    select_device, DeviceVariant, EDGE_PRODUCT_ID, REG_PRODUCT_ID, VENDOR_ID,
};

#[test]
fn select_regular_controller() {
    let devices: Vec<(u16, u16)> = vec![(0x054c, 0x0ce6)];
    let found = select_device(&devices);
    assert_eq!(found, Some(DeviceVariant::Regular));
    assert_eq!(found.unwrap().description(), "DualSense controller".to_string());
}

#[test]
fn select_edge_controller() {
    let devices: Vec<(u16, u16)> = vec![(0x054c, 0x0df2)];
    let found = select_device(&devices);
    assert_eq!(found, Some(DeviceVariant::Edge));
    assert_eq!(
        found.unwrap().description(),
        "DualSense Edge Controller".to_string()
    );
}

#[test]
fn select_nothing_when_no_supported_identity() {
    let devices: Vec<(u16, u16)> = vec![(0x1234, 0x5678), (0x054c, 0x9999), (0x0ce6, 0x054c)];
    assert_eq!(select_device(&devices), None);
}

#[test]
fn select_nothing_from_empty_list() {
    let devices: Vec<(u16, u16)> = Vec::new();
    assert_eq!(select_device(&devices), None);
}

#[test]
fn select_first_match_in_enumeration_order() {
    let devices: Vec<(u16, u16)> =
        vec![(0x046d, 0xc52b), (0x054c, 0x0df2), (0x054c, 0x0ce6)];
    assert_eq!(select_device(&devices), Some(DeviceVariant::Edge));
}

#[test]
fn variant_identifiers() {
    assert_eq!(VENDOR_ID, 0x054c);
    assert_eq!(REG_PRODUCT_ID, 0x0ce6);
    assert_eq!(EDGE_PRODUCT_ID, 0x0df2);
    assert_eq!(DeviceVariant::Regular.vendor_id(), 0x054c);
    assert_eq!(DeviceVariant::Regular.product_id(), 0x0ce6);
    assert_eq!(DeviceVariant::Edge.vendor_id(), 0x054c);
    assert_eq!(DeviceVariant::Edge.product_id(), 0x0df2);
}
