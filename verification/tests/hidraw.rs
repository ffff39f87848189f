use ardor_mouse::transport::hidraw::{
    after_poll, after_read, has_feature_report, hidiocsfeature, is_mouse, parse_hid_id,
    transport_name, ReadOutcome,
};

const DESC_IF1: &[u8] = &[
    0x05, 0x01, 0x09, 0x06, 0xA1, 0x01, 0x85, 0x01, 0x05, 0x07, 0x19, 0xE0, 0x29, 0xE7, 0x15,
    0x00, 0x25, 0x01, 0x75, 0x01, 0x95, 0x08, 0x81, 0x02, 0x05, 0x07, 0x19, 0x00, 0x2A, 0xFF,
    0x00, 0x95, 0x06, 0x75, 0x08, 0x15, 0x00, 0x26, 0xFF, 0x00, 0x81, 0x00, 0xC0, 0x06, 0x03,
    0xFF, 0x09, 0x00, 0xA1, 0x01, 0x85, 0x02, 0x09, 0x00, 0x15, 0x00, 0x26, 0xFF, 0x00, 0x75,
    0x08, 0x95, 0x07, 0x81, 0x02, 0xC0, 0x05, 0x0C, 0x09, 0x01, 0xA1, 0x01, 0x85, 0x05, 0x15,
    0x00, 0x26, 0x3C, 0x02, 0x19, 0x00, 0x2A, 0x3C, 0x02, 0x75, 0x10, 0x95, 0x01, 0x81, 0x00,
    0xC0, 0x05, 0x01, 0x09, 0x80, 0xA1, 0x01, 0x85, 0x03, 0x19, 0x81, 0x29, 0x83, 0x15, 0x00,
    0x25, 0x01, 0x95, 0x03, 0x75, 0x01, 0x81, 0x02, 0x95, 0x01, 0x75, 0x05, 0x81, 0x01, 0xC0,
    0x06, 0x01, 0xFF, 0x09, 0x00, 0xA1, 0x01, 0x85, 0x09, 0x09, 0x00, 0x95, 0x10, 0x75, 0x08,
    0x15, 0x00, 0x26, 0xFF, 0x00, 0x81, 0x02, 0xC0, 0x06, 0x04, 0xFF, 0x09, 0x02, 0xA1, 0x01,
    0x85, 0x06, 0x09, 0x02, 0x15, 0x00, 0x26, 0xFF, 0x00, 0x75, 0x08, 0x95, 0x07, 0xB1, 0x02,
    0xC0, 0x06, 0x02, 0xFF, 0x09, 0x02, 0xA1, 0x01, 0x85, 0x08, 0x09, 0x02, 0x15, 0x00, 0x26,
    0xFF, 0x00, 0x75, 0x08, 0x95, 0x10, 0xB1, 0x02, 0xC0,
];

#[test]
fn ioctl_number_matches_kernel_header() {
    assert_eq!(hidiocsfeature(17), 0xC011_4806);
}

#[test]
fn detects_command_interface() {
    assert!(has_feature_report(DESC_IF1, 0x08));
    assert!(has_feature_report(DESC_IF1, 0x06));
    assert!(!has_feature_report(DESC_IF1, 0x09));
    let mouse = [0x05, 0x01, 0x09, 0x02, 0xA1, 0x01, 0x09, 0x01, 0x81, 0x02, 0xC0];
    assert!(!has_feature_report(&mouse, 0x08));
}

#[test]
fn parses_uevent() {
    let s = "DRIVER=hid-generic\nHID_ID=0003:000025A7:0000FA7C\nHID_NAME=Compx\n";
    assert_eq!(parse_hid_id(s), Some((0x25A7, 0xFA7C)));
    assert_eq!(parse_hid_id("HID_NAME=x"), None);
}

#[test]
fn uevent_edge_cases() {
    assert_eq!(parse_hid_id("HID_ID=0003:000025A7:0000FA7B\r\n"), Some((0x25A7, 0xFA7B)));
    assert_eq!(parse_hid_id("HID_ID=0003:000025A7"), None);
    assert_eq!(parse_hid_id("HID_ID=0003:000025A7:"), None);
    assert_eq!(parse_hid_id("HID_ID=0003:1FFFF:2:extra"), Some((0xFFFF, 2)));
    assert_eq!(parse_hid_id("X\nHID_ID=1:zz:3\nHID_ID=1:2:3"), None);
    assert_eq!(parse_hid_id(""), None);
    assert_eq!(parse_hid_id(" HID_ID=1:2:3"), None);
}

#[test]
fn long_items_and_truncated_descriptors() {
    // a long item (0xFE, length 2) is skipped as a whole
    let d = [0xFE, 0x02, 0x00, 0xB1, 0xB1, 0x85, 0x08, 0xB1, 0x02];
    assert!(has_feature_report(&d, 0x08));
    assert!(!has_feature_report(&d, 0x00));
    assert!(has_feature_report(&[0xB1, 0x02], 0x00));
    assert!(!has_feature_report(&[0x85], 0x00));
    assert!(!has_feature_report(&[], 0x08));
}

#[test]
fn mouse_ids_and_names() {
    assert!(is_mouse(0x25A7, 0xFA7C));
    assert!(is_mouse(0x25A7, 0xFA7B));
    assert!(!is_mouse(0x25A7, 0xFA7A));
    assert!(!is_mouse(0x046D, 0xFA7C));
    assert_eq!(transport_name(0xFA7C, "hidraw3"), "2.4G-приёмник · hidraw3");
    assert_eq!(transport_name(0xFA7B, "hidraw1"), "USB-кабель · hidraw1");
}

#[test]
fn read_outcomes() {
    assert_eq!(after_poll(-1, true, false), ReadOutcome::Nothing);
    assert_eq!(after_poll(-1, false, false), ReadOutcome::Failed);
    assert_eq!(after_poll(0, false, true), ReadOutcome::Nothing);
    assert_eq!(after_poll(1, false, true), ReadOutcome::Gone);
    assert_eq!(after_poll(1, false, false), ReadOutcome::Report);
    assert_eq!(after_read(-1, true, true), ReadOutcome::Nothing);
    assert_eq!(after_read(-1, false, true), ReadOutcome::Gone);
    assert_eq!(after_read(-1, false, false), ReadOutcome::Failed);
    assert_eq!(after_read(0, false, false), ReadOutcome::Report);
    assert_eq!(after_read(17, true, true), ReadOutcome::Report);
}
