use ardor_mouse::protocol::packet::{
    checksum, cmd, to_hex, Packet, Response, CHECKSUM_BASE, REPORT_ID, RESPONSE_ID,
};

/// Live answers of the 25a7:fa7c receiver.
const LIVE_BATTERY: [u8; 17] = [
    0x09, 0x04, 0x00, 0x00, 0x00, 0x02, 0x28, 0x00, 0x00, 0x00, 0x00, 0x00, 0x00, 0x00, 0x00,
    0x00, 0x1E,
];
const LIVE_READ0: [u8; 17] = [
    0x09, 0x08, 0x00, 0x00, 0x00, 0x0A, 0x01, 0x54, 0x06, 0x4F, 0x01, 0x54, 0x00, 0x55, 0x00,
    0x55, 0x91,
];

#[test]
fn report_id_and_size() {
    let p = Packet::simple(cmd::BATTERY);
    assert_eq!(p.0.len(), 17);
    assert_eq!(p.0[0], REPORT_ID);
    assert_eq!(p.cmd(), cmd::BATTERY);
    assert!(p.verify());
}

#[test]
fn checksum_matches_re_formula() {
    let p = Packet::write_eeprom(0x00A0, &[7, 0xFF, 0, 0xFF, 0x96, 0x96, 0x24]);
    let mut odd = 0u8;
    let mut even = 0u8;
    for i in (0..16).step_by(2) {
        odd = odd.wrapping_add(p.0[i]);
        even = even.wrapping_add(p.0[i + 1]);
    }
    assert_eq!(p.0[16], b'U'.wrapping_sub(even).wrapping_sub(odd));
}

#[test]
fn read_request_layout() {
    let p = Packet::read_eeprom(0x0123, 10);
    assert_eq!(&p.0[..6], &[0x08, 0x08, 0x00, 0x01, 0x23, 0x0A]);
    assert_eq!(p.addr(), 0x0123);
    assert!(p.verify());
}

#[test]
fn write_request_layout() {
    let p = Packet::write_eeprom(0x0004, &[1, 0x54]);
    assert_eq!(&p.0[..8], &[0x08, 0x07, 0x00, 0x00, 0x04, 0x02, 0x01, 0x54]);
    assert_eq!(p.data(), &[1, 0x54]);
}

#[test]
fn parses_live_responses() {
    let r = Response::parse(&LIVE_BATTERY).unwrap();
    assert_eq!(r.cmd, cmd::BATTERY);
    assert_eq!(r.status, 0);
    assert_eq!(r.payload(), &[40, 0]);

    let r = Response::parse(&LIVE_READ0).unwrap();
    assert_eq!(r.cmd, cmd::READ_EEPROM);
    assert_eq!(r.payload()[..6], [0x01, 0x54, 0x06, 0x4F, 0x01, 0x54]);
}

#[test]
fn rejects_foreign_or_broken_reports() {
    let mut bad = LIVE_BATTERY;
    bad[16] ^= 1;
    assert!(Response::parse(&bad).is_none());
    assert!(Response::parse(&[1, 0, 0, 0, 0, 0, 0, 0, 0, 0, 0, 0, 0, 0, 0, 0, 0]).is_none());
}

#[test]
fn build_roundtrip() {
    let raw = Response::build(cmd::BATTERY, 0, 0, &[40, 0]);
    assert_eq!(raw, LIVE_BATTERY);
}

#[test]
fn checksum_of_empty_and_known_bytes() {
    assert_eq!(checksum(&[]), CHECKSUM_BASE);
    assert_eq!(checksum(&[0x55]), 0);
    assert_eq!(checksum(&[0x56]), 0xFF);
    assert_eq!(checksum(&[1, 1, 0]), 0x53);
}

#[test]
fn short_report_rejected() {
    assert!(Response::parse(&LIVE_BATTERY[..16]).is_none());
    let mut wrong_id = LIVE_BATTERY;
    wrong_id[0] = REPORT_ID;
    assert!(Response::parse(&wrong_id).is_none());
}

#[test]
fn long_report_uses_first_17_bytes() {
    let mut long = LIVE_BATTERY.to_vec();
    long.extend_from_slice(&[0xAA; 8]);
    let r = Response::parse(&long).unwrap();
    assert_eq!(r.addr, 0);
    assert_eq!(r.len, 2);
    assert_eq!(r.data, [0x28, 0, 0, 0, 0, 0, 0, 0, 0, 0]);
}

#[test]
fn packet_fields_and_payload_cap() {
    let mut p = Packet::write_eeprom(0xABCD, &[9; 10]);
    assert_eq!(p.addr(), 0xABCD);
    assert_eq!(p.len(), 10);
    assert_eq!(p.data(), &[9; 10]);
    p.0[5] = 200;
    assert_eq!(p.data().len(), 10);
    assert!(!p.verify());
}

#[test]
fn response_payload_capped_and_fields() {
    let raw = Response::build(cmd::READ_EEPROM, 3, 0x1234, &[1, 2, 3]);
    assert_eq!(raw[0], RESPONSE_ID);
    let r = Response::parse(&raw).unwrap();
    assert_eq!(r.status, 3);
    assert_eq!(r.addr, 0x1234);
    assert_eq!(r.payload(), &[1, 2, 3]);
}

#[test]
fn hex_dump() {
    assert_eq!(to_hex(&[]), "");
    assert_eq!(to_hex(&[0x08, 0xAB, 0x0F]), "08 AB 0F");
    let p = Packet::simple(cmd::BATTERY);
    assert_eq!(p.to_hex(), "08 04 00 00 00 00 00 00 00 00 00 00 00 00 00 00 49");
}

#[test]
fn checksum_ignores_order_and_sees_each_byte() {
    assert_eq!(checksum(&[1, 2, 3, 200]), checksum(&[200, 3, 1, 2]));
    assert_ne!(checksum(&[1, 2, 3]), checksum(&[1, 2, 4]));
    assert_ne!(checksum(&[0, 0]), checksum(&[0, 255]));
}
