use ardor_mouse::protocol::led::{LedConfig, LedMode, Rgb, BRI_STD, SPEED_STD};

const LIVE: [u8; 7] = [0x07, 0xFF, 0x00, 0xFF, 0x96, 0x96, 0x24];

#[test]
fn decodes_live_block() {
    let c = LedConfig::decode(&LIVE).unwrap();
    assert_eq!(c.mode, LedMode::ColorBreathing);
    assert_eq!(c.color, Rgb::new(255, 0, 255));
    assert_eq!(c.speed, 6);
    assert_eq!(c.brightness, 6);
    assert_eq!(c.encode(), LIVE);
}

#[test]
fn hw_codes_are_unique_and_roundtrip() {
    for m in LedMode::ALL {
        assert_eq!(LedMode::from_hw(m.hw()), Some(m));
    }
}

#[test]
fn streaming_uses_own_tables() {
    let c = LedConfig { mode: LedMode::Streaming, color: Rgb::default(), speed: 10, brightness: 1 };
    let raw = c.encode();
    assert_eq!(raw[0], 0);
    assert_eq!(raw[4], 0x01);
    assert_eq!(raw[5], 0x48);
    assert_eq!(LedConfig::decode(&raw), Some(c));
}

#[test]
fn levels_are_clamped() {
    let c = LedConfig { mode: LedMode::Breathing, color: Rgb::default(), speed: 0, brightness: 99 };
    let raw = c.encode();
    assert_eq!(raw[4], SPEED_STD[0]);
    assert_eq!(raw[5], BRI_STD[9]);
}

#[test]
fn bad_checksum_rejected() {
    let mut raw = LIVE;
    raw[6] ^= 0x10;
    assert!(LedConfig::decode(&raw).is_none());
}

#[test]
fn unknown_mode_and_table_entries() {
    assert_eq!(LedMode::from_hw(6), None);
    let body = [0x06, 1, 2, 3, 0xFF, 0x2D];
    let mut raw = body.to_vec();
    raw.push(ardor_mouse::protocol::packet::checksum(&body));
    assert!(LedConfig::decode(&raw).is_none());
    // entries missing from the tables become the middle level
    let body = [0x01, 1, 2, 3, 0x11, 0x12];
    let mut raw = body.to_vec();
    raw.push(ardor_mouse::protocol::packet::checksum(&body));
    let c = LedConfig::decode(&raw).unwrap();
    assert_eq!((c.speed, c.brightness), (6, 6));
    assert_eq!(c.mode, LedMode::Breathing);
    assert_eq!(LedConfig::decode(&raw[..6]), None);
}

#[test]
fn mode_properties_and_defaults() {
    assert_eq!(LedMode::Steady.label(), "Статичная");
    assert_eq!(LedMode::Off.label(), "Выключена");
    assert!(LedMode::Steady.has_color() && !LedMode::Steady.has_speed());
    assert!(!LedMode::Neon.has_color() && LedMode::Neon.has_speed());
    assert!(!LedMode::Off.has_speed());
    assert_eq!(
        LedConfig::default(),
        LedConfig { mode: LedMode::ColorBreathing, color: Rgb::new(255, 0, 255), speed: 6, brightness: 6 }
    );
    assert_eq!(Rgb::new(255, 0, 10).to_hex(), "#FF000A");
}

#[test]
fn decode_reads_levels_by_first_table_entry() {
    let c = LedConfig::decode(&[2, 1, 2, 3, 0, 0x2D, 0x20]).unwrap();
    assert_eq!(c.mode, LedMode::Steady);
    assert_eq!(c.color, Rgb::new(1, 2, 3));
    assert_eq!((c.speed, c.brightness), (6, 1));
    assert!(LedConfig::decode(&[9, 1, 2, 3, 0, 0x2D, 0x55u8.wrapping_sub(9 + 1 + 2 + 3 + 0x2D)]).is_none());
    assert!(LedConfig::decode(&[2, 1, 2, 3, 0, 0x2D]).is_none());
}
