use ardor_mouse::protocol::dpi::{decode, decode_level, encode, encode_level, snap, FINE_LIMIT, MAX, MIN};

#[test]
fn live_eeprom_levels() {
    let live: [[u8; 4]; 8] = [
        [0x07, 0x07, 0x00, 0x47],
        [0x0F, 0x0F, 0x00, 0x37],
        [0x1F, 0x1F, 0x00, 0x17],
        [0x2F, 0x2F, 0x00, 0xF7],
        [0x3F, 0x3F, 0x00, 0xD7],
        [0x7F, 0x7F, 0x00, 0x57],
        [0x77, 0x77, 0x22, 0x45],
        [0xBD, 0xBD, 0x22, 0xB9],
    ];
    let expect = [400, 800, 1600, 2400, 3200, 6400, 12_000, 19_000];
    for (raw, dpi) in live.iter().zip(expect) {
        assert_eq!(decode_level(raw), Some(dpi));
        assert_eq!(&encode_level(dpi), raw, "encode {dpi}");
    }
}

#[test]
fn snapping() {
    assert_eq!(snap(0), 50);
    assert_eq!(snap(820), 800);
    assert_eq!(snap(830), 850);
    assert_eq!(snap(10_020), 10_000);
    assert_eq!(snap(10_060), 10_100);
    assert_eq!(snap(25_000), 19_000);
}

#[test]
fn roundtrip_whole_range() {
    let mut d = MIN;
    while d <= MAX {
        let (c, m) = encode(d);
        assert_eq!(decode(c, m), d);
        d += if d < FINE_LIMIT { 50 } else { 100 };
    }
}

#[test]
fn broken_checksum_rejected() {
    assert_eq!(decode_level(&[0x07, 0x07, 0x00, 0x48]), None);
}

#[test]
fn decode_multipliers() {
    assert_eq!(decode(7, 0), 400);
    assert_eq!(decode(7, 1), 800);
    assert_eq!(decode(7, 2), 800);
    assert_eq!(decode(7, 3), 1600);
    assert_eq!(decode(255, 3), 51_200);
}

#[test]
fn encode_off_grid_values() {
    assert_eq!(encode(12_345), (122, 2));
    assert_eq!(decode(122, 2), snap(12_345));
    assert_eq!(encode(u16::MAX), encode(MAX));
    assert_eq!(snap(10_049), 10_000);
    assert_eq!(snap(10_050), 10_100);
}

#[test]
fn short_or_out_of_range_level_rejected() {
    assert_eq!(decode_level(&[0x07, 0x07, 0x00]), None);
    // code 255 with multiplier 3 decodes to 51200, above the accepted range
    let raw = [0xFF, 0xFF, 0x03];
    let mut lvl = raw.to_vec();
    lvl.push(ardor_mouse::protocol::packet::checksum(&raw));
    assert_eq!(decode_level(&lvl), None);
}

#[test]
fn snap_picks_a_nearest_grid_value_and_keeps_order() {
    assert_eq!(snap(10_024), 10_000);
    assert_eq!(snap(10_049), 10_000);
    assert_eq!(snap(10_050), 10_100);
    assert_eq!(snap(10_149), 10_100);
    assert_eq!(snap(74), 50);
    assert_eq!(snap(75), 100);
    let mut last = 0;
    for x in (0..=u16::MAX).step_by(7) {
        let s = snap(x);
        assert!(s >= last);
        assert_eq!(snap(s), s);
        last = s;
    }
}
