use ardor_mouse::protocol::buttons::ButtonAction;
use ardor_mouse::protocol::eeprom::{addr, DeviceConfig, PollingRate, PROFILE_LEN};
use ardor_mouse::protocol::led::{LedConfig, LedMode, Rgb};

/// Full profile dump of a live mouse (0x00..0xBD).
pub const LIVE_DUMP: [u8; 190] = [
    0x01, 0x54, 0x06, 0x4F, 0x01, 0x54, 0x00, 0x55, 0x00, 0x55, 0x01, 0x54, 0x07, 0x07, 0x00,
    0x47, 0x0F, 0x0F, 0x00, 0x37, 0x1F, 0x1F, 0x00, 0x17, 0x2F, 0x2F, 0x00, 0xF7, 0x3F, 0x3F,
    0x00, 0xD7, 0x7F, 0x7F, 0x00, 0x57, 0x77, 0x77, 0x22, 0x45, 0xBD, 0xBD, 0x22, 0xB9, 0xFF,
    0x00, 0x00, 0x56, 0x00, 0x00, 0xFF, 0x56, 0x00, 0xFF, 0x00, 0x56, 0xFF, 0xFF, 0x00, 0x57,
    0x00, 0xFF, 0xFF, 0x57, 0xFF, 0x00, 0xFF, 0x57, 0xFF, 0xFF, 0xFF, 0x58, 0x00, 0xFF, 0xFF,
    0x57, 0x02, 0x53, 0x80, 0xD5, 0x03, 0x52, 0x00, 0x55, 0xFF, 0x00, 0xFF, 0x57, 0x00, 0x55,
    0x80, 0xD5, 0x03, 0x52, 0x00, 0x55, 0x01, 0x01, 0x00, 0x53, 0x01, 0x02, 0x00, 0x52, 0x01,
    0x04, 0x00, 0x50, 0x01, 0x08, 0x00, 0x4C, 0x01, 0x10, 0x00, 0x44, 0x02, 0x01, 0x00, 0x52,
    0x04, 0x0A, 0x03, 0x44, 0x08, 0x00, 0x00, 0x4D, 0x07, 0x00, 0x00, 0x4E, 0x02, 0x02, 0x00,
    0x51, 0x02, 0x03, 0x00, 0x50, 0x00, 0x00, 0x00, 0x55, 0x00, 0x00, 0x00, 0x55, 0x00, 0x00,
    0x00, 0x55, 0x00, 0x00, 0x00, 0x55, 0x00, 0x00, 0x00, 0x55, 0x07, 0xFF, 0x00, 0xFF, 0x96,
    0x96, 0x24, 0x00, 0x55, 0x04, 0x51, 0x00, 0x55, 0x06, 0x4F, 0x00, 0x55, 0x00, 0x55, 0x01,
    0x54, 0xFF, 0xFF, 0xFF, 0xFF, 0xFF, 0xFF, 0xFF, 0xFF, 0xFF,
];

#[test]
fn decodes_live_profile() {
    let (c, warn) = DeviceConfig::decode(&LIVE_DUMP);
    assert!(warn.is_empty(), "{warn:?}");
    assert_eq!(c.polling, PollingRate::Hz1000);
    assert_eq!(c.dpi_count, 6);
    assert_eq!(c.dpi_active, 1);
    assert_eq!(c.dpi[c.dpi_active as usize].dpi, 800);
    assert_eq!(c.dpi[5].dpi, 6400);
    assert_eq!(c.dpi[0].color, Rgb::new(255, 0, 0));
    assert_eq!(c.dpi[1].color, Rgb::new(0, 0, 255));
    assert_eq!(c.lod, 1);
    assert_eq!(c.buttons[0], ButtonAction::Left);
    assert_eq!(c.buttons[5], ButtonAction::DpiLoop);
    assert_eq!(c.led.mode, LedMode::ColorBreathing);
    assert_eq!(c.debounce_ms, 4);
    assert_eq!(c.sleep_x10s, 6);
    assert!(!c.angle_snap);
    assert!(!c.ripple);
    assert!(c.led_off_moving);
}

#[test]
fn regions_reproduce_live_bytes() {
    let (c, _) = DeviceConfig::decode(&LIVE_DUMP);
    for r in c.regions() {
        let a = r.addr as usize;
        assert_eq!(&LIVE_DUMP[a..a + r.data.len()], &r.data[..], "регион {}", r.name);
    }
}

#[test]
fn diff_only_changed() {
    let (old, _) = DeviceConfig::decode(&LIVE_DUMP);
    assert!(old.changed_regions(&old).is_empty());
    let mut new = old.clone();
    new.dpi[2].dpi = 1750;
    new.polling = PollingRate::Hz500;
    let ch = new.changed_regions(&old);
    let addrs: Vec<u16> = ch.iter().map(|r| r.addr).collect();
    assert_eq!(addrs, vec![addr::POLLING, addr::DPI_TABLE]);
    assert_eq!(ch[0].data, vec![2, 0x53]);
}

#[test]
fn broken_fields_fall_back_to_defaults() {
    let mut mem = LIVE_DUMP;
    mem[1] = 0;
    mem[0xA6] ^= 1;
    let (c, warn) = DeviceConfig::decode(&mem);
    assert_eq!(c.polling, PollingRate::Hz1000);
    assert_eq!(c.led, LedConfig::default());
    assert_eq!(warn, vec!["частота опроса", "подсветка"]);
}

#[test]
fn validate_requires_left_click() {
    let mut c = DeviceConfig::default();
    assert!(c.validate().is_ok());
    c.buttons[0] = ButtonAction::Right;
    assert!(c.validate().is_err());
    c.buttons[4] = ButtonAction::Left;
    assert!(c.validate().is_ok());
}

#[test]
fn validate_messages() {
    let mut c = DeviceConfig::default();
    c.buttons[0] = ButtonAction::Right;
    assert_eq!(c.validate(), Err("Хотя бы одна кнопка должна быть назначена как «Левый клик»".to_string()));
    c.buttons[0] = ButtonAction::Left;
    c.dpi_count = 0;
    assert_eq!(c.validate(), Err("Нельзя отключить все ступени DPI".to_string()));
    c.dpi_count = 9;
    assert!(c.validate().is_err());
    // a left click on a slot of no physical button does not count
    let mut c = DeviceConfig::default();
    c.buttons[0] = ButtonAction::Disabled;
    c.buttons[10] = ButtonAction::Left;
    assert!(c.validate().is_err());
}

#[test]
fn short_image_falls_back_everywhere() {
    let (c, warn) = DeviceConfig::decode(&[]);
    assert_eq!(c, DeviceConfig::default());
    assert_eq!(
        warn,
        vec![
            "частота опроса",
            "число ступеней DPI",
            "активная ступень DPI",
            "LOD",
            "debounce",
            "время до сна",
            "выпрямление линии",
            "ripple",
            "гашение подсветки",
            "таблица DPI",
            "назначение кнопок",
            "подсветка",
        ]
    );
}

#[test]
fn broken_button_warns_once_and_active_level_is_capped() {
    let mut mem = LIVE_DUMP;
    mem[0x63] ^= 1; // slot 0
    mem[0x67] ^= 1; // slot 1
    mem[0x8F] ^= 1; // slot 11: no physical button
    // active level 5 with only 2 levels
    mem[0x02] = 2;
    mem[0x03] = 0x53;
    mem[0x04] = 5;
    mem[0x05] = 0x50;
    let (c, warn) = DeviceConfig::decode(&mem);
    assert_eq!(warn, vec!["назначение кнопок"]);
    assert_eq!(c.buttons[0], ButtonAction::Left);
    assert_eq!(c.buttons[11], ButtonAction::Disabled);
    assert_eq!(c.dpi_count, 2);
    assert_eq!(c.dpi_active, 1);
}

#[test]
fn broken_dpi_level_beyond_count_is_silent() {
    let mut mem = LIVE_DUMP;
    mem[0x0C + 7 * 4 + 3] ^= 1; // level 8, count is 6
    let (c, warn) = DeviceConfig::decode(&mem);
    assert!(warn.is_empty());
    assert_eq!(c.dpi[7].dpi, 19_000);
    mem[0x0C + 3] ^= 1; // level 1
    let (_, warn) = DeviceConfig::decode(&mem);
    assert_eq!(warn, vec!["таблица DPI"]);
}

#[test]
fn written_profile_reads_back() {
    let mut cfg = DeviceConfig::default();
    cfg.polling = PollingRate::Hz250;
    cfg.dpi[3].dpi = 12_300;
    cfg.led.mode = LedMode::Neon;
    cfg.ripple = true;
    cfg.buttons[7] = ButtonAction::Other([6, 1, 0]);
    let mut mem = vec![0xFFu8; PROFILE_LEN];
    for r in cfg.regions() {
        let a = r.addr as usize;
        mem[a..a + r.data.len()].copy_from_slice(&r.data);
    }
    let (back, warn) = DeviceConfig::decode(&mem);
    assert!(warn.is_empty(), "{warn:?}");
    assert_eq!(back, cfg);
}

#[test]
fn polling_rates() {
    for r in PollingRate::ALL {
        assert_eq!(PollingRate::from_hw(r.hw()), Some(r));
    }
    assert_eq!(PollingRate::from_hw(3), None);
    assert_eq!(PollingRate::Hz125.hz(), 125);
    assert_eq!(PollingRate::Hz1000.hw(), 1);
}

#[test]
fn region_names_and_count() {
    let names: Vec<&str> = DeviceConfig::default().regions().iter().map(|r| r.name).collect();
    assert_eq!(names.len(), 13);
    assert_eq!(names[0], "частота опроса");
    assert_eq!(names[12], "гашение подсветки");
}

#[test]
fn empty_image_names_every_part_once() {
    let (cfg, warn) = DeviceConfig::decode(&[]);
    assert_eq!(cfg, DeviceConfig::default());
    assert_eq!(
        warn,
        vec![
            "частота опроса",
            "число ступеней DPI",
            "активная ступень DPI",
            "LOD",
            "debounce",
            "время до сна",
            "выпрямление линии",
            "ripple",
            "гашение подсветки",
            "таблица DPI",
            "назначение кнопок",
            "подсветка",
        ]
    );
}

#[test]
fn any_image_decodes_within_range() {
    for seed in 0u32..64 {
        let mem: Vec<u8> = (0..PROFILE_LEN as u32 + (seed % 3))
            .map(|i| (i.wrapping_mul(2_654_435_761).wrapping_add(seed * 97) >> 13) as u8)
            .collect();
        let (c, warn) = DeviceConfig::decode(&mem);
        assert!((1..=8).contains(&c.dpi_count));
        assert!(c.dpi_active < c.dpi_count);
        assert!((1..=2).contains(&c.lod));
        assert!(c.debounce_ms <= 30 && c.sleep_x10s > 0);
        assert!(c.dpi.iter().all(|l| (50..=38_000).contains(&l.dpi)));
        assert!((1..=10).contains(&c.led.speed) && (1..=10).contains(&c.led.brightness));
        assert!(warn.windows(2).all(|w| w[0] != w[1]));
    }
    let (c, _) = DeviceConfig::decode(&[0x01, 0x54]);
    assert_eq!(c.polling, PollingRate::Hz1000);
}
