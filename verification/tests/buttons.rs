use ardor_mouse::protocol::buttons::{ButtonAction, PHYSICAL, SLOTS};

const LIVE: [[u8; 4]; 11] = [
    [0x01, 0x01, 0x00, 0x53],
    [0x01, 0x02, 0x00, 0x52],
    [0x01, 0x04, 0x00, 0x50],
    [0x01, 0x08, 0x00, 0x4C],
    [0x01, 0x10, 0x00, 0x44],
    [0x02, 0x01, 0x00, 0x52],
    [0x04, 0x0A, 0x03, 0x44],
    [0x08, 0x00, 0x00, 0x4D],
    [0x07, 0x00, 0x00, 0x4E],
    [0x02, 0x02, 0x00, 0x51],
    [0x02, 0x03, 0x00, 0x50],
];

#[test]
fn decodes_live_matrix() {
    let expect = [
        ButtonAction::Left,
        ButtonAction::Right,
        ButtonAction::Middle,
        ButtonAction::Back,
        ButtonAction::Forward,
        ButtonAction::DpiLoop,
        ButtonAction::Other([0x04, 0x0A, 0x03]),
        ButtonAction::Other([0x08, 0x00, 0x00]),
        ButtonAction::Other([0x07, 0x00, 0x00]),
        ButtonAction::DpiUp,
        ButtonAction::DpiDown,
    ];
    for (raw, act) in LIVE.iter().zip(expect) {
        assert_eq!(ButtonAction::decode(raw), Some(act));
        assert_eq!(&act.encode(), raw);
    }
}

#[test]
fn matches_cfg_hw_table() {
    let hw = |a: ButtonAction| {
        let [t, b1, b2] = a.bytes();
        t as u32 | (b1 as u32) << 8 | (b2 as u32) << 16
    };
    assert_eq!(hw(ButtonAction::Left), 0x101);
    assert_eq!(hw(ButtonAction::Right), 0x201);
    assert_eq!(hw(ButtonAction::Middle), 0x401);
    assert_eq!(hw(ButtonAction::Back), 0x801);
    assert_eq!(hw(ButtonAction::Forward), 0x1001);
    assert_eq!(hw(ButtonAction::DpiLoop), 0x102);
    assert_eq!(hw(ButtonAction::DpiUp), 0x202);
    assert_eq!(hw(ButtonAction::DpiDown), 0x302);
    assert_eq!(hw(ButtonAction::Disabled), 0);
}

#[test]
fn id_roundtrip() {
    for a in ButtonAction::CHOICES {
        assert_eq!(ButtonAction::from_id(&a.id()), Some(a));
    }
    let other = ButtonAction::Other([0x06, 0x02, 0x00]);
    assert_eq!(ButtonAction::from_id(&other.id()), Some(other));
}

#[test]
fn from_bytes_prefers_choices() {
    assert_eq!(ButtonAction::from_bytes([1, 1, 0]), ButtonAction::Left);
    assert_eq!(ButtonAction::from_bytes([0, 0, 0]), ButtonAction::Disabled);
    assert_eq!(ButtonAction::from_bytes([9, 9, 9]), ButtonAction::Other([9, 9, 9]));
    // a non-canonical Other comes back as the choice with its bytes
    let odd = ButtonAction::Other([2, 2, 0]);
    assert_eq!(ButtonAction::decode(&odd.encode()), Some(ButtonAction::DpiUp));
}

#[test]
fn decode_rejects_broken_slots() {
    assert_eq!(ButtonAction::decode(&[0x01, 0x01, 0x00]), None);
    assert_eq!(ButtonAction::decode(&[0x01, 0x01, 0x00, 0x54]), None);
}

#[test]
fn ids_and_parsing() {
    assert_eq!(ButtonAction::Left.id(), "010100");
    assert_eq!(ButtonAction::Other([0xAB, 0xCD, 0xEF]).id(), "abcdef");
    assert_eq!(ButtonAction::from_id("+010100"), Some(ButtonAction::Left));
    assert_eq!(ButtonAction::from_id("1ABCDEF"), Some(ButtonAction::Other([0xAB, 0xCD, 0xEF])));
    assert_eq!(ButtonAction::from_id(""), None);
    assert_eq!(ButtonAction::from_id("+"), None);
    assert_eq!(ButtonAction::from_id("-1"), None);
    assert_eq!(ButtonAction::from_id("xyz"), None);
    assert_eq!(ButtonAction::from_id("100000000"), None);
    assert_eq!(ButtonAction::from_id("FFFFFFFF"), Some(ButtonAction::Other([0xFF, 0xFF, 0xFF])));
}

#[test]
fn labels() {
    assert_eq!(ButtonAction::Left.label(), "Левый клик");
    assert_eq!(ButtonAction::DpiDown.label(), "DPI −");
    assert_eq!(ButtonAction::Other([0x04, 0x0A, 0x03]).label(), "Кнопка «Огонь» (04 0A 03)");
    assert_eq!(ButtonAction::Other([0x06, 0x02, 0x00]).label(), "Макрос (06 02 00)");
    assert_eq!(ButtonAction::Other([0x08, 0x00, 0x00]).label(), "Спецфункция (08 00 00)");
}

#[test]
fn physical_buttons_map_to_slots() {
    let slots: Vec<usize> = PHYSICAL.iter().map(|p| p.1).collect();
    assert_eq!(slots, vec![0, 1, 2, 4, 3, 5]);
    assert!(slots.iter().all(|&s| s < SLOTS));
}
