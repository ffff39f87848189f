//! EEPROM map of the mouse profile and the settings model.
//!
//! | Address | Size | Content |
//! |---|---|---|
//! | 0x00 | 2 | polling rate `[v][0x55-v]`: 1=1000, 2=500, 4=250, 8=125 Hz |
//! | 0x02 | 2 | number of DPI levels (1..8) |
//! | 0x04 | 2 | active DPI level (from zero) |
//! | 0x0A | 2 | lift-off distance (1 / 2 mm) |
//! | 0x0C | 32 | 8 DPI levels of 4 bytes (see [`dpi`](super::dpi)) |
//! | 0x2C | 32 | 8 DPI indicator colours `[R][G][B][0x55-sum]` |
//! | 0x4C | 8 | DPI indicator effect (not edited) |
//! | 0x60 | 64 | button matrix (see [`buttons`](super::buttons)) |
//! | 0xA0 | 7 | lighting (see [`led`](super::led)) |
//! | 0xA9 | 2 | debounce, ms |
//! | 0xAD | 2 | time to sleep, x10 s |
//! | 0xAF | 2 | angle snapping |
//! | 0xB1 | 2 | ripple control |
//! | 0xB3 | 2 | lighting off while moving |
pub mod addr;
pub mod image;

use vstd::prelude::*;
use super::buttons::{self, ButtonAction, physical_slots};
use super::dpi::{self, level_bytes, level_value};
use super::led::{LedConfig, Rgb, led_bytes, led_value};
use super::packet::{byte_sum, checksum, checksum_spec, CHECKSUM_BASE};

verus! {

/// Profile bytes read by the vendor utility.
pub const PROFILE_LEN: usize = 0xB5;
/// DPI levels in the table.
pub const DPI_SLOTS: usize = 8;

/// Polling rate.
#[derive(Clone, Copy, Debug, PartialEq, Eq, Structural)]
pub enum PollingRate {
    Hz125,
    Hz250,
    Hz500,
    Hz1000,
}

impl PollingRate {
    pub const ALL: [PollingRate; 4] = [
        PollingRate::Hz125,
        PollingRate::Hz250,
        PollingRate::Hz500,
        PollingRate::Hz1000,
    ];

    /// Firmware code of the rate.
    pub open spec fn hw_code(self) -> u8 {
        match self {
            PollingRate::Hz125 => 8,
            PollingRate::Hz250 => 4,
            PollingRate::Hz500 => 2,
            PollingRate::Hz1000 => 1,
        }
    }

    /// The rate whose firmware code is `v`, if any.
    pub open spec fn of_hw(v: u8) -> Option<PollingRate> {
        match v {
            8 => Some(PollingRate::Hz125),
            4 => Some(PollingRate::Hz250),
            2 => Some(PollingRate::Hz500),
            1 => Some(PollingRate::Hz1000),
            _ => None,
        }
    }

    pub fn hw(self) -> (r: u8)
        ensures
            r == self.hw_code(),
    {
        match self {
            PollingRate::Hz125 => 8,
            PollingRate::Hz250 => 4,
            PollingRate::Hz500 => 2,
            PollingRate::Hz1000 => 1,
        }
    }

    pub fn from_hw(v: u8) -> (r: Option<Self>)
        ensures
            r == Self::of_hw(v),
    {
        let all = Self::ALL;
        let mut i: usize = 0;
        while i < 4
            invariant
                i <= 4,
                all@ == Self::ALL@,
                forall|j: int| 0 <= j < i ==> all@[j].hw_code() != v,
            decreases 4 - i,
        {
            if all[i].hw() == v {
                return Some(all[i]);
            }
            i = i + 1;
        }
        None
    }

    pub fn hz(self) -> (r: u16)
        ensures
            r == match self {
                PollingRate::Hz125 => 125u16,
                PollingRate::Hz250 => 250,
                PollingRate::Hz500 => 500,
                PollingRate::Hz1000 => 1000,
            },
    {
        match self {
            PollingRate::Hz125 => 125,
            PollingRate::Hz250 => 250,
            PollingRate::Hz500 => 500,
            PollingRate::Hz1000 => 1000,
        }
    }
}

#[derive(Clone, Copy, Debug, PartialEq, Eq, Structural)]
pub struct DpiLevel {
    pub dpi: u16,
    pub color: Rgb,
}

/// The full editable profile of the mouse.
#[derive(Clone, Debug, PartialEq, Eq)]
pub struct DeviceConfig {
    pub polling: PollingRate,
    /// DPI levels taking part in switching (1..8).
    pub dpi_count: u8,
    /// Active level (from zero).
    pub dpi_active: u8,
    pub dpi: [DpiLevel; DPI_SLOTS],
    /// Lift-off distance: 1 or 2 mm.
    pub lod: u8,
    pub buttons: [ButtonAction; buttons::SLOTS],
    pub led: LedConfig,
    pub debounce_ms: u8,
    /// Time to sleep in tens of seconds.
    pub sleep_x10s: u8,
    pub angle_snap: bool,
    pub ripple: bool,
    pub led_off_moving: bool,
}

/// A contiguous EEPROM range to write.
#[derive(Clone, Debug, PartialEq, Eq)]
pub struct Region {
    pub addr: u16,
    pub data: Vec<u8>,
    pub name: &'static str,
}

/// Fields that could not be parsed (taken from the factory values).
pub type DecodeWarnings = Vec<&'static str>;

impl DeviceConfig {
    /// Factory profile.
    pub open spec fn factory() -> DeviceConfig {
        DeviceConfig {
            polling: PollingRate::Hz1000,
            dpi_count: 6,
            dpi_active: 1,
            dpi: [
                DpiLevel { dpi: 400, color: Rgb { r: 255, g: 0, b: 0 } },
                DpiLevel { dpi: 800, color: Rgb { r: 0, g: 0, b: 255 } },
                DpiLevel { dpi: 1600, color: Rgb { r: 0, g: 255, b: 0 } },
                DpiLevel { dpi: 2400, color: Rgb { r: 255, g: 255, b: 0 } },
                DpiLevel { dpi: 3200, color: Rgb { r: 0, g: 255, b: 255 } },
                DpiLevel { dpi: 6400, color: Rgb { r: 255, g: 0, b: 255 } },
                DpiLevel { dpi: 12_000, color: Rgb { r: 255, g: 255, b: 255 } },
                DpiLevel { dpi: 19_000, color: Rgb { r: 0, g: 255, b: 255 } },
            ],
            lod: 1,
            buttons: [
                ButtonAction::Left,
                ButtonAction::Right,
                ButtonAction::Middle,
                ButtonAction::Back,
                ButtonAction::Forward,
                ButtonAction::DpiLoop,
                ButtonAction::Disabled,
                ButtonAction::Disabled,
                ButtonAction::Disabled,
                ButtonAction::Disabled,
                ButtonAction::Disabled,
                ButtonAction::Disabled,
                ButtonAction::Disabled,
                ButtonAction::Disabled,
                ButtonAction::Disabled,
                ButtonAction::Disabled,
            ],
            led: LedConfig::factory(),
            debounce_ms: 4,
            sleep_x10s: 6,
            angle_snap: false,
            ripple: false,
            led_off_moving: false,
        }
    }
}

impl Default for DeviceConfig {
    /// Factory values.
    fn default() -> (c: Self)
        ensures
            c == DeviceConfig::factory(),
    {
        let c = DeviceConfig {
            polling: PollingRate::Hz1000,
            dpi_count: 6,
            dpi_active: 1,
            dpi: [
                DpiLevel { dpi: 400, color: Rgb::new(255, 0, 0) },
                DpiLevel { dpi: 800, color: Rgb::new(0, 0, 255) },
                DpiLevel { dpi: 1600, color: Rgb::new(0, 255, 0) },
                DpiLevel { dpi: 2400, color: Rgb::new(255, 255, 0) },
                DpiLevel { dpi: 3200, color: Rgb::new(0, 255, 255) },
                DpiLevel { dpi: 6400, color: Rgb::new(255, 0, 255) },
                DpiLevel { dpi: 12_000, color: Rgb::new(255, 255, 255) },
                DpiLevel { dpi: 19_000, color: Rgb::new(0, 255, 255) },
            ],
            lod: 1,
            buttons: [
                ButtonAction::Left,
                ButtonAction::Right,
                ButtonAction::Middle,
                ButtonAction::Back,
                ButtonAction::Forward,
                ButtonAction::DpiLoop,
                ButtonAction::Disabled,
                ButtonAction::Disabled,
                ButtonAction::Disabled,
                ButtonAction::Disabled,
                ButtonAction::Disabled,
                ButtonAction::Disabled,
                ButtonAction::Disabled,
                ButtonAction::Disabled,
                ButtonAction::Disabled,
                ButtonAction::Disabled,
            ],
            led: LedConfig::default(),
            debounce_ms: 4,
            sleep_x10s: 6,
            angle_snap: false,
            ripple: false,
            led_off_moving: false,
        };
        assert(c.dpi =~= DeviceConfig::factory().dpi);
        assert(c.buttons =~= DeviceConfig::factory().buttons);
        c
    }
}

/// A byte stored with its check byte: `[v][0x55 - v]`.
pub open spec fn pair_bytes(v: u8) -> Seq<u8> {
    seq![v, checksum_spec(seq![v])]
}

/// The value of the pair at address `a`, if both bytes are there and match.
pub open spec fn pair_at(mem: Seq<u8>, a: int) -> Option<u8> {
    if 0 <= a && a + 1 < mem.len() && mem[a + 1] == checksum_spec(seq![mem[a]]) {
        Some(mem[a])
    } else {
        None
    }
}

/// `n` bytes at address `a`, if the image holds them.
pub open spec fn slice_at(mem: Seq<u8>, a: int, n: int) -> Option<Seq<u8>> {
    if 0 <= a && a + n <= mem.len() {
        Some(mem.subrange(a, a + n))
    } else {
        None
    }
}

/// Range of values accepted for the single-byte field at address `a`.
pub open spec fn field_ok(a: u16, v: u8) -> bool {
    if a == addr::POLLING {
        PollingRate::of_hw(v) is Some
    } else if a == addr::DPI_COUNT {
        1 <= v <= 8
    } else if a == addr::DPI_ACTIVE {
        v < 8
    } else if a == addr::LOD {
        1 <= v <= 2
    } else if a == addr::DEBOUNCE {
        v <= 30
    } else if a == addr::SLEEP {
        v > 0
    } else {
        true
    }
}

/// A single-byte field: its pair is intact and the value is in range.
pub open spec fn field_at(mem: Seq<u8>, a: u16) -> Option<u8> {
    match pair_at(mem, a as int) {
        Some(v) => if field_ok(a, v) { Some(v) } else { None },
        None => None,
    }
}

/// Byte field with its factory value as fallback.
pub open spec fn field_or(mem: Seq<u8>, a: u16, dflt: u8) -> u8 {
    match field_at(mem, a) {
        Some(v) => v,
        None => dflt,
    }
}

/// Flag field (non-zero is on) with its factory value as fallback.
pub open spec fn flag_or(mem: Seq<u8>, a: u16, dflt: bool) -> bool {
    match field_at(mem, a) {
        Some(v) => v != 0,
        None => dflt,
    }
}

/// Stored value of DPI level `i`.
pub open spec fn level_dpi_at(mem: Seq<u8>, i: int) -> Option<u16> {
    match slice_at(mem, addr::DPI_TABLE + 4 * i, 4) {
        Some(raw) => level_value(raw),
        None => None,
    }
}

/// The four bytes of an indicator colour.
pub open spec fn color_bytes(c: Rgb) -> Seq<u8> {
    seq![c.r, c.g, c.b, checksum_spec(seq![c.r, c.g, c.b])]
}

/// Stored indicator colour of DPI level `i`.
pub open spec fn level_color_at(mem: Seq<u8>, i: int) -> Option<Rgb> {
    match slice_at(mem, addr::DPI_COLORS + 4 * i, 4) {
        Some(c) => if c[3] == checksum_spec(c.take(3)) {
            Some(Rgb { r: c[0], g: c[1], b: c[2] })
        } else {
            None
        },
        None => None,
    }
}

/// DPI level `i` as decoded, broken parts taken from the factory profile.
pub open spec fn level_at(mem: Seq<u8>, i: int) -> DpiLevel {
    let f = DeviceConfig::factory().dpi[i];
    DpiLevel {
        dpi: match level_dpi_at(mem, i) {
            Some(v) => v,
            None => f.dpi,
        },
        color: match level_color_at(mem, i) {
            Some(c) => c,
            None => f.color,
        },
    }
}

/// Stored action of button slot `i`.
pub open spec fn button_slot_at(mem: Seq<u8>, i: int) -> Option<ButtonAction> {
    match slice_at(mem, addr::BUTTONS + 4 * i, 4) {
        Some(raw) => if raw[3] == checksum_spec(raw.take(3)) {
            Some(ButtonAction::of_code([raw[0], raw[1], raw[2]]))
        } else {
            None
        },
        None => None,
    }
}

/// Button slot `i` as decoded, a broken slot taken from the factory profile.
pub open spec fn button_at(mem: Seq<u8>, i: int) -> ButtonAction {
    match button_slot_at(mem, i) {
        Some(b) => b,
        None => DeviceConfig::factory().buttons[i],
    }
}

/// Stored lighting block.
pub open spec fn led_at(mem: Seq<u8>) -> Option<LedConfig> {
    match slice_at(mem, addr::LED as int, 7) {
        Some(raw) => led_value(raw),
        None => None,
    }
}

/// The profile that `DeviceConfig::decode` reads from an image.
pub open spec fn decoded(mem: Seq<u8>) -> DeviceConfig {
    let f = DeviceConfig::factory();
    let count = field_or(mem, addr::DPI_COUNT, f.dpi_count);
    let active = field_or(mem, addr::DPI_ACTIVE, f.dpi_active);
    DeviceConfig {
        polling: match field_at(mem, addr::POLLING) {
            Some(v) => PollingRate::of_hw(v)->0,
            None => f.polling,
        },
        dpi_count: count,
        dpi_active: if active < count - 1 { active } else { (count - 1) as u8 },
        dpi: [
            level_at(mem, 0),
            level_at(mem, 1),
            level_at(mem, 2),
            level_at(mem, 3),
            level_at(mem, 4),
            level_at(mem, 5),
            level_at(mem, 6),
            level_at(mem, 7),
        ],
        lod: field_or(mem, addr::LOD, f.lod),
        buttons: [
            button_at(mem, 0),
            button_at(mem, 1),
            button_at(mem, 2),
            button_at(mem, 3),
            button_at(mem, 4),
            button_at(mem, 5),
            button_at(mem, 6),
            button_at(mem, 7),
            button_at(mem, 8),
            button_at(mem, 9),
            button_at(mem, 10),
            button_at(mem, 11),
            button_at(mem, 12),
            button_at(mem, 13),
            button_at(mem, 14),
            button_at(mem, 15),
        ],
        led: match led_at(mem) {
            Some(l) => l,
            None => f.led,
        },
        debounce_ms: field_or(mem, addr::DEBOUNCE, f.debounce_ms),
        sleep_x10s: field_or(mem, addr::SLEEP, f.sleep_x10s),
        angle_snap: flag_or(mem, addr::ANGLE_SNAP, f.angle_snap),
        ripple: flag_or(mem, addr::RIPPLE, f.ripple),
        led_off_moving: flag_or(mem, addr::LED_OFF_MOVING, f.led_off_moving),
    }
}

/// A level among the first `count` has a broken value or colour.
pub open spec fn dpi_table_bad(mem: Seq<u8>, count: u8) -> bool {
    exists|i: int|
        0 <= i < 8 && i < count && (level_dpi_at(mem, i) is None || level_color_at(mem, i) is None)
}

/// A physical button has a broken slot.
pub open spec fn buttons_bad(mem: Seq<u8>) -> bool {
    exists|i: int| 0 <= i < 6 && button_slot_at(mem, i) is None
}

/// `seq![name]` when `cond` holds, else nothing.
pub open spec fn note(cond: bool, name: Seq<char>) -> Seq<Seq<char>> {
    if cond { seq![name] } else { Seq::empty() }
}

/// The warnings `DeviceConfig::decode` gives for an image, in order.
pub open spec fn warnings(mem: Seq<u8>) -> Seq<Seq<char>> {
    note(field_at(mem, addr::POLLING) is None, "частота опроса"@)
        + note(field_at(mem, addr::DPI_COUNT) is None, "число ступеней DPI"@)
        + note(field_at(mem, addr::DPI_ACTIVE) is None, "активная ступень DPI"@)
        + note(field_at(mem, addr::LOD) is None, "LOD"@)
        + note(field_at(mem, addr::DEBOUNCE) is None, "debounce"@)
        + note(field_at(mem, addr::SLEEP) is None, "время до сна"@)
        + note(field_at(mem, addr::ANGLE_SNAP) is None, "выпрямление линии"@)
        + note(field_at(mem, addr::RIPPLE) is None, "ripple"@)
        + note(field_at(mem, addr::LED_OFF_MOVING) is None, "гашение подсветки"@)
        + note(dpi_table_bad(mem, field_or(mem, addr::DPI_COUNT, 6)), "таблица DPI"@)
        + note(buttons_bad(mem), "назначение кнопок"@)
        + note(led_at(mem) is None, "подсветка"@)
}

/// Views of a list of names.
pub open spec fn names(w: Seq<&'static str>) -> Seq<Seq<char>> {
    w.map_values(|s: &'static str| s@)
}

proof fn lemma_pair_checksum(v: u8)
    ensures
        checksum_spec(seq![v]) == CHECKSUM_BASE.wrapping_sub(v),
{
    assert(seq![v].drop_last() =~= Seq::<u8>::empty());
    assert(byte_sum(Seq::<u8>::empty()) == 0);
    assert(seq![v].last() == v);
    assert(byte_sum(seq![v]) == v);
}

/// `[v][0x55 - v]`.
fn pair(v: u8) -> (r: Vec<u8>)
    ensures
        r@ == pair_bytes(v),
{
    proof {
        lemma_pair_checksum(v);
    }
    let mut r = Vec::new();
    r.push(v);
    r.push(CHECKSUM_BASE.wrapping_sub(v));
    assert(r@ =~= pair_bytes(v));
    r
}

fn read_pair(mem: &[u8], a: u16) -> (r: Option<u8>)
    ensures
        r == pair_at(mem@, a as int),
{
    let a = a as usize;
    if a + 1 >= mem.len() {
        return None;
    }
    let (v, c) = (mem[a], mem[a + 1]);
    proof {
        lemma_pair_checksum(v);
    }
    if c == CHECKSUM_BASE.wrapping_sub(v) {
        Some(v)
    } else {
        None
    }
}

/// A single-byte field, `None` when its pair is broken or the value is out
/// of range.
fn read_field(mem: &[u8], a: u16) -> (r: Option<u8>)
    ensures
        r == field_at(mem@, a),
{
    match read_pair(mem, a) {
        Some(v) => {
            let ok = if a == addr::POLLING {
                PollingRate::from_hw(v).is_some()
            } else if a == addr::DPI_COUNT {
                1 <= v && v <= 8
            } else if a == addr::DPI_ACTIVE {
                v < 8
            } else if a == addr::LOD {
                1 <= v && v <= 2
            } else if a == addr::DEBOUNCE {
                v <= 30
            } else if a == addr::SLEEP {
                v > 0
            } else {
                true
            };
            if ok {
                Some(v)
            } else {
                None
            }
        },
        None => None,
    }
}

/// `n` bytes at `a`, if the image holds them.
fn read_slice(mem: &[u8], a: usize, n: usize) -> (r: Option<&[u8]>)
    requires
        a + n <= usize::MAX,
    ensures
        match r {
            Some(s) => slice_at(mem@, a as int, n as int) == Some(s@),
            None => slice_at(mem@, a as int, n as int) is None,
        },
{
    if a + n <= mem.len() {
        Some(&mem[a..a + n])
    } else {
        None
    }
}

/// Reads the DPI table and colours. The flag tells whether one of the first
/// `count` levels was broken.
fn read_dpi_levels(mem: &[u8], count: u8) -> (r: ([DpiLevel; DPI_SLOTS], bool))
    ensures
        forall|i: int| 0 <= i < 8 ==> r.0[i] == level_at(mem@, i),
        r.1 == dpi_table_bad(mem@, count),
{
    let mut levels = DeviceConfig::default().dpi;
    let mut bad = false;
    let mut i: usize = 0;
    while i < DPI_SLOTS
        invariant
            i <= DPI_SLOTS,
            forall|j: int| 0 <= j < i ==> levels[j] == level_at(mem@, j),
            forall|j: int| i <= j < 8 ==> levels[j] == DeviceConfig::factory().dpi[j],
            bad == exists|j: int|
                0 <= j < i && j < count && (level_dpi_at(mem@, j) is None || level_color_at(
                    mem@,
                    j,
                ) is None),
        decreases DPI_SLOTS - i,
    {
        let off = i * 4;
        let mut lvl = levels[i];
        let dv = match read_slice(mem, addr::DPI_TABLE as usize + off, 4) {
            Some(raw) => dpi::decode_level(raw),
            None => None,
        };
        assert(dv == level_dpi_at(mem@, i as int));
        let dpi_ok = match dv {
            Some(v) => {
                lvl.dpi = v;
                true
            },
            None => false,
        };
        let color = match read_slice(mem, addr::DPI_COLORS as usize + off, 4) {
            Some(c) => {
                let head = &c[0..3];
                assert(head@ =~= c@.take(3));
                if c[3] == checksum(head) {
                    Some(Rgb::new(c[0], c[1], c[2]))
                } else {
                    None
                }
            },
            None => None,
        };
        assert(color == level_color_at(mem@, i as int));
        let color_ok = match color {
            Some(c) => {
                lvl.color = c;
                true
            },
            None => false,
        };
        let ghost old_bad = bad;
        if (!dpi_ok || !color_ok) && i < count as usize {
            bad = true;
        }
        proof {
            let p = |j: int|
                0 <= j < i + 1 && j < count && (level_dpi_at(mem@, j) is None || level_color_at(
                    mem@,
                    j,
                ) is None);
            if bad && !old_bad {
                assert(p(i as int));
            }
        }
        assert(lvl == level_at(mem@, i as int));
        levels[i] = lvl;
        i = i + 1;
    }
    (levels, bad)
}

/// Reads the button matrix. The flag tells whether a physical button's slot
/// was broken.
fn read_buttons(mem: &[u8]) -> (r: ([ButtonAction; buttons::SLOTS], bool))
    ensures
        forall|i: int| 0 <= i < 16 ==> r.0[i] == button_at(mem@, i),
        r.1 == buttons_bad(mem@),
{
    let mut btns = DeviceConfig::default().buttons;
    let mut bad = false;
    let mut i: usize = 0;
    while i < buttons::SLOTS
        invariant
            i <= buttons::SLOTS,
            forall|j: int| 0 <= j < i ==> btns[j] == button_at(mem@, j),
            forall|j: int| i <= j < 16 ==> btns[j] == DeviceConfig::factory().buttons[j],
            bad == exists|j: int| 0 <= j < i && j < 6 && button_slot_at(mem@, j) is None,
        decreases buttons::SLOTS - i,
    {
        let b = match read_slice(mem, addr::BUTTONS as usize + i * 4, 4) {
            Some(raw) => ButtonAction::decode(raw),
            None => None,
        };
        assert(b == button_slot_at(mem@, i as int));
        let ghost old_bad = bad;
        match b {
            Some(v) => {
                btns[i] = v;
            },
            None => {
                if i < buttons::PHYSICAL.len() {
                    bad = true;
                }
            },
        }
        proof {
            if bad && !old_bad {
                assert(0 <= i < i + 1 && i < 6 && button_slot_at(mem@, i as int) is None);
            }
        }
        i = i + 1;
    }
    (btns, bad)
}

/// A single-byte field, or `dflt` with `name` appended to the warnings.
fn field_or_warn(mem: &[u8], a: u16, dflt: u8, name: &'static str, warn: &mut DecodeWarnings) -> (r: u8)
    ensures
        r == field_or(mem@, a, dflt),
        names(final(warn)@) == names(old(warn)@) + note(field_at(mem@, a) is None, name@),
{
    match read_field(mem, a) {
        Some(v) => {
            assert(names(warn@) =~= names(warn@) + note(false, name@));
            v
        },
        None => {
            let ghost before = names(warn@);
            warn.push(name);
            assert(names(warn@) =~= before + note(true, name@));
            dflt
        },
    }
}

impl DeviceConfig {
    /// Parses a profile image (address 0 at `mem[0]`). Broken fields are
    /// replaced by factory values and named in the warnings.
    pub fn decode(mem: &[u8]) -> (r: (Self, DecodeWarnings))
        ensures
            r.0 == decoded(mem@),
            names(r.1@) == warnings(mem@),
    {
        let d = Self::default();
        let mut warn: DecodeWarnings = Vec::new();
        let ghost mem_v = mem@;
        assert(names(warn@) =~= Seq::<Seq<char>>::empty());

        let polling_code = field_or_warn(mem, addr::POLLING, 1, "частота опроса", &mut warn);
        let polling = match PollingRate::from_hw(polling_code) {
            Some(p) => p,
            None => d.polling,
        };
        let dpi_count = field_or_warn(mem, addr::DPI_COUNT, d.dpi_count, "число ступеней DPI", &mut warn);
        let dpi_active = field_or_warn(mem, addr::DPI_ACTIVE, d.dpi_active, "активная ступень DPI", &mut warn);
        let lod = field_or_warn(mem, addr::LOD, d.lod, "LOD", &mut warn);
        let debounce_ms = field_or_warn(mem, addr::DEBOUNCE, d.debounce_ms, "debounce", &mut warn);
        let sleep_x10s = field_or_warn(mem, addr::SLEEP, d.sleep_x10s, "время до сна", &mut warn);
        let angle_snap = field_or_warn(mem, addr::ANGLE_SNAP, 0, "выпрямление линии", &mut warn) != 0;
        let ripple = field_or_warn(mem, addr::RIPPLE, 0, "ripple", &mut warn) != 0;
        let led_off_moving = field_or_warn(mem, addr::LED_OFF_MOVING, 0, "гашение подсветки", &mut warn) != 0;
        let ghost w9 = names(warn@);

        let (dpi_levels, dpi_bad) = read_dpi_levels(mem, dpi_count);
        if dpi_bad {
            warn.push("таблица DPI");
        }
        let ghost w10 = names(warn@);
        assert(w10 =~= w9 + note(dpi_table_bad(mem_v, dpi_count), "таблица DPI"@));

        let (btns, buttons_broken) = read_buttons(mem);
        if buttons_broken {
            warn.push("назначение кнопок");
        }
        let ghost w11 = names(warn@);
        assert(w11 =~= w10 + note(buttons_bad(mem_v), "назначение кнопок"@));

        let led = match read_slice(mem, addr::LED as usize, 7) {
            Some(raw) => match LedConfig::decode(raw) {
                Some(l) => Some(l),
                None => None,
            },
            None => None,
        };
        let led = match led {
            Some(l) => l,
            None => {
                warn.push("подсветка");
                d.led
            },
        };
        assert(names(warn@) =~= w11 + note(led_at(mem_v) is None, "подсветка"@));

        let active = if dpi_active < dpi_count - 1 { dpi_active } else { dpi_count - 1 };
        let cfg = DeviceConfig {
            polling,
            dpi_count,
            dpi_active: active,
            dpi: dpi_levels,
            lod,
            buttons: btns,
            led,
            debounce_ms,
            sleep_x10s,
            angle_snap,
            ripple,
            led_off_moving,
        };
        assert(cfg.dpi =~= decoded(mem_v).dpi);
        assert(cfg.buttons =~= decoded(mem_v).buttons);
        (cfg, warn)
    }
}

/// Number of writable regions of a profile.
pub const REGION_COUNT: usize = 13;

/// Address of region `i`.
pub open spec fn region_addr(i: int) -> u16 {
    if i == 0 {
        addr::POLLING
    } else if i == 1 {
        addr::DPI_COUNT
    } else if i == 2 {
        addr::DPI_ACTIVE
    } else if i == 3 {
        addr::LOD
    } else if i == 4 {
        addr::DPI_TABLE
    } else if i == 5 {
        addr::DPI_COLORS
    } else if i == 6 {
        addr::BUTTONS
    } else if i == 7 {
        addr::LED
    } else if i == 8 {
        addr::DEBOUNCE
    } else if i == 9 {
        addr::SLEEP
    } else if i == 10 {
        addr::ANGLE_SNAP
    } else if i == 11 {
        addr::RIPPLE
    } else {
        addr::LED_OFF_MOVING
    }
}

/// Name of region `i`.
pub open spec fn region_name(i: int) -> Seq<char> {
    if i == 0 {
        "частота опроса"@
    } else if i == 1 {
        "число ступеней DPI"@
    } else if i == 2 {
        "активная ступень DPI"@
    } else if i == 3 {
        "LOD"@
    } else if i == 4 {
        "значения DPI"@
    } else if i == 5 {
        "цвета DPI"@
    } else if i == 6 {
        "кнопки"@
    } else if i == 7 {
        "подсветка"@
    } else if i == 8 {
        "debounce"@
    } else if i == 9 {
        "время до сна"@
    } else if i == 10 {
        "выпрямление линии"@
    } else if i == 11 {
        "ripple"@
    } else {
        "гашение подсветки"@
    }
}

/// The DPI table: four bytes per level.
pub open spec fn dpi_table_bytes(levels: [DpiLevel; DPI_SLOTS]) -> Seq<u8> {
    Seq::new(32, |k: int| level_bytes(levels[k / 4].dpi)[k % 4])
}

/// The indicator colours: four bytes per level.
pub open spec fn dpi_color_bytes(levels: [DpiLevel; DPI_SLOTS]) -> Seq<u8> {
    Seq::new(32, |k: int| color_bytes(levels[k / 4].color)[k % 4])
}

/// The button matrix: four bytes per slot.
pub open spec fn button_bytes(b: [ButtonAction; buttons::SLOTS]) -> Seq<u8> {
    Seq::new(64, |k: int| b[k / 4].slot_bytes()[k % 4])
}

/// Flag as stored: 1 or 0.
pub open spec fn flag_byte(f: bool) -> u8 {
    if f { 1 } else { 0 }
}

impl DeviceConfig {
    /// Active level as written: at most `dpi_count - 1` (0 when the count is 0).
    pub open spec fn active_written(self) -> u8 {
        let top: int = if self.dpi_count == 0 { 0 } else { self.dpi_count - 1 };
        if self.dpi_active < top { self.dpi_active } else { top as u8 }
    }

    /// Bytes of region `i`.
    pub open spec fn region_data(self, i: int) -> Seq<u8> {
        if i == 0 {
            pair_bytes(self.polling.hw_code())
        } else if i == 1 {
            pair_bytes(self.dpi_count)
        } else if i == 2 {
            pair_bytes(self.active_written())
        } else if i == 3 {
            pair_bytes(self.lod)
        } else if i == 4 {
            dpi_table_bytes(self.dpi)
        } else if i == 5 {
            dpi_color_bytes(self.dpi)
        } else if i == 6 {
            button_bytes(self.buttons)
        } else if i == 7 {
            led_bytes(self.led)
        } else if i == 8 {
            pair_bytes(self.debounce_ms)
        } else if i == 9 {
            pair_bytes(self.sleep_x10s)
        } else if i == 10 {
            pair_bytes(flag_byte(self.angle_snap))
        } else if i == 11 {
            pair_bytes(flag_byte(self.ripple))
        } else {
            pair_bytes(flag_byte(self.led_off_moving))
        }
    }

    /// Region `i` of the profile: address, bytes and name agree with the map.
    pub open spec fn is_region(self, i: int, r: Region) -> bool {
        &&& r.addr == region_addr(i)
        &&& r.data@ == self.region_data(i)
        &&& r.name@ == region_name(i)
    }
}

/// Indices of the regions whose bytes differ between two profiles, among the
/// first `n`, in increasing order.
pub open spec fn changed_upto(new: DeviceConfig, old: DeviceConfig, n: int) -> Seq<int>
    decreases n,
{
    if n <= 0 {
        Seq::empty()
    } else if new.region_data(n - 1) != old.region_data(n - 1) {
        changed_upto(new, old, n - 1).push(n - 1)
    } else {
        changed_upto(new, old, n - 1)
    }
}

fn region(addr: u16, data: Vec<u8>, name: &'static str) -> (r: Region)
    ensures
        r.addr == addr,
        r.data@ == data@,
        r.name@ == name@,
{
    Region { addr, data, name }
}

fn bytes_equal(a: &Vec<u8>, b: &Vec<u8>) -> (r: bool)
    ensures
        r == (a@ == b@),
{
    if a.len() != b.len() {
        return false;
    }
    let mut i: usize = 0;
    while i < a.len()
        invariant
            i <= a.len() == b.len(),
            forall|j: int| 0 <= j < i ==> a@[j] == b@[j],
        decreases a.len() - i,
    {
        if a[i] != b[i] {
            return false;
        }
        i = i + 1;
    }
    assert(a@ =~= b@);
    true
}

impl DeviceConfig {
    /// All writable regions of the profile.
    pub fn regions(&self) -> (r: Vec<Region>)
        ensures
            r@.len() == REGION_COUNT,
            forall|i: int| 0 <= i < REGION_COUNT ==> self.is_region(i, #[trigger] r@[i]),
    {
        let mut dpi_tab: Vec<u8> = Vec::with_capacity(32);
        let mut colors: Vec<u8> = Vec::with_capacity(32);
        let mut i: usize = 0;
        while i < DPI_SLOTS
            invariant
                i <= DPI_SLOTS,
                dpi_tab@.len() == 4 * i,
                colors@.len() == 4 * i,
                forall|k: int| 0 <= k < 4 * i ==> dpi_tab@[k] == level_bytes(self.dpi[k / 4].dpi)[k % 4],
                forall|k: int| 0 <= k < 4 * i ==> colors@[k] == color_bytes(self.dpi[k / 4].color)[k % 4],
            decreases DPI_SLOTS - i,
        {
            let l = self.dpi[i];
            let lv = dpi::encode_level(l.dpi);
            dpi_tab.push(lv[0]);
            dpi_tab.push(lv[1]);
            dpi_tab.push(lv[2]);
            dpi_tab.push(lv[3]);
            let c = [l.color.r, l.color.g, l.color.b];
            let ck = checksum(&c);
            assert(c@ =~= seq![l.color.r, l.color.g, l.color.b]);
            colors.push(c[0]);
            colors.push(c[1]);
            colors.push(c[2]);
            colors.push(ck);
            i = i + 1;
        }
        assert(dpi_tab@ =~= dpi_table_bytes(self.dpi));
        assert(colors@ =~= dpi_color_bytes(self.dpi));
        let mut btns: Vec<u8> = Vec::with_capacity(64);
        let mut j: usize = 0;
        while j < buttons::SLOTS
            invariant
                j <= buttons::SLOTS,
                btns@.len() == 4 * j,
                forall|k: int| 0 <= k < 4 * j ==> btns@[k] == self.buttons[k / 4].slot_bytes()[k % 4],
            decreases buttons::SLOTS - j,
        {
            let e = self.buttons[j].encode();
            btns.push(e[0]);
            btns.push(e[1]);
            btns.push(e[2]);
            btns.push(e[3]);
            j = j + 1;
        }
        assert(btns@ =~= button_bytes(self.buttons));
        let led = self.led.encode();
        let mut led_v: Vec<u8> = Vec::new();
        let mut k: usize = 0;
        while k < 7
            invariant
                k <= 7,
                led_v@ == led@.take(k as int),
            decreases 7 - k,
        {
            led_v.push(led[k]);
            assert(led@.take(k + 1) =~= led@.take(k as int).push(led[k as int]));
            k = k + 1;
        }
        assert(led@.take(7) =~= led@);
        let top = if self.dpi_count == 0 { 0 } else { self.dpi_count - 1 };
        let active = if self.dpi_active < top { self.dpi_active } else { top };
        let mut r: Vec<Region> = Vec::new();
        r.push(region(addr::POLLING, pair(self.polling.hw()), "частота опроса"));
        r.push(region(addr::DPI_COUNT, pair(self.dpi_count), "число ступеней DPI"));
        r.push(region(addr::DPI_ACTIVE, pair(active), "активная ступень DPI"));
        r.push(region(addr::LOD, pair(self.lod), "LOD"));
        r.push(region(addr::DPI_TABLE, dpi_tab, "значения DPI"));
        r.push(region(addr::DPI_COLORS, colors, "цвета DPI"));
        r.push(region(addr::BUTTONS, btns, "кнопки"));
        r.push(region(addr::LED, led_v, "подсветка"));
        r.push(region(addr::DEBOUNCE, pair(self.debounce_ms), "debounce"));
        r.push(region(addr::SLEEP, pair(self.sleep_x10s), "время до сна"));
        r.push(region(addr::ANGLE_SNAP, pair(if self.angle_snap { 1 } else { 0 }), "выпрямление линии"));
        r.push(region(addr::RIPPLE, pair(if self.ripple { 1 } else { 0 }), "ripple"));
        r.push(region(addr::LED_OFF_MOVING, pair(if self.led_off_moving { 1 } else { 0 }), "гашение подсветки"));
        r
    }

    /// Regions that differ from `old`: only those need writing.
    pub fn changed_regions(&self, old: &DeviceConfig) -> (r: Vec<Region>)
        ensures
            r@.len() == changed_upto(*self, *old, REGION_COUNT as int).len(),
            forall|j: int|
                0 <= j < r@.len() ==> self.is_region(
                    changed_upto(*self, *old, REGION_COUNT as int)[j],
                    #[trigger] r@[j],
                ),
    {
        let before = old.regions();
        let after = self.regions();
        let mut out: Vec<Region> = Vec::new();
        let mut i: usize = 0;
        while i < REGION_COUNT
            invariant
                i <= REGION_COUNT,
                before@.len() == REGION_COUNT,
                after@.len() == REGION_COUNT,
                forall|k: int| 0 <= k < REGION_COUNT ==> old.is_region(k, #[trigger] before@[k]),
                forall|k: int| 0 <= k < REGION_COUNT ==> self.is_region(k, #[trigger] after@[k]),
                out@.len() == changed_upto(*self, *old, i as int).len(),
                forall|j: int|
                    0 <= j < out@.len() ==> self.is_region(
                        changed_upto(*self, *old, i as int)[j],
                        #[trigger] out@[j],
                    ),
            decreases REGION_COUNT - i,
        {
            assert(self.is_region(i as int, after@[i as int]));
            assert(old.is_region(i as int, before@[i as int]));
            let ghost prev = out@;
            if !bytes_equal(&after[i].data, &before[i].data) {
                let r = Region { addr: after[i].addr, data: after[i].data.clone(), name: after[i].name };
                out.push(r);
                assert(changed_upto(*self, *old, i + 1) == changed_upto(*self, *old, i as int).push(i as int));
                assert forall|j: int| 0 <= j < out@.len() implies self.is_region(
                    changed_upto(*self, *old, i + 1)[j],
                    #[trigger] out@[j],
                ) by {
                    if j < prev.len() {
                        assert(out@[j] == prev[j]);
                    }
                };
            } else {
                assert(changed_upto(*self, *old, i + 1) == changed_upto(*self, *old, i as int));
            }
            i = i + 1;
        }
        out
    }

    /// What `validate` gives, with the message of a refusal.
    pub open spec fn validate_spec(self) -> Result<(), Seq<char>> {
        if !has_left_click(self.buttons) {
            Err("Хотя бы одна кнопка должна быть назначена как «Левый клик»"@)
        } else if !(1 <= self.dpi_count <= DPI_SLOTS) {
            Err("Нельзя отключить все ступени DPI"@)
        } else {
            Ok(())
        }
    }

    /// Check before writing: at least one physical button is a left click,
    /// else the mouse becomes unusable; and some DPI level is enabled.
    pub fn validate(&self) -> (r: Result<(), String>)
        ensures
            r is Ok <==> self.validate_spec() is Ok,
            r matches Err(msg) ==> self.validate_spec() == Err::<(), Seq<char>>(msg@),
    {
        let mut has_left = false;
        let mut i: usize = 0;
        while i < 6
            invariant
                i <= 6,
                has_left == exists|j: int| 0 <= j < i && self.buttons[physical_slots()[j]] == ButtonAction::Left,
            decreases 6 - i,
        {
            let slot = buttons::PHYSICAL[i].1;
            assert(slot == physical_slots()[i as int]);
            if let ButtonAction::Left = self.buttons[slot] {
                has_left = true;
            }
            i = i + 1;
        }
        if !has_left {
            return Err(String::from_str("Хотя бы одна кнопка должна быть назначена как «Левый клик»"));
        }
        if !(1 <= self.dpi_count && self.dpi_count as usize <= DPI_SLOTS) {
            return Err(String::from_str("Нельзя отключить все ступени DPI"));
        }
        Ok(())
    }
}

impl DeviceConfig {
    /// The two profiles are the same value.
    pub fn same_as(&self, other: &DeviceConfig) -> (r: bool)
        ensures
            r == (*self == *other),
    {
        if !(self.polling == other.polling && self.dpi_count == other.dpi_count
            && self.dpi_active == other.dpi_active && self.lod == other.lod
            && self.led == other.led && self.debounce_ms == other.debounce_ms
            && self.sleep_x10s == other.sleep_x10s && self.angle_snap == other.angle_snap
            && self.ripple == other.ripple && self.led_off_moving == other.led_off_moving) {
            return false;
        }
        let mut i: usize = 0;
        while i < DPI_SLOTS
            invariant
                i <= DPI_SLOTS,
                forall|j: int| 0 <= j < i ==> self.dpi[j] == other.dpi[j],
            decreases DPI_SLOTS - i,
        {
            if self.dpi[i] != other.dpi[i] {
                return false;
            }
            i = i + 1;
        }
        let mut k: usize = 0;
        while k < buttons::SLOTS
            invariant
                k <= buttons::SLOTS,
                forall|j: int| 0 <= j < k ==> self.buttons[j] == other.buttons[j],
            decreases buttons::SLOTS - k,
        {
            if !self.buttons[k].same(other.buttons[k]) {
                return false;
            }
            k = k + 1;
        }
        assert(self.dpi =~= other.dpi);
        assert(self.buttons =~= other.buttons);
        true
    }

    /// One more DPI level takes part in switching, at most 8.
    pub fn add_dpi_level(&mut self)
        requires
            old(self).dpi_count < 255,
        ensures
            *final(self) == (DeviceConfig {
                dpi_count: if old(self).dpi_count + 1 < 8 { (old(self).dpi_count + 1) as u8 } else { 8 },
                ..*old(self)
            }),
    {
        let n = self.dpi_count + 1;
        self.dpi_count = if n < DPI_SLOTS as u8 { n } else { DPI_SLOTS as u8 };
    }

    /// One DPI level less, at least one; the active level stays among the
    /// remaining ones.
    pub fn remove_dpi_level(&mut self)
        ensures
            final(self).dpi_count == (if old(self).dpi_count <= 2 { 1 } else { old(self).dpi_count - 1 }),
            final(self).dpi_active == (if old(self).dpi_active < final(self).dpi_count - 1 {
                old(self).dpi_active
            } else {
                (final(self).dpi_count - 1) as u8
            }),
            *final(self) == (DeviceConfig {
                dpi_count: final(self).dpi_count,
                dpi_active: final(self).dpi_active,
                ..*old(self)
            }),
    {
        let n = if self.dpi_count <= 2 { 1 } else { self.dpi_count - 1 };
        self.dpi_count = n;
        if self.dpi_active > n - 1 {
            self.dpi_active = n - 1;
        }
    }
}

/// Some physical button is assigned the left click.
pub open spec fn has_left_click(b: [ButtonAction; buttons::SLOTS]) -> bool {
    exists|j: int| 0 <= j < 6 && b[physical_slots()[j]] == ButtonAction::Left
}

/// Firmware codes of the polling rates: 1 = 1000 Hz, 2 = 500 Hz, 4 = 250 Hz,
/// 8 = 125 Hz (code times rate is always 1000); no other code names a rate.
/// The polling region of a profile holds the code and `0x55` minus it.
pub proof fn polling_codes(cfg: DeviceConfig)
    ensures
        PollingRate::Hz125.hw_code() == 8,
        PollingRate::Hz250.hw_code() == 4,
        PollingRate::Hz500.hw_code() == 2,
        PollingRate::Hz1000.hw_code() == 1,
        forall|r: PollingRate|
            #[trigger] r.hw_code() * (match r {
                PollingRate::Hz125 => 125int,
                PollingRate::Hz250 => 250int,
                PollingRate::Hz500 => 500int,
                PollingRate::Hz1000 => 1000int,
            }) == 1000,
        forall|v: u8|
            #[trigger] PollingRate::of_hw(v) == (if v == 8 {
                Some(PollingRate::Hz125)
            } else if v == 4 {
                Some(PollingRate::Hz250)
            } else if v == 2 {
                Some(PollingRate::Hz500)
            } else if v == 1 {
                Some(PollingRate::Hz1000)
            } else {
                None
            }),
        ({
            let code: u8 = match cfg.polling {
                PollingRate::Hz125 => 8,
                PollingRate::Hz250 => 4,
                PollingRate::Hz500 => 2,
                PollingRate::Hz1000 => 1,
            };
            cfg.region_data(0) == seq![code, (0x55 - code) as u8]
        }),
{
    lemma_pair_checksum(cfg.polling.hw_code());
}

/// A profile may be written exactly when one of the six physical buttons
/// (slots 0 to 5) is a left click and 1 to 8 DPI levels are in use; without
/// a left click the left-click message is given, else, with a level count
/// out of range, the DPI message.
pub proof fn validate_accepts(cfg: DeviceConfig)
    ensures
        cfg.validate_spec() is Ok <==> ((exists|s: int| 0 <= s < 6 && cfg.buttons[s] == ButtonAction::Left)
            && 1 <= cfg.dpi_count <= 8),
        !(exists|s: int| 0 <= s < 6 && cfg.buttons[s] == ButtonAction::Left) ==> cfg.validate_spec() == Err::<
            (),
            Seq<char>,
        >("Хотя бы одна кнопка должна быть назначена как «Левый клик»"@),
        (exists|s: int| 0 <= s < 6 && cfg.buttons[s] == ButtonAction::Left) && !(1 <= cfg.dpi_count <= 8)
            ==> cfg.validate_spec() == Err::<(), Seq<char>>("Нельзя отключить все ступени DPI"@),
{
    let p = physical_slots();
    if exists|s: int| 0 <= s < 6 && cfg.buttons[s] == ButtonAction::Left {
        let s = choose|s: int| 0 <= s < 6 && cfg.buttons[s] == ButtonAction::Left;
        let j: int = if s == 3 { 4 } else if s == 4 { 3 } else { s };
        assert(p[j] == s);
        assert(has_left_click(cfg.buttons));
    }
    if has_left_click(cfg.buttons) {
        let j = choose|j: int| 0 <= j < 6 && cfg.buttons[p[j]] == ButtonAction::Left;
        assert(0 <= p[j] < 6);
    }
}

} // verus!
