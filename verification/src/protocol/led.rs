//! Body lighting, EEPROM 0xA0..0xA6:
//!
//! ```text
//! 0xA0: [hw_mode][R][G][B][speed][brightness][0x55 - sum]
//! ```
//! `speed` and `brightness` are not levels but entries of firmware tables
//! (the "Streaming" mode has tables of its own).
use vstd::prelude::*;
use super::packet::{checksum, checksum_spec, hex_byte, push_hex_byte};

verus! {

/// Speed and brightness levels offered (1..=10).
pub const LEVELS: u8 = 10;

/// Speed table of every mode but "Streaming"; index 0 is level 1.
pub const SPEED_STD: [u8; 10] = [0xFF, 0xE6, 0xD2, 0xBE, 0xAA, 0x96, 0x82, 0x6E, 0x46, 0x28];
/// Brightness table of every mode but "Streaming".
pub const BRI_STD: [u8; 10] = [0x2D, 0x32, 0x4B, 0x64, 0x7D, 0x96, 0xAF, 0xC8, 0xE1, 0xFF];
/// Speed table of "Streaming".
pub const SPEED_STREAM: [u8; 10] = [0x0A, 0x09, 0x08, 0x07, 0x06, 0x05, 0x04, 0x03, 0x02, 0x01];
/// Brightness table of "Streaming".
pub const BRI_STREAM: [u8; 10] = [0x48, 0x5C, 0x70, 0x84, 0x98, 0xAC, 0xC0, 0xD4, 0xE8, 0xFC];

#[derive(Clone, Copy, Debug, PartialEq, Eq, Default, Structural)]
pub struct Rgb {
    pub r: u8,
    pub g: u8,
    pub b: u8,
}

impl Rgb {
    pub fn new(r: u8, g: u8, b: u8) -> (c: Self)
        ensures
            c == (Rgb { r, g, b }),
    {
        Rgb { r, g, b }
    }

    /// `#RRGGBB`, upper-case hexadecimal.
    pub fn to_hex(&self) -> (s: String)
        ensures
            s@ == seq!['#'] + hex_byte(self.r, true) + hex_byte(self.g, true) + hex_byte(self.b, true),
    {
        let mut s = String::new();
        proof { reveal_strlit("#"); }
        s.append("#");
        push_hex_byte(&mut s, self.r, true);
        push_hex_byte(&mut s, self.g, true);
        push_hex_byte(&mut s, self.b, true);
        s
    }
}

/// Lighting modes in the order of the vendor interface.
#[derive(Clone, Copy, Debug, PartialEq, Eq, Structural)]
pub enum LedMode {
    Steady,
    Breathing,
    Streaming,
    Neon,
    Scrolling,
    ColorBreathing,
    Off,
}

impl LedMode {
    pub const ALL: [LedMode; 7] = [
        LedMode::Steady,
        LedMode::Breathing,
        LedMode::Streaming,
        LedMode::Neon,
        LedMode::Scrolling,
        LedMode::ColorBreathing,
        LedMode::Off,
    ];

    /// Firmware code of the mode.
    pub open spec fn hw_code(self) -> u8 {
        match self {
            LedMode::Steady => 2,
            LedMode::Breathing => 1,
            LedMode::Streaming => 0,
            LedMode::Neon => 3,
            LedMode::Scrolling => 5,
            LedMode::ColorBreathing => 7,
            LedMode::Off => 4,
        }
    }

    /// The mode whose firmware code is `v`, if any.
    pub open spec fn of_hw(v: u8) -> Option<LedMode> {
        match v {
            2 => Some(LedMode::Steady),
            1 => Some(LedMode::Breathing),
            0 => Some(LedMode::Streaming),
            3 => Some(LedMode::Neon),
            5 => Some(LedMode::Scrolling),
            7 => Some(LedMode::ColorBreathing),
            4 => Some(LedMode::Off),
            _ => None,
        }
    }

    /// Speed table used by the mode.
    pub open spec fn speed_table(self) -> Seq<u8> {
        if self == LedMode::Streaming { SPEED_STREAM@ } else { SPEED_STD@ }
    }

    /// Brightness table used by the mode.
    pub open spec fn bri_table(self) -> Seq<u8> {
        if self == LedMode::Streaming { BRI_STREAM@ } else { BRI_STD@ }
    }

    /// Firmware code of the mode.
    pub fn hw(self) -> (r: u8)
        ensures
            r == self.hw_code(),
    {
        match self {
            LedMode::Steady => 2,
            LedMode::Breathing => 1,
            LedMode::Streaming => 0,
            LedMode::Neon => 3,
            LedMode::Scrolling => 5,
            LedMode::ColorBreathing => 7,
            LedMode::Off => 4,
        }
    }

    pub fn from_hw(v: u8) -> (r: Option<Self>)
        ensures
            r == Self::of_hw(v),
    {
        let all = Self::ALL;
        let mut i: usize = 0;
        while i < 7
            invariant
                i <= 7,
                all@ == Self::ALL@,
                forall|j: int| 0 <= j < i ==> all@[j].hw_code() != v,
            decreases 7 - i,
        {
            if all[i].hw() == v {
                return Some(all[i]);
            }
            i = i + 1;
        }
        None
    }

    pub fn label(self) -> (r: &'static str)
        ensures
            r@ == match self {
                LedMode::Steady => "Статичная"@,
                LedMode::Breathing => "Дыхание"@,
                LedMode::Streaming => "Поток"@,
                LedMode::Neon => "Неон"@,
                LedMode::Scrolling => "Бег"@,
                LedMode::ColorBreathing => "Цветное дыхание"@,
                LedMode::Off => "Выключена"@,
            },
    {
        match self {
            LedMode::Steady => "Статичная",
            LedMode::Breathing => "Дыхание",
            LedMode::Streaming => "Поток",
            LedMode::Neon => "Неон",
            LedMode::Scrolling => "Бег",
            LedMode::ColorBreathing => "Цветное дыхание",
            LedMode::Off => "Выключена",
        }
    }

    /// The mode shows the chosen colour.
    pub fn has_color(self) -> (r: bool)
        ensures
            r == (self == LedMode::Steady || self == LedMode::Breathing || self == LedMode::Scrolling),
    {
        match self {
            LedMode::Steady | LedMode::Breathing | LedMode::Scrolling => true,
            _ => false,
        }
    }

    /// The mode has a speed setting.
    pub fn has_speed(self) -> (r: bool)
        ensures
            r == !(self == LedMode::Steady || self == LedMode::Off),
    {
        match self {
            LedMode::Steady | LedMode::Off => false,
            _ => true,
        }
    }

    fn tables(self) -> (r: ([u8; 10], [u8; 10]))
        ensures
            r.0@ == self.speed_table(),
            r.1@ == self.bri_table(),
    {
        if self == LedMode::Streaming {
            (SPEED_STREAM, BRI_STREAM)
        } else {
            (SPEED_STD, BRI_STD)
        }
    }
}

/// Lighting settings. `speed` and `brightness` are levels 1..=10.
#[derive(Clone, Copy, Debug, PartialEq, Eq, Structural)]
pub struct LedConfig {
    pub mode: LedMode,
    pub color: Rgb,
    pub speed: u8,
    pub brightness: u8,
}

/// Table index of a level, the level clamped to 1..=10.
pub open spec fn level_slot(level: u8) -> int {
    if level < 1 { 0 } else if level > LEVELS { 9 } else { level - 1 }
}

/// A level clamped to 1..=10.
pub open spec fn clamp_level(level: u8) -> u8 {
    (level_slot(level) + 1) as u8
}

/// Index of the first entry of `t` equal to `v`.
pub open spec fn first_index(t: Seq<u8>, v: u8) -> Option<int>
    decreases t.len(),
{
    if t.len() == 0 {
        None
    } else {
        match first_index(t.drop_last(), v) {
            Some(i) => Some(i),
            None => if t.last() == v { Some(t.len() - 1) } else { None },
        }
    }
}

/// Level stored as table entry `v`; an unknown entry gives the middle level 6.
pub open spec fn level_of(t: Seq<u8>, v: u8) -> u8 {
    match first_index(t, v) {
        Some(i) => (i + 1) as u8,
        None => 6,
    }
}

/// The first 6 bytes of block 0xA0 for a configuration.
pub open spec fn led_body(c: LedConfig) -> Seq<u8> {
    seq![
        c.mode.hw_code(),
        c.color.r,
        c.color.g,
        c.color.b,
        c.mode.speed_table()[level_slot(c.speed)],
        c.mode.bri_table()[level_slot(c.brightness)],
    ]
}

/// The 7 bytes of block 0xA0 for a configuration.
pub open spec fn led_bytes(c: LedConfig) -> Seq<u8> {
    led_body(c).push(checksum_spec(led_body(c)))
}

/// What `LedConfig::decode` gives for a raw block.
pub open spec fn led_value(raw: Seq<u8>) -> Option<LedConfig> {
    if raw.len() < 7 || raw[6] != checksum_spec(raw.take(6)) {
        None
    } else {
        match LedMode::of_hw(raw[0]) {
            None => None,
            Some(mode) => Some(
                LedConfig {
                    mode,
                    color: Rgb { r: raw[1], g: raw[2], b: raw[3] },
                    speed: level_of(mode.speed_table(), raw[4]),
                    brightness: level_of(mode.bri_table(), raw[5]),
                },
            ),
        }
    }
}

impl LedConfig {
    /// Factory lighting: colour breathing, magenta, levels 6.
    pub open spec fn factory() -> LedConfig {
        LedConfig {
            mode: LedMode::ColorBreathing,
            color: Rgb { r: 255, g: 0, b: 255 },
            speed: 6,
            brightness: 6,
        }
    }

    /// The 7 bytes of block 0xA0.
    pub fn encode(&self) -> (r: [u8; 7])
        ensures
            r@ == led_bytes(*self),
    {
        let (speeds, bris) = self.mode.tables();
        let s = speeds[level_index(self.speed)];
        let b = bris[level_index(self.brightness)];
        let mut out = [self.mode.hw(), self.color.r, self.color.g, self.color.b, s, b, 0];
        let head = &out[0..6];
        assert(head@ =~= led_body(*self));
        let c = checksum(head);
        out[6] = c;
        assert(out@ =~= led_bytes(*self));
        out
    }

    /// Parses block 0xA0. Unknown table entries become the middle level 6.
    pub fn decode(raw: &[u8]) -> (r: Option<Self>)
        ensures
            r == led_value(raw@),
    {
        if raw.len() < 7 {
            return None;
        }
        let head = &raw[0..6];
        assert(head@ =~= raw@.take(6));
        if raw[6] != checksum(head) {
            return None;
        }
        let mode = match LedMode::from_hw(raw[0]) {
            Some(m) => m,
            None => return None,
        };
        // With the lighting off, the parameters stay from the previous mode.
        let (speeds, bris) = mode.tables();
        Some(
            LedConfig {
                mode,
                color: Rgb::new(raw[1], raw[2], raw[3]),
                speed: find_level(&speeds, raw[4]),
                brightness: find_level(&bris, raw[5]),
            },
        )
    }
}

impl Default for LedConfig {
    fn default() -> (c: Self)
        ensures
            c == LedConfig::factory(),
    {
        LedConfig { mode: LedMode::ColorBreathing, color: Rgb::new(255, 0, 255), speed: 6, brightness: 6 }
    }
}

proof fn lemma_first_index_prefix(t: Seq<u8>, v: u8, i: int)
    requires
        0 <= i < t.len(),
    ensures
        first_index(t.take(i + 1), v) == match first_index(t.take(i), v) {
            Some(k) => Some(k),
            None => if t[i] == v { Some(i) } else { None },
        },
{
    assert(t.take(i + 1).drop_last() =~= t.take(i));
}

proof fn lemma_first_index_extend(t: Seq<u8>, v: u8, k: int)
    requires
        0 <= k <= t.len(),
        first_index(t.take(k), v) is Some,
    ensures
        first_index(t, v) == first_index(t.take(k), v),
    decreases t.len() - k,
{
    if k == t.len() {
        assert(t.take(k) =~= t);
    } else {
        lemma_first_index_prefix(t, v, k);
        lemma_first_index_extend(t, v, k + 1);
    }
}

/// Level of entry `v` in table `t` (first match, 1-based), 6 when absent.
fn find_level(t: &[u8; 10], v: u8) -> (r: u8)
    ensures
        r == level_of(t@, v),
{
    let mut i: usize = 0;
    assert(t@.take(0) =~= Seq::<u8>::empty());
    while i < 10
        invariant
            i <= 10,
            t@.len() == 10,
            first_index(t@.take(i as int), v) is None,
        decreases 10 - i,
    {
        proof {
            lemma_first_index_prefix(t@, v, i as int);
        }
        if t[i] == v {
            proof {
                lemma_first_index_extend(t@, v, i + 1);
            }
            return (i + 1) as u8;
        }
        i = i + 1;
    }
    assert(t@.take(10) =~= t@);
    6
}

/// Table index of a level, clamped to 1..=10.
fn level_index(level: u8) -> (r: usize)
    ensures
        r == level_slot(level),
{
    let l = if level < 1 { 1 } else if level > LEVELS { LEVELS } else { level };
    (l - 1) as usize
}

pub open spec fn all_distinct(t: Seq<u8>) -> bool {
    forall|j: int, k: int| 0 <= j < k < t.len() ==> t[j] != t[k]
}

proof fn lemma_first_index_absent(t: Seq<u8>, v: u8)
    requires
        forall|j: int| 0 <= j < t.len() ==> t[j] != v,
    ensures
        first_index(t, v) is None,
    decreases t.len(),
{
    if t.len() > 0 {
        lemma_first_index_absent(t.drop_last(), v);
    }
}

proof fn lemma_distinct_first(t: Seq<u8>, i: int)
    requires
        all_distinct(t),
        0 <= i < t.len(),
    ensures
        first_index(t, t[i]) == Some(i),
    decreases t.len(),
{
    if i == t.len() - 1 {
        lemma_first_index_absent(t.drop_last(), t[i]);
    } else {
        lemma_distinct_first(t.drop_last(), i);
    }
}

proof fn lemma_tables_distinct(m: LedMode)
    ensures
        all_distinct(m.speed_table()),
        all_distinct(m.bri_table()),
        m.speed_table().len() == 10,
        m.bri_table().len() == 10,
{
    assert(SPEED_STD@ =~= seq![0xFFu8, 0xE6, 0xD2, 0xBE, 0xAA, 0x96, 0x82, 0x6E, 0x46, 0x28]);
    assert(BRI_STD@ =~= seq![0x2Du8, 0x32, 0x4B, 0x64, 0x7D, 0x96, 0xAF, 0xC8, 0xE1, 0xFF]);
    assert(SPEED_STREAM@ =~= seq![0x0Au8, 0x09, 0x08, 0x07, 0x06, 0x05, 0x04, 0x03, 0x02, 0x01]);
    assert(BRI_STREAM@ =~= seq![0x48u8, 0x5C, 0x70, 0x84, 0x98, 0xAC, 0xC0, 0xD4, 0xE8, 0xFC]);
}

/// The firmware code of every mode leads back to the mode, and only a mode's
/// own code does.
pub proof fn led_mode_hw_roundtrip(m: LedMode, v: u8)
    ensures
        LedMode::of_hw(m.hw_code()) == Some(m),
        LedMode::of_hw(v) == Some(m) ==> m.hw_code() == v,
{
}

/// Decoding an encoded block gives the configuration back, with the speed and
/// brightness levels clamped to 1..=10.
pub proof fn led_encode_decode(c: LedConfig)
    ensures
        led_value(led_bytes(c)) == Some(
            LedConfig { speed: clamp_level(c.speed), brightness: clamp_level(c.brightness), ..c },
        ),
{
    let raw = led_bytes(c);
    assert(raw.take(6) =~= led_body(c));
    lemma_tables_distinct(c.mode);
    lemma_distinct_first(c.mode.speed_table(), level_slot(c.speed));
    lemma_distinct_first(c.mode.bri_table(), level_slot(c.brightness));
    led_mode_hw_roundtrip(c.mode, raw[0]);
    assert(level_of(c.mode.speed_table(), raw[4]) == clamp_level(c.speed));
    assert(level_of(c.mode.bri_table(), raw[5]) == clamp_level(c.brightness));
}

/// A block whose speed and brightness are table entries is written back
/// unchanged after decoding.
pub proof fn led_decode_encode(raw: Seq<u8>)
    requires
        led_value(raw) is Some,
        first_index(led_value(raw)->0.mode.speed_table(), raw[4]) is Some,
        first_index(led_value(raw)->0.mode.bri_table(), raw[5]) is Some,
    ensures
        led_bytes(led_value(raw)->0) == raw.take(7),
{
    let c = led_value(raw)->0;
    let s = c.mode.speed_table();
    let b = c.mode.bri_table();
    let si = first_index(s, raw[4])->0;
    let bi = first_index(b, raw[5])->0;
    lemma_first_index_found(s, raw[4]);
    lemma_first_index_found(b, raw[5]);
    assert(raw.take(6) =~= led_body(c));
    assert(led_bytes(c) =~= raw.take(7));
}

proof fn lemma_first_index_found(t: Seq<u8>, v: u8)
    requires
        first_index(t, v) is Some,
    ensures
        0 <= first_index(t, v)->0 < t.len(),
        t[first_index(t, v)->0] == v,
    decreases t.len(),
{
    if t.len() > 0 {
        if first_index(t.drop_last(), v) is Some {
            lemma_first_index_found(t.drop_last(), v);
        }
    }
}

proof fn lemma_first_index_exact(t: Seq<u8>, v: u8)
    ensures
        match first_index(t, v) {
            Some(i) => 0 <= i < t.len() && t[i] == v && forall|j: int| 0 <= j < i ==> t[j] != v,
            None => forall|j: int| 0 <= j < t.len() ==> t[j] != v,
        },
    decreases t.len(),
{
    if t.len() > 0 {
        let p = t.drop_last();
        lemma_first_index_exact(p, v);
        match first_index(p, v) {
            Some(i) => {
                assert forall|j: int| 0 <= j < i implies t[j] != v by {
                    assert(t[j] == p[j]);
                };
                assert(t[i] == p[i]);
            },
            None => {
                assert forall|j: int| 0 <= j < t.len() - 1 implies t[j] != v by {
                    assert(t[j] == p[j]);
                };
            },
        }
    }
}

/// A level read from a table entry: when the entry occurs in the table, the
/// level is one more than the index of its first occurrence; otherwise it is
/// the middle level 6.
pub proof fn level_of_meaning(t: Seq<u8>, v: u8)
    requires
        t.len() <= 10,
    ensures
        (exists|j: int| 0 <= j < t.len() && t[j] == v) ==> {
            &&& 1 <= level_of(t, v) <= t.len()
            &&& t[level_of(t, v) - 1] == v
            &&& forall|j: int| 0 <= j < level_of(t, v) - 1 ==> t[j] != v
        },
        !(exists|j: int| 0 <= j < t.len() && t[j] == v) ==> level_of(t, v) == 6,
{
    lemma_first_index_exact(t, v);
}

/// `LedConfig::decode` accepts a block exactly when it has 7 bytes, its
/// checksum matches and its mode code is known; it then reads the colour as
/// stored and speed and brightness as levels of the mode's tables (see
/// `level_of_meaning`), each in 1..=10.
pub proof fn led_decode_meaning(raw: Seq<u8>)
    ensures
        led_value(raw) is Some <==> (raw.len() >= 7 && raw[6] == checksum_spec(raw.take(6))
            && LedMode::of_hw(raw[0]) is Some),
        led_value(raw) matches Some(c) ==> {
            &&& c.mode == LedMode::of_hw(raw[0])->0
            &&& c.color == (Rgb { r: raw[1], g: raw[2], b: raw[3] })
            &&& c.speed == level_of(c.mode.speed_table(), raw[4])
            &&& c.brightness == level_of(c.mode.bri_table(), raw[5])
            &&& 1 <= c.speed <= 10
            &&& 1 <= c.brightness <= 10
        },
{
    if let Some(c) = led_value(raw) {
        assert(c.mode.speed_table().len() == 10);
        assert(c.mode.bri_table().len() == 10);
        lemma_first_index_exact(c.mode.speed_table(), raw[4]);
        lemma_first_index_exact(c.mode.bri_table(), raw[5]);
    }
}

/// Firmware codes of the lighting modes: Steady 2, Breathing 1, Streaming
/// 0, Neon 3, Scrolling 5, ColorBreathing 7, Off 4; no other code names a
/// mode.
pub proof fn led_mode_codes()
    ensures
        LedMode::Steady.hw_code() == 2,
        LedMode::Breathing.hw_code() == 1,
        LedMode::Streaming.hw_code() == 0,
        LedMode::Neon.hw_code() == 3,
        LedMode::Scrolling.hw_code() == 5,
        LedMode::ColorBreathing.hw_code() == 7,
        LedMode::Off.hw_code() == 4,
        forall|v: u8|
            #[trigger] LedMode::of_hw(v) == (if v == 2 {
                Some(LedMode::Steady)
            } else if v == 1 {
                Some(LedMode::Breathing)
            } else if v == 0 {
                Some(LedMode::Streaming)
            } else if v == 3 {
                Some(LedMode::Neon)
            } else if v == 5 {
                Some(LedMode::Scrolling)
            } else if v == 7 {
                Some(LedMode::ColorBreathing)
            } else if v == 4 {
                Some(LedMode::Off)
            } else {
                None
            }),
{
}

/// The speed and brightness tables hold the vendor values; only Streaming
/// has tables of its own, every other mode uses the standard ones.
pub proof fn led_tables()
    ensures
        SPEED_STD@ == seq![0xFFu8, 0xE6, 0xD2, 0xBE, 0xAA, 0x96, 0x82, 0x6E, 0x46, 0x28],
        BRI_STD@ == seq![0x2Du8, 0x32, 0x4B, 0x64, 0x7D, 0x96, 0xAF, 0xC8, 0xE1, 0xFF],
        SPEED_STREAM@ == seq![0x0Au8, 0x09, 0x08, 0x07, 0x06, 0x05, 0x04, 0x03, 0x02, 0x01],
        BRI_STREAM@ == seq![0x48u8, 0x5C, 0x70, 0x84, 0x98, 0xAC, 0xC0, 0xD4, 0xE8, 0xFC],
        forall|m: LedMode|
            #[trigger] m.speed_table() == (if m == LedMode::Streaming { SPEED_STREAM@ } else { SPEED_STD@ })
                && m.bri_table() == (if m == LedMode::Streaming { BRI_STREAM@ } else { BRI_STD@ }),
{
    assert(SPEED_STD@ =~= seq![0xFFu8, 0xE6, 0xD2, 0xBE, 0xAA, 0x96, 0x82, 0x6E, 0x46, 0x28]);
    assert(BRI_STD@ =~= seq![0x2Du8, 0x32, 0x4B, 0x64, 0x7D, 0x96, 0xAF, 0xC8, 0xE1, 0xFF]);
    assert(SPEED_STREAM@ =~= seq![0x0Au8, 0x09, 0x08, 0x07, 0x06, 0x05, 0x04, 0x03, 0x02, 0x01]);
    assert(BRI_STREAM@ =~= seq![0x48u8, 0x5C, 0x70, 0x84, 0x98, 0xAC, 0xC0, 0xD4, 0xE8, 0xFC]);
}

/// The 7 bytes `LedConfig::encode` writes: the mode's firmware code, the
/// colour, the speed and brightness entries for the levels clamped to
/// 1..=10 (from the Streaming tables for Streaming, from the standard tables
/// for every other mode), and the checksum of the first six.
pub proof fn led_block_layout(c: LedConfig)
    ensures
        led_bytes(c).len() == 7,
        led_bytes(c)[0] == (match c.mode {
            LedMode::Steady => 2u8,
            LedMode::Breathing => 1u8,
            LedMode::Streaming => 0u8,
            LedMode::Neon => 3u8,
            LedMode::Scrolling => 5u8,
            LedMode::ColorBreathing => 7u8,
            LedMode::Off => 4u8,
        }),
        led_bytes(c)[1] == c.color.r,
        led_bytes(c)[2] == c.color.g,
        led_bytes(c)[3] == c.color.b,
        led_bytes(c)[4] == (if c.mode == LedMode::Streaming { SPEED_STREAM@ } else { SPEED_STD@ })[
            if c.speed < 1 { 0 } else if c.speed > 10 { 9 } else { c.speed - 1 }
        ],
        led_bytes(c)[5] == (if c.mode == LedMode::Streaming { BRI_STREAM@ } else { BRI_STD@ })[
            if c.brightness < 1 { 0 } else if c.brightness > 10 { 9 } else { c.brightness - 1 }
        ],
        led_bytes(c)[6] == checksum_spec(led_bytes(c).take(6)),
{
    led_tables();
    assert(led_bytes(c).take(6) =~= led_body(c));
}

/// `LedConfig::decode` reads the mode from the firmware code table and the
/// speed and brightness from the Streaming tables for Streaming, from the
/// standard tables for every other mode.
pub proof fn led_block_decoding(raw: Seq<u8>)
    ensures
        led_value(raw) matches Some(c) ==> {
            &&& raw[0] == (match c.mode {
                LedMode::Steady => 2u8,
                LedMode::Breathing => 1u8,
                LedMode::Streaming => 0u8,
                LedMode::Neon => 3u8,
                LedMode::Scrolling => 5u8,
                LedMode::ColorBreathing => 7u8,
                LedMode::Off => 4u8,
            })
            &&& c.speed == level_of(
                if c.mode == LedMode::Streaming { SPEED_STREAM@ } else { SPEED_STD@ },
                raw[4],
            )
            &&& c.brightness == level_of(
                if c.mode == LedMode::Streaming { BRI_STREAM@ } else { BRI_STD@ },
                raw[5],
            )
        },
{
    led_tables();
    led_mode_codes();
}

} // verus!
