//! DPI coding of the PMW3370 sensor.
//!
//! One DPI level takes 4 EEPROM bytes:
//! `[code_x][code_y][mul_x | mul_y << 4][0x55 - sum]`,
//! `dpi = base(mul) * (code + 1)` with `base = 50` (mul 0), `100` (mul 1/2),
//! `200` (mul 3).
use vstd::prelude::*;
use super::packet::{checksum, checksum_spec};

verus! {

/// Lowest DPI.
pub const MIN: u16 = 50;
/// Highest DPI of this mouse.
pub const MAX: u16 = 19_000;
/// Up to this value the step is 50, above it 100.
pub const FINE_LIMIT: u16 = 10_000;

/// `dpi` moved to the grid 50..=10000 step 50, 10100..=19000 step 100.
pub open spec fn snap_spec(dpi: u16) -> u16 {
    let d: int = if dpi < MIN { MIN as int } else if dpi > MAX { MAX as int } else { dpi as int };
    if d < FINE_LIMIT + 50 {
        let v = (d + 25) / 50 * 50;
        (if v > FINE_LIMIT { FINE_LIMIT as int } else { v }) as u16
    } else {
        let v = (d + 50) / 100 * 100;
        (if v < FINE_LIMIT + 100 { FINE_LIMIT + 100 } else if v > MAX { MAX as int } else { v }) as u16
    }
}

/// (code, multiplier) of a DPI value, computed on its grid value.
pub open spec fn encode_spec(dpi: u16) -> (u8, u8) {
    let d = snap_spec(dpi) as int;
    if d <= 10_000 {
        ((d / 50 - 1) as u8, 0u8)
    } else if d <= 19_000 {
        ((d / 100 - 1) as u8, 2u8)
    } else if d <= 19_999 {
        ((d / 100 - 1) as u8, 1u8)
    } else {
        ((d / 200 - 1) as u8, 3u8)
    }
}

/// DPI of (code, multiplier): bit 1 of the multiplier selects base 100 over
/// 50, bit 0 doubles the value.
pub open spec fn decode_spec(code: u8, mul: u8) -> u16 {
    let base: int = if (mul / 2) % 2 == 1 { 100 } else { 50 };
    let v = base * (code + 1);
    (if mul % 2 == 1 { v * 2 } else { v }) as u16
}

/// The four EEPROM bytes of a DPI level (same value on X and Y).
pub open spec fn level_bytes(dpi: u16) -> Seq<u8> {
    let (code, mul) = encode_spec(dpi);
    let flags = (mul + mul * 16) as u8;
    seq![code, code, flags, checksum_spec(seq![code, code, flags])]
}

/// What `decode_level` gives for the raw bytes of a level.
pub open spec fn level_value(raw: Seq<u8>) -> Option<u16> {
    if raw.len() < 4 || raw[3] != checksum_spec(raw.take(3)) {
        None
    } else {
        let dpi = decode_spec(raw[0], raw[2] % 4);
        if MIN <= dpi <= 38_000 {
            Some(dpi)
        } else {
            None
        }
    }
}

/// DPI to (code, multiplier).
pub fn encode(dpi: u16) -> (r: (u8, u8))
    ensures
        r == encode_spec(dpi),
{
    let dpi = snap(dpi) as u32;
    let (code, mul): (u32, u8) = if dpi <= 10_000 {
        (dpi / 50 - 1, 0)
    } else if dpi <= 19_000 {
        (dpi / 100 - 1, 2)
    } else if dpi <= 19_999 {
        (dpi / 100 - 1, 1)
    } else {
        (dpi / 200 - 1, 3)
    };
    (code as u8, mul)
}

/// (code, multiplier) to DPI.
pub fn decode(code: u8, mul: u8) -> (r: u16)
    ensures
        r == decode_spec(code, mul),
{
    assert((mul & 2 != 0) == ((mul / 2) % 2 == 1)) by (bit_vector);
    assert((mul & 1 != 0) == (mul % 2 == 1)) by (bit_vector);
    let base: u32 = if mul & 2 != 0 { 100 } else { 50 };
    let v = base * (code as u32 + 1);
    (if mul & 1 != 0 { v * 2 } else { v }) as u16
}

/// Moves a value to the valid grid: 50..=10000 step 50, 10100..=19000 step 100.
pub fn snap(dpi: u16) -> (r: u16)
    ensures
        r == snap_spec(dpi),
{
    let dpi = if dpi < MIN { MIN } else if dpi > MAX { MAX } else { dpi };
    if dpi < FINE_LIMIT + 50 {
        let v = (dpi + 25) / 50 * 50;
        if v > FINE_LIMIT { FINE_LIMIT } else { v }
    } else {
        let v = (dpi + 50) / 100 * 100;
        if v < FINE_LIMIT + 100 { FINE_LIMIT + 100 } else if v > MAX { MAX } else { v }
    }
}

/// Encodes a DPI level (same X/Y) into its 4 EEPROM bytes.
pub fn encode_level(dpi: u16) -> (r: [u8; 4])
    ensures
        r@ == level_bytes(dpi),
{
    let (code, mul) = encode(dpi);
    proof {
        lemma_encode_range(dpi);
    }
    assert(mul < 16 ==> (mul & 0x0F) | (mul << 4) == mul + mul * 16) by (bit_vector);
    let flags = (mul & 0x0F) | (mul << 4);
    let head = [code, code, flags];
    let c = checksum(&head);
    assert(head@ =~= seq![code, code, flags]);
    let r = [code, code, flags, c];
    assert(r@ =~= level_bytes(dpi));
    r
}

/// Decodes a DPI level (X axis). `None` on a broken checksum or a value
/// outside 50..=38000.
pub fn decode_level(raw: &[u8]) -> (r: Option<u16>)
    ensures
        r == level_value(raw@),
{
    if raw.len() < 4 {
        return None;
    }
    let head = &raw[0..3];
    assert(head@ =~= raw@.take(3));
    if raw[3] != checksum(head) {
        return None;
    }
    let m = raw[2];
    assert(m & 0x03 == m % 4) by (bit_vector);
    let dpi = decode(raw[0], raw[2] & 0x03);
    if MIN <= dpi && dpi <= 38_000 {
        Some(dpi)
    } else {
        None
    }
}

proof fn lemma_encode_range(dpi: u16)
    ensures
        encode_spec(dpi).1 == 0 || encode_spec(dpi).1 == 2,
        snap_spec(dpi) <= 10_000 ==> encode_spec(dpi).1 == 0,
        snap_spec(dpi) > 10_000 ==> encode_spec(dpi).1 == 2,
        MIN <= snap_spec(dpi) <= MAX,
{
}

/// Snapping is idempotent: a grid value stays where it is.
pub proof fn snap_idempotent(dpi: u16)
    ensures
        snap_spec(snap_spec(dpi)) == snap_spec(dpi),
{
}

/// The DPI grid: 50..=10000 step 50, 10100..=19000 step 100.
pub open spec fn on_grid(d: int) -> bool {
    (MIN <= d <= FINE_LIMIT && d % 50 == 0) || (FINE_LIMIT + 100 <= d <= MAX && d % 100 == 0)
}

/// `dpi` clamped to `MIN..=MAX`.
pub open spec fn clamped(dpi: u16) -> int {
    if dpi < MIN { MIN as int } else if dpi > MAX { MAX as int } else { dpi as int }
}

/// Distance between two integers.
pub open spec fn dist(a: int, b: int) -> int {
    if a < b { b - a } else { a - b }
}

/// `snap` gives a grid value nearest to the clamped input, keeps values on
/// the grid, and keeps the order of its inputs.
pub proof fn snap_nearest(dpi: u16, other: u16, g: int)
    requires
        on_grid(g),
    ensures
        on_grid(snap_spec(dpi) as int),
        dist(snap_spec(dpi) as int, clamped(dpi)) <= dist(g, clamped(dpi)),
        on_grid(dpi as int) ==> snap_spec(dpi) == dpi,
        dpi <= other ==> snap_spec(dpi) <= snap_spec(other),
{
}

/// The DPI of (code, multiplier) is `base * (code + 1)`, base 50, or 100
/// when bit 1 of the multiplier is set, doubled when bit 0 is set. A value
/// on the grid up to 10000 is stored with multiplier 0 as `dpi / 50 - 1`,
/// above it with multiplier 2 as `dpi / 100 - 1`; the level bytes are the
/// code twice, the multiplier in both nibbles and the checksum.
pub proof fn dpi_coding(code: u8, mul: u8, dpi: u16)
    ensures
        MIN == 50 && FINE_LIMIT == 10_000 && MAX == 19_000,
        decode_spec(code, mul) == (if (mul / 2) % 2 == 1 { 100int } else { 50int }) * (code + 1) * (if mul % 2
            == 1 { 2int } else { 1int }),
        snap_spec(dpi) <= 10_000 ==> encode_spec(dpi) == ((snap_spec(dpi) / 50 - 1) as u8, 0u8),
        snap_spec(dpi) > 10_000 ==> encode_spec(dpi) == ((snap_spec(dpi) / 100 - 1) as u8, 2u8),
        snap_spec(dpi) <= 10_000 ==> level_bytes(dpi) == seq![
            (snap_spec(dpi) / 50 - 1) as u8,
            (snap_spec(dpi) / 50 - 1) as u8,
            0u8,
            checksum_spec(seq![(snap_spec(dpi) / 50 - 1) as u8, (snap_spec(dpi) / 50 - 1) as u8, 0u8]),
        ],
        snap_spec(dpi) > 10_000 ==> level_bytes(dpi) == seq![
            (snap_spec(dpi) / 100 - 1) as u8,
            (snap_spec(dpi) / 100 - 1) as u8,
            0x22u8,
            checksum_spec(seq![(snap_spec(dpi) / 100 - 1) as u8, (snap_spec(dpi) / 100 - 1) as u8, 0x22u8]),
        ],
{
    let base: int = if (mul / 2) % 2 == 1 { 100 } else { 50 };
    assert(0 <= base * (code + 1) <= 100 * 256) by (nonlinear_arith)
        requires
            base == 50 || base == 100,
            0 <= code <= 255,
    ;
}

/// Decoding an encoded value gives the grid value: `decode(encode(d)) == snap(d)`.
pub proof fn encode_decode_roundtrip(dpi: u16)
    ensures
        decode_spec(encode_spec(dpi).0, encode_spec(dpi).1) == snap_spec(dpi),
{
}

/// A level written by `encode_level` is read back by `decode_level` as the
/// grid value of the DPI.
pub proof fn level_roundtrip(dpi: u16)
    ensures
        level_value(level_bytes(dpi)) == Some(snap_spec(dpi)),
{
    let raw = level_bytes(dpi);
    let (code, mul) = encode_spec(dpi);
    lemma_encode_range(dpi);
    encode_decode_roundtrip(dpi);
    assert(raw.take(3) =~= seq![code, code, (mul + mul * 16) as u8]);
    assert((mul + mul * 16) as u8 % 4 == mul);
}

} // verus!
