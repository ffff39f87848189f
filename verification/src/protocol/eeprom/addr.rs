//! EEPROM addresses of the profile fields.
use vstd::prelude::*;

verus! {

pub const POLLING: u16 = 0x00;
pub const DPI_COUNT: u16 = 0x02;
pub const DPI_ACTIVE: u16 = 0x04;
pub const LOD: u16 = 0x0A;
pub const DPI_TABLE: u16 = 0x0C;
pub const DPI_COLORS: u16 = 0x2C;
pub const BUTTONS: u16 = 0x60;
pub const LED: u16 = 0xA0;
pub const DEBOUNCE: u16 = 0xA9;
pub const SLEEP: u16 = 0xAD;
pub const ANGLE_SNAP: u16 = 0xAF;
pub const RIPPLE: u16 = 0xB1;
pub const LED_OFF_MOVING: u16 = 0xB3;

} // verus!
