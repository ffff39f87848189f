//! Command codes (byte `[1]` of a request and of its response).
use vstd::prelude::*;

verus! {

/// "Driver active" flag (1/0), sent by the vendor utility on start and exit.
pub const DRIVER_STATUS: u8 = 0x02;
/// Link between receiver and mouse: `data[0] == 1` means the mouse answers.
pub const CONNECT_STATUS: u8 = 0x03;
/// Battery: `data[0]` is the charge in percent, `data[1]` the charging flag.
pub const BATTERY: u8 = 0x04;
/// EEPROM write, at most 10 bytes per packet.
pub const WRITE_EEPROM: u8 = 0x07;
/// EEPROM read, at most 10 bytes per packet.
pub const READ_EEPROM: u8 = 0x08;
/// Factory reset.
pub const FACTORY_RESET: u8 = 0x09;
/// Number of the current profile.
pub const CURRENT_PROFILE: u8 = 0x0E;

} // verus!
