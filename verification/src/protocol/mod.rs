pub mod buttons;
pub mod dpi;
pub mod eeprom;
pub mod led;
pub mod packet;
