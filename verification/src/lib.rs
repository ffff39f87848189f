//! Configuration protocol of the ARDOR GAMING Edge Air Ultra mouse (PMW3370
//! sensor, JM03 "Compx" controller): packet framing, the EEPROM profile map and
//! its field codecs, the decisions of the command exchange with the device and
//! of the background session.
pub mod protocol;
pub mod session;
pub mod status;
pub mod transport;
