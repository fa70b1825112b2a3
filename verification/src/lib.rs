//! Logic of a clock display on a WS2812 LED grid that a serial client can
//! drive with a small line-based text protocol.
pub mod buffers;
pub mod fonts;
pub mod grid;
pub mod protocol;
pub mod session;
pub mod display;
pub mod usb;
pub mod wifi;
