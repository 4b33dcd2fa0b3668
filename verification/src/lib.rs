//! A verified driver core for a 16x2 HD44780-compatible character LCD
//! behind an I2C expander backpack.
//!
//! The bus and the timing source are abstracted as the [`hal::Hal`]
//! trait, whose contract records every byte write and every busy-wait as
//! a [`protocol::BusEvent`]. Each driver operation is specified by the
//! exact event sequence it appends to that log, so the nibble encoding,
//! the enable-pulse framing, the cold-start initialization handshake and
//! its retry policy are all proved at the byte level.
pub mod driver;
pub mod hal;
pub mod laws;
pub mod mock;
pub mod protocol;

pub use driver::LcdI2c;
pub use hal::Hal;
pub use hal::LcdError;
pub use mock::MockHal;
pub use protocol::BusEvent;
