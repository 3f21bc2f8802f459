//! A sans-I/O core for a periodically polled single-wire thermometer.
//!
//! The crate holds the decisions of the system and none of its hardware
//! access: the checksum rules, the address enumeration walk, the thermometer
//! read cycle with its fixed-point decode, and the tick hand-off between an
//! interrupt and the main context. Callers feed it what they sampled on the
//! wire and carry out what it asks for.

pub mod address;
pub mod bus;
pub mod crc;
pub mod display;
pub mod error;
pub mod order;
pub mod passes;
pub mod poll;
pub mod search;
pub mod temperature;
pub mod wire;
