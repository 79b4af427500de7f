//! Ground-station core for a telemetry link: frames are recovered from an
//! unreliable byte stream, decoded into messages, fanned out over a bounded
//! bus and recorded for export as a table.
//!
//! The wire format is in [`varint`], [`stuffing`], [`payload`] and [`codec`];
//! [`decoder`] cuts the byte stream into frames, and [`framing`] says what
//! holds of it on every stream. [`serial`] holds the two sides of the link
//! as machines that the caller drives, [`bus`] the channel between the parts
//! of the station, [`recorder`] and [`table`] the recording and its export,
//! [`graph`] the samples behind the display.

pub mod bus;
pub mod codec;
pub mod config;
pub mod decoder;
pub mod framing;
pub mod graph;
pub mod message;
pub mod package;
pub mod payload;
pub mod recorder;
pub mod serial;
pub mod stuffing;
pub mod table;
pub mod telemetry;
mod text;
pub mod varint;

pub use crate::message::{Command, Message};
