//! A local command-execution bridge: the wire vocabulary and its binary
//! encoding, length-prefixed framing, the server's per-connection decisions,
//! the client's reading of responses, and the synthesis of raw touch events.
//!
//! Nothing here touches a socket, a process or a device file. Each function
//! computes what to send, write or run from plain values, so that a thin
//! driver can perform the effects and hand the outcomes back.
//!
//! - [`protocol`]: commands and responses.
//! - [`codec`]: their encoding and decoding; [`codec::format`] states the
//!   wire format and [`codec::laws`] what holds of it.
//! - [`framing`]: length-prefixed frames.
//! - [`executor`]: which commands run a program, which are refused, and how
//!   an outcome is reported.
//! - [`session`]: one connection of the server as a state machine;
//!   [`session::laws`] states what holds of every session.
//! - [`client`]: what the client prints for the frames it reads.
//! - [`input_manager`]: touch gestures as raw input event records.
//! - [`packing`] and [`text`]: integers as bytes, and small text helpers.

pub mod client;
pub mod codec;
pub mod executor;
pub mod framing;
pub mod input_manager;
pub mod packing;
pub mod protocol;
pub mod session;
pub mod text;

pub use crate::protocol::{BridgeCommand, BridgeResponse};
