//! Host-side bridge for a hardware signing device.
//!
//! The device is reached through an external helper process that speaks a
//! newline-delimited JSON protocol. This crate holds the verified core of
//! that bridge: the JSON wire codec, the request builders, the response
//! envelope decoders, and the error taxonomy. Process spawning and pipe I/O
//! live outside the verified library.

pub mod errors;
pub mod json;
pub mod protocol;
