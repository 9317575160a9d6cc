//! A length-delimited, checksum-protected binary protocol: a streaming frame
//! codec, a payload decoder, a per-connection protocol state machine, and a
//! session registry keyed by connect code.

pub mod codec;
pub mod command;
pub mod error;
pub mod message;
pub mod protocol;
pub mod session;
