//! Length-prefixed framing and the guest side of a blocking call/response
//! protocol between a sandboxed guest and its host.
//!
//! `codec` holds the wire format: a 4-byte little-endian length field, an
//! optional 4-byte ASCII tag, and the payload. `session` holds the call engine:
//! the state machine that reads the initial request, performs nested calls one
//! at a time, and writes the completion frame.

pub mod codec;
pub mod session;
