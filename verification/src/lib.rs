//! Decoding and validation boundary of a small on-chain program.
//!
//! The `codec` module fixes the binary layout of the one instruction payload
//! and proves a decoder and encoder against it; the `entry` module holds the
//! host-invoked entrypoint that decodes an untrusted buffer and either
//! acknowledges the payload or rejects the call.

pub mod codec;
pub mod entry;
