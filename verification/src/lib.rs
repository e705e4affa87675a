//! A binary wire-protocol codec and framing layer for a stateful,
//! length-prefixed, request/response network protocol.
//!
//! The crate turns an untrusted byte stream into typed, validated packets
//! and typed packets back into bytes, while enforcing hard size limits and
//! producing precise, localized decode errors. Leaves first:
//!
//! - [`bits`]: two's-complement reinterpretation between signed and
//!   unsigned integers;
//! - [`byte_stream`]: a bounds-checked read cursor over a borrowed byte
//!   slice, and byte-counting sinks;
//! - [`bytes_integration`]: the reference-counted buffers that carry frame
//!   bodies without copying;
//! - [`error`]: the decode-error type with a message, an item kind and a
//!   dotted field path;
//! - [`text`]: UTF-8 validation and codepoint counting over raw bytes;
//! - [`ctfe_format`]: a fixed-capacity decimal formatter;
//! - [`var_int`]: the variable-length integer codec;
//! - [`primitives`]: the wire types with their decode/encode contracts;
//! - [`interner`], [`json_document`], [`json_schema`], [`chat`]: the
//!   embedded JSON sub-decoder and the chat-text schema over it;
//! - [`protocol`]: the per-connection-state packet registry and
//!   dispatcher;
//! - [`transport`]: the length-prefixed packet framing codec;
//! - [`driver_core`]: the pure per-connection state machine.

pub mod bits;
pub mod byte_stream;
pub mod bytes_integration;
pub mod chat;
pub mod ctfe_format;
pub mod driver_core;
pub mod error;
pub mod interner;
pub mod json_document;
pub mod json_schema;
pub mod primitives;
pub mod protocol;
pub mod text;
pub mod transport;
pub mod var_int;
