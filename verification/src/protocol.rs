//! The per-connection-state packet registry and dispatcher.
//!
//! Each connection state declares a closed set of packet shapes with their
//! numeric ids, separated by direction: serverbound (`sb_`) and clientbound
//! (`cb_`) packets do not share an id space. Decoding reads a
//! variable-length id from the frame body and dispatches to the matching
//! shape; an unknown id for the current state is a fatal error, even when
//! it names a shape of another state.

pub mod cb_login;
pub mod cb_status;
pub mod sb_handshake;
pub mod sb_login;
pub mod sb_status;
