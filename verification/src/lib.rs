//! A duplex request/response protocol for shell completion routing.
//!
//! Messages are JSON objects, one per line, exchanged over a pair of byte
//! streams. A connection correlates responses to the requests that produced
//! them; a router dispatches `complete` requests to external completer
//! programs through fresh child connections.

pub mod carapace;
pub mod codec;
pub mod complete;
pub mod connection;
pub mod numerals;
pub mod nushell;
pub mod payload;
pub mod protocol;
pub mod router;
