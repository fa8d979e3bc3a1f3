//! Server List Ping: a verified codec and protocol core.
//!
//! The library covers the variable-length integer codec, the length-prefixed
//! protocol string codec, the packet framer with streaming-safe decoding, the
//! four-step status/ping exchange, and the aggregation step of the port-range
//! scanner. Socket handling, JSON schema mapping and the command line live
//! outside the library.

pub mod errors;
pub mod exchange;
pub mod packet;
pub mod proto_string;
pub mod response;
pub mod scan;
pub mod varint;
