//! The status payload's schema, held as plain data.
//!
//! The payload reaches the library as JSON text; mapping that text onto these
//! fields is an outside collaborator's concern. Additional top-level fields
//! are preserved uninterpreted as key-value pairs.

use vstd::prelude::*;

verus! {

/// A status response: the fields the protocol promises, plus any additional
/// top-level fields the peer sent.
#[derive(Debug, Clone)]
pub struct Response {
    pub version: Version,
    pub players: Players,
    pub description: Description,
    pub favicon: Option<String>,
    pub extra: Vec<(String, String)>,
}

/// The server's version, by name and protocol number.
#[derive(Debug, Clone)]
pub struct Version {
    pub name: String,
    pub protocol: i64,
}

/// The player counts and a sample of who is online.
#[derive(Debug, Clone)]
pub struct Players {
    pub max: i64,
    pub online: i64,
    pub sample: Vec<Sample>,
}

/// One sampled player: a name and an id.
#[derive(Debug, Clone)]
pub struct Sample {
    pub name: String,
    pub id: String,
}

/// A server description: plain text, or a structured set of fields; peers
/// send either form.
#[derive(Debug, Clone)]
pub enum Description {
    String(String),
    Fields(Vec<(String, String)>),
}

} // verus!
