//! A protective, filtering reverse proxy engine for a container-engine
//! control socket.
//!
//! The library holds the per-connection logic: HTTP/1.x head parsing,
//! body reassembly (identity and chunked framing), allow-list policy
//! matching, response-content filtering, re-emission with corrected
//! framing, and the decisions around protocol upgrades.  All byte I/O is
//! left to the caller, which feeds received bytes in and writes the
//! returned bytes out.

pub mod body;
pub mod bytes;
pub mod errors;
pub mod filters;
pub mod forward;
pub mod http;
pub mod num;
pub mod policy;
pub mod upstream;
