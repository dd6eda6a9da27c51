//! Building blocks of the Vyse tunnel.
//!
//! Control plane: the CLI opens one QUIC bidirectional stream and exchanges
//! length-prefixed JSON control messages with the edge.
//! Data plane: the edge opens one bidirectional stream per public HTTP request.
//! Each data stream starts with a 2-byte local port, then a raw HTTP/1.1 message.
use vstd::prelude::*;

pub mod claims;
pub mod config;
pub mod edge;
pub mod encoding;
pub mod forwarding;
pub mod frame;
pub mod framing;
pub mod gateway;
pub mod h3;
pub mod http;
pub mod identity;
pub mod lines;
pub mod number;
pub mod octets;
pub mod protocol;
pub mod reader;
pub mod registry;
pub mod render;
pub mod replay;
pub mod routes;
pub mod search;
pub mod session;
pub mod store;
pub mod stream;
pub mod text;
pub mod tunnel;
pub mod udp;
pub mod update;
pub mod varint;

verus! {

pub const DEFAULT_QUIC_PORT: u16 = 4433;

pub const DEFAULT_HTTP_PORT: u16 = 8080;

pub const DEFAULT_HTTP3_PORT: u16 = 8443;

pub const DEFAULT_DOMAIN: &'static str = "vyse.dev";

/// Hosted public edge the shipped CLI dials by default.
pub const HOSTED_EDGE: &'static str = "vyse.chipling.xyz:4433";

pub const HOSTED_DOMAIN: &'static str = "vyse.chipling.xyz";

} // verus!
