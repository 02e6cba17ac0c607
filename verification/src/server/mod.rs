//! Multi-protocol connection manager.
//!
//! Unifies TCP (HTTP/1.1, HTTP/2 over TLS) and UDP (HTTP/3 over QUIC)
//! connections behind a single event loop.

pub mod conn;
pub mod cycle;
pub mod ends;
pub mod handshakes;
pub mod history;
pub mod input;
pub mod laws;
pub mod lifecycle;
pub mod limits;
pub mod manager;
pub mod order;
pub mod output;
pub mod requests;
pub mod routing;
pub mod runner;
pub mod timers;
pub mod turns;
pub mod udp;

use vstd::prelude::*;

use crate::http::server_conn::HttpEvent;

verus! {

/// Opaque connection handle returned by the manager.
#[derive(Debug, Clone, Copy, PartialEq, Eq, Hash, Structural)]
pub struct ConnId(pub u32);

/// Protocol used by a connection.
#[derive(Debug, Clone, Copy, PartialEq, Eq, Structural)]
pub enum ConnProtocol {
    /// TLS handshake in progress, protocol not yet determined.
    Handshaking,
    /// HTTP/1.1.
    Http1,
    /// HTTP/2 over TLS.
    H2,
    /// HTTP/3 over QUIC.
    H3,
}

/// Event from the connection manager.
#[derive(Debug, Clone, Copy, PartialEq, Eq, Structural)]
pub enum ServerEvent {
    /// HTTP event on a specific connection.
    Http { conn: ConnId, event: HttpEvent },
    /// A connection was accepted and TLS/QUIC handshake completed.
    Connected(ConnId),
    /// A connection was closed and removed.
    Closed(ConnId),
}

/// Configuration for connection limits and timeouts.
#[derive(Debug, Clone, Copy, PartialEq, Eq, Structural)]
pub struct ServerConfig {
    /// Maximum number of TCP connections.
    pub max_tcp_conns: usize,
    /// Maximum number of QUIC connections.
    pub max_quic_conns: usize,
    /// Maximum number of queued events.
    pub max_events: usize,
    /// TLS handshake timeout in microseconds.
    pub handshake_timeout_us: u64,
}

impl ServerConfig {
    pub open spec fn standard() -> ServerConfig {
        ServerConfig {
            max_tcp_conns: 4,
            max_quic_conns: 8,
            max_events: 32,
            handshake_timeout_us: 10_000_000,
        }
    }
}

impl Default for ServerConfig {
    fn default() -> (r: Self)
        ensures
            r == ServerConfig::standard(),
    {
        ServerConfig {
            max_tcp_conns: 4,
            max_quic_conns: 8,
            max_events: 32,
            handshake_timeout_us: 10_000_000,
        }
    }
}

} // verus!
