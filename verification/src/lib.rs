//! HTTP/1.1, HTTP/2 and the servers built on them, as state machines without I/O.

pub mod buf;
pub mod bytes;
pub mod error;
pub mod h2;
pub mod hpack;
pub mod http;
pub mod http1;
pub mod h2_tls;
pub mod https1;
pub mod io;
pub mod quic;
pub mod secured;
pub mod server;
pub mod tls;
pub mod transport;
