//! HTTP/1.1 (RFC 9112).

pub mod connection;
pub mod head;
pub mod laws;
pub mod model;
pub mod pieces;
pub mod server;
pub mod syntax;
