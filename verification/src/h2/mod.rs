//! HTTP/2 (RFC 9113).

pub mod flow_control;
pub mod frame;
pub mod settings;
pub mod stream;
pub mod wire;
pub mod bodies;
pub mod connection;
pub mod delivery;
pub mod laws;
pub mod model;
pub mod opening;
pub mod parameters;
pub mod receive;
