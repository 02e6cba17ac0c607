//! HPACK header compression (RFC 7541).

pub mod blocks;
pub mod codec;
pub mod codes;
pub mod huffman;
pub mod integer;
pub mod laws;
pub mod numbers;
pub mod static_table;
