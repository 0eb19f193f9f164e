//! The editor bridge: one session over line-delimited JSON-RPC 2.0.

pub mod exchange;
pub mod frames;
pub mod gate;
pub mod images;
pub mod laws;
pub mod prompt;
pub mod rpc;
pub mod turn;
