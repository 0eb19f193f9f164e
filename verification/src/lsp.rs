//! Supervised language servers: what they report, and how reports are kept
//! fresh, merged and bounded.

pub mod adapters;
pub mod answers;
pub mod client;
pub mod delta;
pub mod edits;
pub mod environment;
pub mod errors;
pub mod laws;
pub mod manager;
pub mod parse;
pub mod queries;
pub mod reader;
pub mod reports;
pub mod starting;
pub mod types;
pub mod wire;
