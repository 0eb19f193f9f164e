//! The decisions of a coding-agent harness, kept apart from its I/O.

pub mod acp;
pub mod agents;
pub mod attachments;
pub mod bytes;
pub mod config;
pub mod digest;
pub mod json;
pub mod json_text;
pub mod lsp;
pub mod mcp;
pub mod naming;
pub mod number;
pub mod order;
pub mod paths;
pub mod ranking;
pub mod refs;
pub mod session;
pub mod table;
pub mod text;
pub mod urls;
