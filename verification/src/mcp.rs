//! Tool servers that speak the Model Context Protocol: which tools they expose,
//! how calls are routed, and how connections are kept.

pub mod catalog;
pub mod errors;
pub mod ipv6;
pub mod launch;
pub mod laws;
pub mod manager;
pub mod names;
pub mod policy;
pub mod refresh;
pub mod signin;
