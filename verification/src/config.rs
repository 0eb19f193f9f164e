//! The user's configuration: models, tool servers, credentials and workspaces.

pub mod credentials;
pub mod laws;
pub mod models;
pub mod providers;
pub mod pulse;
pub mod resolve;
pub mod search;
pub mod servers;
pub mod workspace;
