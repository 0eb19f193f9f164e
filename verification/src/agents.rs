//! Child agents: what they are told, how they report, and how one that was abandoned is
//! found again.

pub mod handing;
pub mod laws;
pub mod outbox;
pub mod prompt;
pub mod recovery;
pub mod reports;
pub mod runner;
