//! What a session does at its edges: how it starts, what it shows and what it keeps.

pub mod commands;
pub mod display;
pub mod jail;
pub mod laws;
pub mod legacy;
pub mod memory;
pub mod preamble;
pub mod recall;
pub mod startup;
pub mod undo;
