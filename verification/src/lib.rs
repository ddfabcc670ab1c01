//! Perlink: the decisions of a per-link browser chooser, with their contracts.

pub mod text;
pub mod order;
pub mod links;
pub mod launch;
pub mod cli;
pub mod chooser;
pub mod layout;
pub mod setup;
pub mod protocol;
