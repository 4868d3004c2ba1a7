//! Repository inventory and commit-safety engine for many git hosts.
//!
//! The library decides; the program around it performs the process calls,
//! the HTTP requests and the file writes that those decisions ask for.

pub mod command;
pub mod config;
pub mod discovery;
pub mod error;
pub mod git;
pub mod inventory;
pub mod repo;
pub mod text;
pub mod time;
