//! The blind relay: wire parsers, rate limiting, mailboxes, configuration.

pub mod config;
pub mod limits;
pub mod state;
pub mod table;
pub mod wire;
