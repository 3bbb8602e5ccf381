//! The client side of the relay protocol: the decisions and framings the
//! sync engine makes around its network calls.

pub mod backoff;
pub mod engine;
pub mod http;
pub mod listener;
pub mod ws;
