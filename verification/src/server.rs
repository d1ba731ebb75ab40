//! The server side of a tunnel.
pub mod config;
pub mod entry;
pub mod options;
pub mod stream;
pub mod tunnel;
