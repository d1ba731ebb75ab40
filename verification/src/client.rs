//! The client side of a tunnel.
pub mod config;
pub mod dispatch;
pub mod entry;
pub mod options;
pub mod socks5;
pub mod stream;
pub mod tunnel;
