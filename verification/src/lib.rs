//! A multiplexing TCP tunnel: a SOCKS5 client side and a server side that carry many
//! connections over a few tunnel streams.
//!
//! The crate holds what the two programs decide and compute. Sockets, channels, timers, and the
//! cipher of a tunnel belong to the programs, which ask the functions here what to do next.
pub mod address;
pub mod bytes;
pub mod client;
pub mod clock;
pub mod end_to_end;
pub mod entries;
pub mod framing;
pub mod port;
pub mod protocol;
pub mod relay;
pub mod server;
pub mod text;
pub mod whole_way;
