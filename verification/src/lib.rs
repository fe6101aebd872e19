//! A Minecraft server's protocol core: the wire formats of its numbers and
//! strings, the framing of packets, and the decisions a connection takes.
pub mod varnum;
pub mod utils;
pub mod connection;
pub mod types;
pub mod protocols;
