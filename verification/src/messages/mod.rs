//! The messages that the parts of the game send one another.

pub mod client;
pub mod network;
pub mod server;
