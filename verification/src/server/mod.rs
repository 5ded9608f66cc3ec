//! The server's side: who gets which chunk, and when.

pub mod game;
pub mod network;
pub mod stream;
