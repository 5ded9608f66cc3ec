//! The client's side: putting streamed chunks back together.

pub mod chunk;
pub mod game;
pub mod network;
