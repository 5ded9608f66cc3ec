//! Chunk state machine and streaming protocol of a multiplayer voxel world.
//!
//! The server keeps an authoritative map of 32x32x32 chunks, each with a version
//! counter that is bumped by every accepted edit. Chunks are streamed to clients
//! column by column; the client reassembles the columns, tracks completion per
//! version epoch and stitches face visibility across chunk borders.

pub mod block;
pub mod chunk;
pub mod client;
pub mod config;
pub mod grid;
pub mod grid_tree;
pub mod input;
pub mod lazy_container;
pub mod map;
pub mod messages;
pub mod network;
pub mod player;
pub mod pos;
pub mod pos_map;
pub mod region;
pub mod round_trip;
pub mod server;
pub mod sim;
pub mod simple;
pub mod table;
pub mod util;

use vstd::prelude::*;

verus! {

/// Edge length of a chunk, in blocks.
pub const CHUNK_SIZE: usize = 32;

} // verus!
