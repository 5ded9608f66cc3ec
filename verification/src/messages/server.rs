//! Server-to-server messages.

use crate::chunk::{Chunk, ChunkContents};
use crate::network::ConnectionId;
use crate::player::PlayerControls;
use crate::pos::ChunkPos;
use vstd::prelude::*;

verus! {

/// From the game to the network: a chunk to stream to one client.
pub enum ToNetwork {
    NewChunk(ConnectionId, ChunkPos, ChunkContents),
}

impl ToNetwork {
    /// The connection the message is for.
    pub open spec fn connection(self) -> ConnectionId {
        match self {
            ToNetwork::NewChunk(c, _, _) => c,
        }
    }

    /// The chunk the message is about.
    pub open spec fn pos(self) -> ChunkPos {
        match self {
            ToNetwork::NewChunk(_, p, _) => p,
        }
    }

    /// The contents the message carries.
    pub open spec fn contents(self) -> ChunkContents {
        match self {
            ToNetwork::NewChunk(_, _, c) => c,
        }
    }
}

/// To the game: what a player did, or a chunk that the world generator made.
pub enum ToGame {
    PlayerEvent(ConnectionId, ToGamePlayer),
    NewChunk(ChunkPos, Chunk, bool),
}

/// What a player did.
#[derive(Clone, Copy, Debug)]
pub enum ToGamePlayer {
    Connect,
    SetInput(PlayerControls),
    SetRenderDistance(u64),
    Disconnect,
}

/// To the world generator.
#[derive(Clone, Copy, Debug, PartialEq, Eq, Structural)]
pub enum ToWorldgen {
    GenerateChunk(ChunkPos),
}

impl ToWorldgen {
    /// The chunk that is asked for.
    pub open spec fn pos(self) -> ChunkPos {
        match self {
            ToWorldgen::GenerateChunk(p) => p,
        }
    }
}

} // verus!
