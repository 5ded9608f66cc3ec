//! Client-to-client messages.

use crate::chunk::ChunkFragment;
use crate::client::chunk::{Chunk, ChunkInfo, MeshHandle};
use crate::player::PlayerControls;
use crate::pos::{ChunkPos, FragmentPos};
use vstd::prelude::*;

verus! {

/// To the client's network part.
#[derive(Clone, Copy, Debug)]
pub enum ToNetwork {
    SetInput(PlayerControls),
    SetRenderDistance(u64),
}

/// To the client's main part.
pub enum ToInput {
    /// The mesh of a chunk is ready.
    NewChunkBuffer(ChunkPos, MeshHandle),
    /// One column of a chunk at a version.
    NewChunkFragment(ChunkPos, FragmentPos, Box<ChunkFragment>, u64),
    /// The columns of a chunk at a version that hold nothing but air.
    NewChunkInfo(ChunkPos, ChunkInfo, u64),
}

/// To the client's meshing part.
pub enum ToMeshing {
    ComputeChunkMesh(ChunkPos, Chunk),
}

impl ToMeshing {
    /// The chunk the message is about.
    pub open spec fn pos(self) -> ChunkPos {
        match self {
            ToMeshing::ComputeChunkMesh(p, _) => p,
        }
    }

    /// The chunk to mesh.
    pub open spec fn chunk(self) -> Chunk {
        match self {
            ToMeshing::ComputeChunkMesh(_, c) => c,
        }
    }
}

} // verus!
