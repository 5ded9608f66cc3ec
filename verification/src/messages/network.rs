//! Client-to-server and server-to-client messages.

use crate::client::chunk::ChunkInfo;
use crate::player::PlayerControls;
use crate::pos::{ChunkPos, FragmentPos};
use vstd::prelude::*;

verus! {

/// From the server to a client.
pub enum ToClient {
    /// One column of a chunk at a version, run-length encoded.
    NewChunkFragment(ChunkPos, FragmentPos, Vec<u8>, u64),
    /// The columns of a chunk at a version that hold nothing but air.
    NewChunkInfo(ChunkPos, ChunkInfo, u64),
}

/// A message to a client as a value: the bytes of a column as a sequence.
pub enum ToClientView {
    Fragment(ChunkPos, FragmentPos, Seq<u8>, u64),
    Info(ChunkPos, ChunkInfo, u64),
}

impl View for ToClient {
    type V = ToClientView;

    open spec fn view(&self) -> ToClientView {
        match self {
            ToClient::NewChunkFragment(pos, column, bytes, version) => ToClientView::Fragment(
                *pos,
                *column,
                bytes@,
                *version,
            ),
            ToClient::NewChunkInfo(pos, info, version) => ToClientView::Info(*pos, *info, *version),
        }
    }
}

/// From a client to the server.
#[derive(Clone, Copy, Debug)]
pub enum ToServer {
    SetInput(PlayerControls),
    SetRenderDistance(u64),
}

} // verus!
