//! The network side of the client: turns what the server sends into what the
//! main part takes in, and the other way round.

use crate::messages::client::{ToInput, ToNetwork};
use crate::messages::network::{ToClient, ToServer};
use crate::network::{decode, fragment_of, try_deserialize_fragment};
use vstd::prelude::*;

verus! {

/// What the server is told of a message from the main part.
pub fn to_server(message: ToNetwork) -> (r: ToServer)
    ensures
        match message {
            ToNetwork::SetInput(keys) => r matches ToServer::SetInput(k) && k == keys,
            ToNetwork::SetRenderDistance(d) => r matches ToServer::SetRenderDistance(e) && e == d,
        },
{
    match message {
        ToNetwork::SetInput(input) => ToServer::SetInput(input),
        ToNetwork::SetRenderDistance(render_distance) => ToServer::SetRenderDistance(
            render_distance,
        ),
    }
}

/// What the main part is told of a message from the server. The bytes of a
/// column are decoded; where they end in the middle of a run, there is nothing
/// to tell.
pub fn to_input(message: ToClient) -> (r: Option<ToInput>)
    ensures
        match message {
            ToClient::NewChunkFragment(pos, fpos, bytes, version) => match r {
                Some(ToInput::NewChunkFragment(p, f, frag, v)) => decode(bytes@) is Some && p
                    == pos && f == fpos && v == version && frag@ == fragment_of(
                    decode(bytes@)->0,
                ),
                Some(_) => false,
                None => decode(bytes@) is None,
            },
            ToClient::NewChunkInfo(pos, info, version) => r matches Some(
                ToInput::NewChunkInfo(p, i, v),
            ) && p == pos && i == info && v == version,
        },
{
    match message {
        ToClient::NewChunkFragment(pos, fpos, frag, version) => {
            match try_deserialize_fragment(frag.as_slice()) {
                Some(column) => Some(ToInput::NewChunkFragment(pos, fpos, column, version)),
                None => None,
            }
        },
        ToClient::NewChunkInfo(pos, info, version) => Some(
            ToInput::NewChunkInfo(pos, info, version),
        ),
    }
}

} // verus!
