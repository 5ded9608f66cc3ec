use voxel_rs::block::{create_block_air, create_block_cube, BlockId, BlockObj, BlockRegistry};
use voxel_rs::chunk::{ChunkArray, ChunkContents};
use voxel_rs::client::chunk::{
    boundary_coords, info_empty, info_get, info_set, Chunk, ChunkData, ChunkInfo, ChunkState,
    Delivery,
};
use voxel_rs::client::game::ClientGameState;
use voxel_rs::client::network::{to_input, to_server};
use voxel_rs::messages::client::{ToInput, ToMeshing, ToNetwork};
use voxel_rs::messages::network::{ToClient, ToServer};
use voxel_rs::messages::server::ToNetwork as ServerToNetwork;
use voxel_rs::player::{PlayerControls, PlayerKey};
use voxel_rs::pos::{ChunkPos, FragmentPos};
use voxel_rs::server::network::{fragment_chunk, ServerImpl};
use std::collections::VecDeque;
use voxel_rs::util::Face;

fn registry() -> BlockRegistry {
    let mut registry = BlockRegistry::new();
    assert_eq!(registry.add_block(BlockObj::Gas(create_block_air())), BlockId(0));
    assert_eq!(registry.add_block(BlockObj::Cube(create_block_cube())), BlockId(1));
    registry
}

fn full_info() -> ChunkInfo {
    [u32::MAX; 32]
}

fn count_bits(info: &ChunkInfo) -> u32 {
    info.iter().map(|w| w.count_ones()).sum()
}

fn scenario_blocks() -> Box<ChunkArray> {
    let mut blocks = Box::new([[[BlockId(0); 32]; 32]; 32]);
    blocks[0][0] = [BlockId(5); 32];
    blocks[1][1][17] = BlockId(3);
    blocks
}

#[test]
fn fresh_chunk_data() {
    let data = ChunkData::new();
    assert_eq!(data.fragments(), 0);
    assert_eq!(data.current(), 0);
    assert!(!data.is_complete());
    assert!(!data.is_hot());
    assert!(!data.is_ready());
    assert_eq!(data.state(), ChunkState::Unmeshed);
    assert_eq!(data.displayed(), None);
    assert!(data.adj_chunks().is_empty());
    assert_eq!(*data.chunk().blocks, [[[BlockId(0); 32]; 32]; 32]);
}

#[test]
fn fragment_is_written_and_counted() {
    let mut data = ChunkData::new();
    let column = [BlockId(4); 32];
    let r = data.on_fragment(FragmentPos::new(2, 3), &column, 0);
    assert_eq!(r, Delivery::Accepted);
    assert_eq!(data.fragments(), 1);
    assert!(data.has_column(FragmentPos::new(2, 3)));
    assert!(!data.has_column(FragmentPos::new(3, 2)));
    assert_eq!(data.chunk().blocks[2][3], column);
    assert_eq!(data.chunk().blocks[3][2], [BlockId(0); 32]);
}

#[test]
fn idempotent_fragment_delivery() {
    let mut once = ChunkData::new();
    let mut twice = ChunkData::new();
    let column = [BlockId(4); 32];
    once.on_fragment(FragmentPos::new(2, 3), &column, 7);
    twice.on_fragment(FragmentPos::new(2, 3), &column, 7);
    twice.on_fragment(FragmentPos::new(2, 3), &column, 7);
    assert_eq!(once.fragments(), 1);
    assert_eq!(twice.fragments(), 1);
    assert_eq!(twice.current(), 7);
    assert_eq!(twice.chunk().blocks[2][3], column);
}

#[test]
fn count_never_exceeds_1024() {
    let mut data = ChunkData::new();
    let column = [BlockId(1); 32];
    for round in 0..2 {
        for x in 0..32 {
            for y in 0..32 {
                let r = data.on_fragment(FragmentPos::new(x, y), &column, 0);
                if round == 0 && x == 31 && y == 31 {
                    assert_eq!(r, Delivery::Completed);
                } else {
                    assert_eq!(r, Delivery::Accepted);
                }
            }
        }
        assert_eq!(data.fragments(), 1024);
        assert!(data.is_complete());
    }
    assert_eq!(data.on_info(&full_info(), 0), Delivery::Accepted);
    assert_eq!(data.fragments(), 1024);
}

#[test]
fn version_epoch_reset() {
    let mut data = ChunkData::new();
    let old = [BlockId(1); 32];
    let new = [BlockId(2); 32];
    for y in 0..5 {
        data.on_fragment(FragmentPos::new(0, y), &old, 3);
    }
    assert_eq!(data.fragments(), 5);
    assert_eq!(data.current(), 3);
    // A column of the next version starts over.
    assert_eq!(data.on_fragment(FragmentPos::new(9, 9), &new, 4), Delivery::Accepted);
    assert_eq!(data.current(), 4);
    assert_eq!(data.fragments(), 1);
    assert!(!data.has_column(FragmentPos::new(0, 0)));
    // A late column of the old version is not counted and not written.
    assert_eq!(data.on_fragment(FragmentPos::new(7, 7), &old, 3), Delivery::Ignored);
    assert_eq!(data.fragments(), 1);
    assert_eq!(data.current(), 4);
    assert_eq!(data.chunk().blocks[7][7], [BlockId(0); 32]);
    assert_eq!(data.on_info(&full_info(), 3), Delivery::Ignored);
    assert_eq!(data.fragments(), 1);
}

#[test]
fn fragment_outside_the_chunk_is_ignored() {
    let mut data = ChunkData::new();
    let column = [BlockId(1); 32];
    assert_eq!(data.on_fragment(FragmentPos::new(32, 0), &column, 5), Delivery::Ignored);
    assert_eq!(data.on_fragment(FragmentPos::new(0, 32), &column, 5), Delivery::Ignored);
    assert_eq!(data.fragments(), 0);
    assert_eq!(data.current(), 0);
}

#[test]
fn info_marks_columns_once() {
    let mut data = ChunkData::new();
    let mut info = info_empty();
    info_set(&mut info, 0, 0);
    info_set(&mut info, 31, 31);
    info_set(&mut info, 4, 9);
    assert_eq!(count_bits(&info), 3);
    assert!(info_get(&info, 4, 9));
    assert!(!info_get(&info, 9, 4));
    assert_eq!(info[4], 1 << 9);
    data.on_fragment(FragmentPos::new(4, 9), &[BlockId(0); 32], 0);
    assert_eq!(data.on_info(&info, 0), Delivery::Accepted);
    assert_eq!(data.fragments(), 3);
    assert_eq!(data.on_info(&info, 0), Delivery::Accepted);
    assert_eq!(data.fragments(), 3);
}

#[test]
fn info_of_a_new_version_clears_stale_columns() {
    let mut data = ChunkData::new();
    data.on_fragment(FragmentPos::new(1, 1), &[BlockId(6); 32], 0);
    let mut info = full_info();
    info[1] &= !(1 << 1);
    assert_eq!(data.on_info(&info, 0), Delivery::Completed);
    assert!(!data.is_hot());
    // The block is dug away: at version 1 the column is air.
    assert_eq!(data.on_info(&full_info(), 1), Delivery::Completed);
    assert_eq!(data.current(), 1);
    assert_eq!(data.chunk().blocks[1][1], [BlockId(0); 32]);
    assert!(data.is_hot());
}

#[test]
fn change_after_completion_makes_hot() {
    let mut data = ChunkData::new();
    assert_eq!(data.on_info(&full_info(), 0), Delivery::Completed);
    assert!(!data.is_hot());
    // The same column again changes nothing.
    data.on_fragment(FragmentPos::new(0, 0), &[BlockId(0); 32], 1);
    assert!(!data.is_hot());
    data.on_fragment(FragmentPos::new(0, 1), &[BlockId(2); 32], 1);
    assert!(data.is_hot());
}

#[test]
fn change_before_completion_is_not_hot() {
    let mut data = ChunkData::new();
    data.on_fragment(FragmentPos::new(0, 1), &[BlockId(2); 32], 0);
    data.on_fragment(FragmentPos::new(0, 1), &[BlockId(3); 32], 0);
    assert!(!data.is_hot());
}

#[test]
fn scenario_chunk_round_trip() {
    let pos = ChunkPos::new(0, 0, 0);
    let source = ChunkContents(scenario_blocks(), 0);
    let messages = fragment_chunk(11, pos, &source);
    assert_eq!(messages.len(), 3);
    assert!(messages.iter().all(|m| m.connection == 11));
    match &messages[0].message {
        ToClient::NewChunkFragment(p, column, bytes, version) => {
            assert_eq!((*p, *column, *version), (pos, FragmentPos::new(0, 0), 0));
            assert_eq!(bytes, &vec![0xA0, 0x00, 0x05]);
        }
        _ => panic!("expected a fragment"),
    }
    match &messages[1].message {
        ToClient::NewChunkFragment(p, column, bytes, version) => {
            assert_eq!((*p, *column, *version), (pos, FragmentPos::new(1, 1), 0));
            assert_eq!(
                bytes,
                &vec![0x80 | 17, 0x00, 0x00, 0x00, 0x03, 0x80 | 14, 0x00, 0x00]
            );
        }
        _ => panic!("expected a fragment"),
    }
    match &messages[2].message {
        ToClient::NewChunkInfo(p, info, version) => {
            assert_eq!((*p, *version), (pos, 0));
            assert_eq!(count_bits(info), 1022);
            assert!(!info_get(info, 0, 0));
            assert!(!info_get(info, 1, 1));
            assert!(info_get(info, 0, 1));
        }
        _ => panic!("expected the info"),
    }

    let registry = registry();
    let mut client = ClientGameState::new();
    client.load_around(pos, 0);
    let mut last = Delivery::Ignored;
    for outgoing in messages {
        let input = to_input(outgoing.message).unwrap();
        assert!(!client.get(&pos).unwrap().is_complete());
        last = client.process_chunk_message(input, &registry);
    }
    assert_eq!(last, Delivery::Completed);
    let data = client.get(&pos).unwrap();
    assert!(data.is_complete());
    assert_eq!(data.fragments(), 1024);
    assert_eq!(*data.chunk().blocks, *source.0);
}

#[test]
fn scenario_round_trip_in_any_order() {
    let pos = ChunkPos::new(-3, 2, 9);
    let source = ChunkContents(scenario_blocks(), 4);
    let mut messages = fragment_chunk(1, pos, &source);
    messages.reverse();
    let registry = registry();
    let mut client = ClientGameState::new();
    client.load_around(pos, 0);
    for outgoing in messages {
        client.process_chunk_message(to_input(outgoing.message).unwrap(), &registry);
    }
    let data = client.get(&pos).unwrap();
    assert!(data.is_complete());
    assert_eq!(data.current(), 4);
    assert_eq!(*data.chunk().blocks, *source.0);
}

#[test]
fn messages_for_unknown_chunks_are_dropped() {
    let registry = registry();
    let mut client = ClientGameState::new();
    let pos = ChunkPos::new(1, 1, 1);
    assert_eq!(
        client.on_fragment(pos, FragmentPos::new(0, 0), &[BlockId(1); 32], 0, &registry),
        Delivery::Ignored
    );
    assert_eq!(client.on_info(pos, &full_info(), 0, &registry), Delivery::Ignored);
    assert!(!client.on_mesh(pos, 5));
    assert_eq!(client.len(), 0);
}

#[test]
fn truncated_fragment_is_not_passed_on() {
    let message = ToClient::NewChunkFragment(
        ChunkPos::new(0, 0, 0),
        FragmentPos::new(0, 0),
        vec![0x82, 0x00],
        0,
    );
    assert!(to_input(message).is_none());
}

#[test]
fn client_messages_map_to_server_messages() {
    match to_server(ToNetwork::SetRenderDistance(5)) {
        ToServer::SetRenderDistance(d) => assert_eq!(d, 5),
        _ => panic!("expected a render distance"),
    }
    match to_server(ToNetwork::SetInput(PlayerControls::from_key(PlayerKey::Up))) {
        ToServer::SetInput(keys) => {
            assert!(keys.pressed(PlayerKey::Up));
            assert!(!keys.pressed(PlayerKey::Down));
        }
        _ => panic!("expected an input"),
    }
}

#[test]
fn completed_chunk_tells_its_neighbours() {
    let registry = registry();
    let mut client = ClientGameState::new();
    let a = ChunkPos::new(0, 0, 0);
    client.load_around(a, 1);
    assert_eq!(client.len(), 27);
    // Chunk a is all air but for one solid block at its right edge.
    let mut column = [BlockId(0); 32];
    column[9] = BlockId(1);
    client.on_fragment(a, FragmentPos::new(31, 7), &column, 0, &registry);
    let mut info = full_info();
    info[31] &= !(1 << 7);
    assert_eq!(client.on_info(a, &info, 0, &registry), Delivery::Completed);

    let right = client.get(&ChunkPos::new(1, 0, 0)).unwrap();
    assert!(right.adj_chunks().contains(Face::Left));
    assert!(!right.adj_chunks().contains(Face::Right));
    // The blocks of the neighbour that touch air see through their left face.
    assert!(right.chunk().sides[0][3][3].contains(Face::Left));
    assert!(!right.chunk().sides[0][3][3].contains(Face::Right));
    assert!(!right.chunk().sides[1][3][3].contains(Face::Left));
    // The one that touches the solid block does not.
    assert!(!right.chunk().sides[0][7][9].contains(Face::Left));
    assert!(right.chunk().sides[0][7][8].contains(Face::Left));

    let below = client.get(&ChunkPos::new(0, -1, 0)).unwrap();
    assert!(below.adj_chunks().contains(Face::Top));
    assert!(below.chunk().sides[5][31][5].contains(Face::Top));
    assert!(!below.chunk().sides[5][30][5].contains(Face::Top));

    // Chunks that do not touch a hear nothing.
    let far = client.get(&ChunkPos::new(1, 1, 0)).unwrap();
    assert!(far.adj_chunks().is_empty());
    // And a itself has heard from nobody yet.
    assert!(client.get(&a).unwrap().adj_chunks().is_empty());
}

#[test]
fn neighbours_are_told_once() {
    let registry = registry();
    let mut client = ClientGameState::new();
    let a = ChunkPos::new(0, 0, 0);
    client.load_around(a, 1);
    let solid = [BlockId(1); 32];
    for x in 0..32 {
        for y in 0..32 {
            client.on_fragment(a, FragmentPos::new(x, y), &solid, 0, &registry);
        }
    }
    let right = client.get(&ChunkPos::new(1, 0, 0)).unwrap();
    assert!(right.adj_chunks().contains(Face::Left));
    assert!(!right.chunk().sides[0][3][3].contains(Face::Left));
    // The chunk turns to air at version 1; the neighbour has been told before
    // and is left alone.
    assert_eq!(client.on_info(a, &full_info(), 1, &registry), Delivery::Completed);
    let right = client.get(&ChunkPos::new(1, 0, 0)).unwrap();
    assert!(!right.chunk().sides[0][3][3].contains(Face::Left));
}

#[test]
fn boundary_layers_face_each_other() {
    assert_eq!(boundary_coords(Face::Right, 3, 4), (31, 3, 4));
    assert_eq!(boundary_coords(Face::Left, 3, 4), (0, 3, 4));
    assert_eq!(boundary_coords(Face::Top, 3, 4), (3, 31, 4));
    assert_eq!(boundary_coords(Face::Bottom, 3, 4), (3, 0, 4));
    assert_eq!(boundary_coords(Face::Front, 3, 4), (3, 4, 31));
    assert_eq!(boundary_coords(Face::Back, 3, 4), (3, 4, 0));
}

#[test]
fn inner_faces_of_a_chunk() {
    let registry = registry();
    let mut chunk = Chunk::new();
    chunk.blocks[5][5][5] = BlockId(1);
    chunk.blocks[5][5][6] = BlockId(1);
    chunk.calculate_sides(&registry);
    // A block in the open sees through all its faces.
    assert!(chunk.sides[10][10][10].is_all());
    // A face towards a solid block is hidden.
    assert!(!chunk.sides[5][5][5].contains(Face::Front));
    assert!(chunk.sides[5][5][5].contains(Face::Back));
    assert!(!chunk.sides[5][5][6].contains(Face::Back));
    assert!(!chunk.sides[4][5][5].contains(Face::Right));
    assert!(chunk.sides[4][5][5].contains(Face::Left));
    // Faces at the border of the chunk are not decided from inside.
    assert!(!chunk.sides[0][10][10].contains(Face::Left));
    assert!(chunk.sides[0][10][10].contains(Face::Right));
    assert!(!chunk.sides[10][31][10].contains(Face::Top));
    assert!(!chunk.sides[10][10][0].contains(Face::Back));
}

#[test]
fn unknown_block_ids_hide_nothing() {
    let registry = registry();
    assert!(!registry.is_opaque(BlockId(0)));
    assert!(registry.is_opaque(BlockId(1)));
    assert!(!registry.is_opaque(BlockId(2)));
    assert!(!registry.is_opaque(BlockId(0xFFFF)));
}

#[test]
fn interest_volume_follows_the_player() {
    let mut client = ClientGameState::new();
    let out = client.fetch_close_chunks(ChunkPos::new(0, 0, 0), 0);
    assert!(out.is_empty());
    // Render distance 0 and a margin of 2.
    assert_eq!(client.len(), 125);
    assert!(client.get(&ChunkPos::new(2, -2, 2)).is_some());
    assert!(client.get(&ChunkPos::new(3, 0, 0)).is_none());
    client.fetch_close_chunks(ChunkPos::new(1, 0, 0), 0);
    assert_eq!(client.len(), 125);
    assert!(client.get(&ChunkPos::new(3, 0, 0)).is_some());
    assert!(client.get(&ChunkPos::new(-2, 0, 0)).is_none());
}

#[test]
fn chunks_are_kept_across_fetches() {
    let registry = registry();
    let mut client = ClientGameState::new();
    let pos = ChunkPos::new(0, 0, 0);
    client.fetch_close_chunks(pos, 0);
    client.on_fragment(pos, FragmentPos::new(0, 0), &[BlockId(1); 32], 0, &registry);
    client.fetch_close_chunks(ChunkPos::new(1, 0, 0), 0);
    assert_eq!(client.get(&pos).unwrap().fragments(), 1);
    client.fetch_close_chunks(ChunkPos::new(3, 0, 0), 0);
    assert!(client.get(&pos).is_none());
    client.fetch_close_chunks(pos, 0);
    assert_eq!(client.get(&pos).unwrap().fragments(), 0);
}

#[test]
fn chunk_is_meshed_once_complete_and_surrounded() {
    let registry = registry();
    let mut client = ClientGameState::new();
    let pos = ChunkPos::new(0, 0, 0);
    client.fetch_close_chunks(pos, 0);
    let mut column = [BlockId(0); 32];
    column[0] = BlockId(1);
    client.on_fragment(pos, FragmentPos::new(3, 3), &column, 0, &registry);
    let mut info = full_info();
    info[3] &= !(1 << 3);
    assert_eq!(client.on_info(pos, &info, 0, &registry), Delivery::Completed);
    // Complete, but the neighbours have not spoken.
    assert!(client.fetch_close_chunks(pos, 0).is_empty());
    for face in Face::all() {
        let next = pos.neighbor(face).unwrap();
        assert_eq!(client.on_info(next, &full_info(), 0, &registry), Delivery::Completed);
    }
    assert!(client.get(&pos).unwrap().adj_chunks().is_all());
    let out = client.fetch_close_chunks(pos, 0);
    assert_eq!(out.len(), 1);
    match &out[0] {
        ToMeshing::ComputeChunkMesh(p, chunk) => {
            assert_eq!(*p, pos);
            assert_eq!(chunk.blocks[3][3], column);
            assert!(chunk.sides[0][4][4].contains(Face::Left));
        }
    }
    assert_eq!(client.get(&pos).unwrap().state(), ChunkState::Meshing);
    // While meshing nothing is handed out again.
    assert!(client.fetch_close_chunks(pos, 0).is_empty());
    let done = client.process_chunk_message(ToInput::NewChunkBuffer(pos, 77), &registry);
    assert_eq!(done, Delivery::Accepted);
    assert_eq!(client.get(&pos).unwrap().state(), ChunkState::Meshed(77));
    assert_eq!(client.get(&pos).unwrap().displayed(), Some(77));
    assert!(client.fetch_close_chunks(pos, 0).is_empty());

    // An edit makes the chunk hot: it is meshed again, and the old mesh stays
    // on display until the new one comes.
    column[1] = BlockId(1);
    client.on_fragment(pos, FragmentPos::new(3, 3), &column, 1, &registry);
    assert!(client.fetch_close_chunks(pos, 0).is_empty());
    client.on_info(pos, &info, 1, &registry);
    assert!(client.get(&pos).unwrap().is_hot());
    let out = client.fetch_close_chunks(pos, 0);
    assert_eq!(out.len(), 1);
    let data = client.get(&pos).unwrap();
    assert_eq!(data.state(), ChunkState::Meshing);
    assert_eq!(data.displayed(), Some(77));
    assert!(!data.is_hot());
    client.on_mesh(pos, 78);
    assert_eq!(client.get(&pos).unwrap().displayed(), Some(78));
}

#[test]
fn server_queue_sends_one_chunk_per_client_and_turn() {
    let mut server = ServerImpl::new();
    let blocks = scenario_blocks();
    for (conn, x) in [(1usize, 0i64), (2, 5), (1, 1), (1, 2)] {
        server.enqueue(ServerToNetwork::NewChunk(
            conn,
            ChunkPos::new(x, 0, 0),
            ChunkContents(blocks.clone(), 0),
        ));
    }
    assert_eq!(server.pending(1), 3);
    assert_eq!(server.pending(2), 1);
    assert_eq!(server.pending(3), 0);
    let out = server.process_messages();
    assert_eq!(out.len(), 6);
    let to: Vec<usize> = out.iter().map(|o| o.connection).collect();
    assert_eq!(to, vec![1, 1, 1, 2, 2, 2]);
    let about: Vec<i64> = out
        .iter()
        .map(|o| match &o.message {
            ToClient::NewChunkFragment(p, _, _, _) => p.x,
            ToClient::NewChunkInfo(p, _, _) => p.x,
        })
        .collect();
    assert_eq!(about, vec![0, 0, 0, 5, 5, 5]);
    assert_eq!(server.pending(1), 2);
    assert_eq!(server.pending(2), 0);
    let out = server.process_messages();
    assert_eq!(out.len(), 3);
    assert!(out.iter().all(|o| o.connection == 1));
    server.process_messages();
    assert_eq!(server.pending(1), 0);
    assert!(server.process_messages().is_empty());
}

#[test]
fn empty_chunk_is_sent_as_info_alone() {
    let contents = ChunkContents(Box::new([[[BlockId(0); 32]; 32]; 32]), 9);
    let out = fragment_chunk(0, ChunkPos::new(0, 0, 0), &contents);
    assert_eq!(out.len(), 1);
    match &out[0].message {
        ToClient::NewChunkInfo(_, info, version) => {
            assert_eq!(*info, [u32::MAX; 32]);
            assert_eq!(*version, 9);
        }
        _ => panic!("expected the info"),
    }
}

#[test]
fn full_chunk_is_sent_column_by_column() {
    let contents = ChunkContents(Box::new([[[BlockId(1); 32]; 32]; 32]), 0);
    let out = fragment_chunk(0, ChunkPos::new(0, 0, 0), &contents);
    assert_eq!(out.len(), 1025);
    match &out[33].message {
        ToClient::NewChunkFragment(_, column, _, _) => {
            assert_eq!(*column, FragmentPos::new(1, 1));
        }
        _ => panic!("expected a fragment"),
    }
    match &out[1024].message {
        ToClient::NewChunkInfo(_, info, _) => assert_eq!(*info, [0u32; 32]),
        _ => panic!("expected the info"),
    }
}

#[test]
fn queued_messages_are_taken_in_order() {
    let registry = registry();
    let mut client = ClientGameState::new();
    let pos = ChunkPos::new(0, 0, 0);
    client.load_around(pos, 0);
    let mut queue = VecDeque::new();
    queue.push_back(ToInput::NewChunkFragment(
        pos,
        FragmentPos::new(0, 0),
        Box::new([BlockId(1); 32]),
        1,
    ));
    queue.push_back(ToInput::NewChunkFragment(
        pos,
        FragmentPos::new(0, 1),
        Box::new([BlockId(1); 32]),
        0,
    ));
    queue.push_back(ToInput::NewChunkInfo(pos, full_info(), 1));
    queue.push_back(ToInput::NewChunkBuffer(ChunkPos::new(9, 9, 9), 1));
    let results = client.process_chunk_messages(&mut queue, &registry);
    assert!(queue.is_empty());
    assert_eq!(
        results,
        vec![Delivery::Accepted, Delivery::Ignored, Delivery::Completed, Delivery::Ignored]
    );
    let data = client.get(&pos).unwrap();
    assert_eq!(data.current(), 1);
    assert_eq!(data.chunk().blocks[0][0], [BlockId(1); 32]);
    assert_eq!(data.chunk().blocks[0][1], [BlockId(0); 32]);
}

#[test]
fn an_incomplete_chunk_tells_nobody() {
    let registry = registry();
    let mut client = ClientGameState::new();
    let a = ChunkPos::new(0, 0, 0);
    client.load_around(a, 1);
    let air = [BlockId(0); 32];
    for x in 0..32 {
        for y in 0..31 {
            client.on_fragment(a, FragmentPos::new(x, y), &air, 0, &registry);
        }
    }
    assert!(!client.get(&a).unwrap().is_complete());
    client.check_finalize_chunk(a, &registry, false);
    for pos in client.keys() {
        assert!(client.get(&pos).unwrap().adj_chunks().is_empty());
    }
    let right = client.get(&ChunkPos::new(1, 0, 0)).unwrap();
    assert!(!right.chunk().sides[0][3][3].contains(Face::Left));

    // With the last columns the chunk is complete, and the neighbours hear of it.
    for x in 0..32 {
        client.on_fragment(a, FragmentPos::new(x, 31), &air, 0, &registry);
    }
    assert!(client.get(&a).unwrap().is_complete());
    let right = client.get(&ChunkPos::new(1, 0, 0)).unwrap();
    assert!(right.adj_chunks().contains(Face::Left));
    assert!(right.chunk().sides[0][3][3].contains(Face::Left));
}

#[test]
fn interest_volume_beyond_a_small_distance() {
    let mut client = ClientGameState::new();
    client.fetch_close_chunks(ChunkPos::new(0, 0, 0), 3);
    assert_eq!(client.len(), 11 * 11 * 11);
    assert!(client.get(&ChunkPos::new(5, -5, 5)).is_some());
    assert!(client.get(&ChunkPos::new(6, 0, 0)).is_none());
}
