use voxel_rs::block::BlockId;
use voxel_rs::chunk::{Chunk, ChunkContents, ChunkState};
use voxel_rs::map::ChunkMap;
use voxel_rs::messages::server::{ToGame, ToGamePlayer, ToNetwork, ToWorldgen};
use voxel_rs::player::{PlayerControls, PlayerKey};
use voxel_rs::pos::{BlockPos, ChunkPos, InnerCoords};
use voxel_rs::server::game::GameImpl;
use voxel_rs::server::stream::{
    decide, nearby_offsets, serve_chunk, sq_dist, stream_to_player, Decision,
};
use voxel_rs::table::PosTable;

fn chunk_at_version(version: u64) -> Chunk {
    Chunk::from_contents(ChunkContents(Box::new([[[BlockId(0); 32]; 32]; 32]), version))
}

fn sent_positions(msgs: &[ToNetwork]) -> Vec<ChunkPos> {
    msgs.iter()
        .map(|m| match m {
            ToNetwork::NewChunk(_, pos, _) => *pos,
        })
        .collect()
}

fn asked_positions(msgs: &[ToWorldgen]) -> Vec<ChunkPos> {
    msgs.iter()
        .map(|m| match m {
            ToWorldgen::GenerateChunk(pos) => *pos,
        })
        .collect()
}

fn connected_game(render_distance: u64) -> GameImpl {
    let mut game = GameImpl::new(BlockPos::new(0, 0, 0));
    game.process_message(ToGame::PlayerEvent(7, ToGamePlayer::Connect));
    game.process_message(ToGame::PlayerEvent(
        7,
        ToGamePlayer::SetRenderDistance(render_distance),
    ));
    game
}

fn ledger_of(game: &GameImpl, id: usize) -> &PosTable {
    game.ledger_of(game.player_of(id).unwrap()).unwrap()
}

fn deliver_all(game: &mut GameImpl, asked: &[ToWorldgen]) {
    for pos in asked_positions(asked) {
        game.process_message(ToGame::NewChunk(pos, chunk_at_version(0), false));
    }
}

#[test]
fn decision_table() {
    let generating = ChunkState::Generating;
    let v3 = ChunkState::Generated(chunk_at_version(3));
    assert_eq!(decide(None, None), Decision::Generate);
    assert_eq!(decide(Some(1), None), Decision::Generate);
    assert_eq!(decide(None, Some(&generating)), Decision::Wait);
    assert_eq!(decide(Some(1), Some(&generating)), Decision::Wait);
    assert_eq!(decide(None, Some(&v3)), Decision::Send);
    assert_eq!(decide(Some(2), Some(&v3)), Decision::Send);
    assert_eq!(decide(Some(3), Some(&v3)), Decision::Skip);
    assert_eq!(decide(Some(4), Some(&v3)), Decision::Skip);
}

#[test]
fn squared_distance_formula() {
    assert_eq!(sq_dist((1, -2, 3)), 14);
    assert_eq!(sq_dist((0, 0, 0)), 0);
    assert_eq!(sq_dist((-256, 256, -256)), 3 * 65536);
    assert_eq!(sq_dist((3_000_000_000, 0, -4_000_000_000)), 25_000_000_000_000_000_000);
    assert_eq!(sq_dist((i64::MIN, i64::MIN, i64::MAX)), (1u128 << 127) + ((1u128 << 63) - 1) * ((1u128 << 63) - 1));
}

#[test]
fn nearby_offsets_come_nearest_first() {
    let offsets = nearby_offsets(1);
    assert_eq!(offsets.len(), 27);
    assert_eq!(offsets[0], (0, 0, 0));
    let keys: Vec<u128> = offsets.iter().map(|o| sq_dist(*o)).collect();
    assert_eq!(&keys[..7], &[0, 1, 1, 1, 1, 1, 1]);
    assert!(keys[7..19].iter().all(|k| *k == 2));
    assert!(keys[19..].iter().all(|k| *k == 3));
    let mut all = offsets.clone();
    all.sort();
    all.dedup();
    assert_eq!(all.len(), 27);
}

#[test]
fn nearby_offsets_of_distance_zero() {
    assert_eq!(nearby_offsets(0), vec![(0, 0, 0)]);
}

#[test]
fn serve_chunk_sends_and_notes_the_version() {
    let mut chunks = ChunkMap::new();
    let mut ledger = PosTable::new();
    let pos = ChunkPos::new(1, 2, 3);
    chunks.insert(pos, ChunkState::Generated(chunk_at_version(3)));
    let mut net = Vec::new();
    let mut gen = Vec::new();
    let d = serve_chunk(&mut chunks, &mut ledger, 9, pos, &mut net, &mut gen);
    assert_eq!(d, Decision::Send);
    assert_eq!(ledger.get(&pos), Some(3));
    assert_eq!(net.len(), 1);
    match &net[0] {
        ToNetwork::NewChunk(conn, p, contents) => {
            assert_eq!(*conn, 9);
            assert_eq!(*p, pos);
            assert_eq!(contents.1, 3);
        }
    }
    assert!(gen.is_empty());
}

#[test]
fn serve_chunk_asks_once_for_a_missing_chunk() {
    let mut chunks = ChunkMap::new();
    let mut ledger = PosTable::new();
    let pos = ChunkPos::new(0, 0, 0);
    let mut net = Vec::new();
    let mut gen = Vec::new();
    assert_eq!(
        serve_chunk(&mut chunks, &mut ledger, 1, pos, &mut net, &mut gen),
        Decision::Generate
    );
    assert_eq!(gen, vec![ToWorldgen::GenerateChunk(pos)]);
    assert!(matches!(chunks.get(&pos), Some(ChunkState::Generating)));
    assert_eq!(
        serve_chunk(&mut chunks, &mut ledger, 1, pos, &mut net, &mut gen),
        Decision::Wait
    );
    assert_eq!(gen.len(), 1);
    assert!(net.is_empty());
    assert_eq!(ledger.get(&pos), None);
}

#[test]
fn stale_skip() {
    // The ledger holds version 3 of the chunk and the server's chunk is still
    // at version 3: nothing is sent.
    let mut chunks = ChunkMap::new();
    let mut ledger = PosTable::new();
    let pos = ChunkPos::new(4, 0, -2);
    chunks.insert(pos, ChunkState::Generated(chunk_at_version(3)));
    ledger.insert(pos, 3);
    let mut net = Vec::new();
    let mut gen = Vec::new();
    stream_to_player(&mut chunks, &mut ledger, 1, pos, 0, &mut net, &mut gen);
    assert!(net.is_empty());
    assert!(gen.is_empty());
    assert_eq!(ledger.get(&pos), Some(3));
}

#[test]
fn newer_version_is_sent_again() {
    let mut chunks = ChunkMap::new();
    let mut ledger = PosTable::new();
    let pos = ChunkPos::new(0, 0, 0);
    chunks.insert(pos, ChunkState::Generated(chunk_at_version(3)));
    ledger.insert(pos, 3);
    assert!(chunks.set(pos, InnerCoords::new(1, 2, 3).unwrap(), BlockId(8)));
    let mut net = Vec::new();
    let mut gen = Vec::new();
    stream_to_player(&mut chunks, &mut ledger, 1, pos, 0, &mut net, &mut gen);
    assert_eq!(sent_positions(&net), vec![pos]);
    match &net[0] {
        ToNetwork::NewChunk(_, _, contents) => {
            assert_eq!(contents.1, 4);
            assert_eq!(contents.0[1][2][3], BlockId(8));
        }
    }
    assert_eq!(ledger.get(&pos), Some(4));
    let mut again = Vec::new();
    stream_to_player(&mut chunks, &mut ledger, 1, pos, 0, &mut again, &mut gen);
    assert!(again.is_empty());
}

#[test]
fn stale_skip_through_the_game() {
    let mut game = connected_game(0);
    let pos = ChunkPos::new(0, 0, 0);
    game.process_message(ToGame::NewChunk(pos, chunk_at_version(3), false));
    let (net, gen) = game.send_chunks();
    assert_eq!(sent_positions(&net), vec![pos]);
    assert!(gen.is_empty());
    assert_eq!(ledger_of(&game, 7).get(&pos), Some(3));
    let (net, gen) = game.send_chunks();
    assert!(net.is_empty());
    assert!(gen.is_empty());
}

#[test]
fn missing_chunks_are_asked_for_once_and_nearest_first() {
    let mut game = connected_game(1);
    let (net, gen) = game.send_chunks();
    assert!(net.is_empty());
    let asked = asked_positions(&gen);
    assert_eq!(asked.len(), 27);
    assert_eq!(asked[0], ChunkPos::new(0, 0, 0));
    let origin = ChunkPos::new(0, 0, 0);
    for pair in asked.windows(2) {
        let a = pair[0];
        let b = pair[1];
        let da = a.x * a.x + a.y * a.y + a.z * a.z;
        let db = b.x * b.x + b.y * b.y + b.z * b.z;
        assert!(da <= db);
        assert!(origin.orthogonal_dist(a) <= 1);
    }
    // While the chunks are being generated nothing is asked for again.
    let (net, gen) = game.send_chunks();
    assert!(net.is_empty());
    assert!(gen.is_empty());
    assert_eq!(game.chunks().len(), 27);
}

#[test]
fn interest_radius_churn() {
    let mut game = connected_game(1);
    let (_, gen) = game.send_chunks();
    deliver_all(&mut game, &gen);
    let (net, gen) = game.send_chunks();
    assert_eq!(net.len(), 27);
    assert!(gen.is_empty());
    assert_eq!(ledger_of(&game, 7).keys().len(), 27);

    // The player walks from chunk (0, 0, 0) to chunk (1, 0, 0).
    let player = game.player_of(7).unwrap();
    game.finalize_player(player, BlockPos::new(32, 0, 0));
    assert_eq!(game.players().get(player).chunk_pos(), ChunkPos::new(1, 0, 0));

    let (net, gen) = game.send_chunks();
    // Nothing in reach is new to the player but the plane at x = 2, which does
    // not exist yet.
    assert!(net.is_empty());
    let mut asked = asked_positions(&gen);
    asked.sort_by_key(|p| (p.y, p.z));
    assert_eq!(asked.len(), 9);
    assert!(asked.iter().all(|p| p.x == 2 && p.y.abs() <= 1 && p.z.abs() <= 1));
    asked.dedup();
    assert_eq!(asked.len(), 9);

    // The plane at x = -1 is out of reach and forgotten by the ledger.
    let center = ChunkPos::new(1, 0, 0);
    let ledger = ledger_of(&game, 7);
    let kept = ledger.keys();
    assert_eq!(kept.len(), 18);
    assert!(kept.iter().all(|p| center.orthogonal_dist(*p) <= 1));
    assert_eq!(ledger.get(&ChunkPos::new(-1, 0, 0)), None);
    assert_eq!(ledger.get(&ChunkPos::new(0, 1, -1)), Some(0));
    // The server itself keeps all its chunks.
    assert_eq!(game.chunks().len(), 36);

    deliver_all(&mut game, &gen);
    let (net, gen) = game.send_chunks();
    let mut sent = sent_positions(&net);
    assert_eq!(sent.len(), 9);
    assert!(sent.iter().all(|p| p.x == 2));
    sent.sort_by_key(|p| (p.y, p.z));
    sent.dedup();
    assert_eq!(sent.len(), 9);
    assert!(gen.is_empty());
}

#[test]
fn ledger_forgets_what_is_out_of_reach() {
    let mut chunks = ChunkMap::new();
    let mut ledger = PosTable::new();
    let mut net = Vec::new();
    let mut gen = Vec::new();
    ledger.insert(ChunkPos::new(256, 0, 0), 1);
    ledger.insert(ChunkPos::new(257, 0, 0), 1);
    stream_to_player(&mut chunks, &mut ledger, 1, ChunkPos::new(0, 0, 0), 0, &mut net, &mut gen);
    assert_eq!(ledger.keys().len(), 0);
    assert_eq!(gen.len(), 1);
}

#[test]
fn edits_bump_the_version_and_are_never_evicted() {
    let mut game = connected_game(1);
    let (_, gen) = game.send_chunks();
    deliver_all(&mut game, &gen);
    let origin = ChunkPos::new(0, 0, 0);

    // The player hits the block it stands in.
    game.process_message(ToGame::PlayerEvent(
        7,
        ToGamePlayer::SetInput(PlayerControls::from_key(PlayerKey::Hit)),
    ));
    game.tick_game();
    game.tick_game();
    assert_eq!(
        game.chunks().get(&origin).unwrap().get_version(),
        Some(2)
    );
    assert!(game.chunks().is_hot(&origin));
    assert!(!game.chunks().is_hot(&ChunkPos::new(1, 0, 0)));

    // With the player in reach nothing is evicted.
    game.garbage_collect();
    assert_eq!(game.chunks().len(), 27);

    // Without any player only the edited chunk stays.
    game.process_message(ToGame::PlayerEvent(7, ToGamePlayer::Disconnect));
    game.garbage_collect();
    assert_eq!(game.chunks().len(), 1);
    assert_eq!(
        game.chunks().get(&origin).unwrap().get_version(),
        Some(2)
    );
}

#[test]
fn chunks_being_generated_are_evicted_out_of_reach() {
    let mut game = connected_game(0);
    let (_, gen) = game.send_chunks();
    assert_eq!(gen.len(), 1);
    game.process_message(ToGame::PlayerEvent(7, ToGamePlayer::Disconnect));
    game.garbage_collect();
    assert_eq!(game.chunks().len(), 0);
}

#[test]
fn connect_and_disconnect() {
    let mut game = GameImpl::new(BlockPos::new(5, 6, 7));
    assert_eq!(game.connection_list().len(), 0);
    game.process_message(ToGame::PlayerEvent(3, ToGamePlayer::Connect));
    game.process_message(ToGame::PlayerEvent(4, ToGamePlayer::Connect));
    let mut list = game.connection_list();
    list.sort_by_key(|c| c.0);
    assert_eq!(list.len(), 2);
    assert_eq!((list[0].0, list[0].1.index()), (3, 0));
    assert_eq!((list[1].0, list[1].1.index()), (4, 1));
    assert_eq!(game.players().len(), 2);
    let first = game.player_of(3).unwrap();
    assert!(game.ledger_of(first).is_some());
    assert!(game.players().get(first).active);
    assert_eq!(game.players().get(first).pos, BlockPos::new(5, 6, 7));
    assert_eq!(game.players().get(first).render_distance, 0);
    assert_eq!(game.player_of(4).map(|p| p.index()), Some(1));
    assert_eq!(game.player_of(5), None);

    game.process_message(ToGame::PlayerEvent(3, ToGamePlayer::Disconnect));
    assert_eq!(game.connection_list().len(), 1);
    assert_eq!(game.connection_list()[0].0, 4);
    assert_eq!(game.player_of(3), None);
    assert!(game.ledger_of(first).is_none());
    assert!(!game.players().get(first).active);
    assert_eq!(game.players().len(), 2);

    // Messages about a connection that is gone change nothing.
    game.process_message(ToGame::PlayerEvent(3, ToGamePlayer::SetRenderDistance(9)));
    game.process_message(ToGame::PlayerEvent(3, ToGamePlayer::Disconnect));
    assert_eq!(game.players().get(first).render_distance, 0);
    assert_eq!(game.connection_list().len(), 1);
}

#[test]
fn reconnect_on_the_same_id_starts_afresh() {
    let mut game = connected_game(0);
    game.process_message(ToGame::NewChunk(ChunkPos::new(0, 0, 0), chunk_at_version(0), false));
    let (net, _) = game.send_chunks();
    assert_eq!(net.len(), 1);
    game.process_message(ToGame::PlayerEvent(7, ToGamePlayer::Connect));
    assert_eq!(game.connection_list().len(), 1);
    assert_eq!(game.players().len(), 2);
    assert_eq!(game.player_of(7).map(|p| p.index()), Some(1));
    assert_eq!(ledger_of(&game, 7).keys().len(), 0);
    let (net, _) = game.send_chunks();
    assert_eq!(net.len(), 1);
}

#[test]
fn duplicate_generation_reply_is_dropped() {
    let mut game = connected_game(0);
    let pos = ChunkPos::new(0, 0, 0);
    let (_, gen) = game.send_chunks();
    assert_eq!(asked_positions(&gen), vec![pos]);
    game.process_message(ToGame::NewChunk(pos, chunk_at_version(1), false));
    game.process_message(ToGame::NewChunk(pos, chunk_at_version(5), false));
    assert_eq!(game.chunks().get(&pos).unwrap().get_version(), Some(1));
}

#[test]
fn a_player_cannot_walk_into_a_missing_chunk() {
    let mut game = connected_game(0);
    game.process_message(ToGame::NewChunk(ChunkPos::new(0, 0, 0), chunk_at_version(0), false));
    let player = game.player_of(7).unwrap();
    game.finalize_player(player, BlockPos::new(31, 0, 0));
    assert_eq!(game.players().get(player).pos, BlockPos::new(31, 0, 0));
    game.finalize_player(player, BlockPos::new(32, 0, 0));
    assert_eq!(game.players().get(player).pos, BlockPos::new(31, 0, 0));
}

#[test]
fn two_players_share_one_generation_request() {
    let mut game = GameImpl::new(BlockPos::new(0, 0, 0));
    game.process_message(ToGame::PlayerEvent(1, ToGamePlayer::Connect));
    game.process_message(ToGame::PlayerEvent(2, ToGamePlayer::Connect));
    let (net, gen) = game.send_chunks();
    assert!(net.is_empty());
    assert_eq!(gen.len(), 1);
    deliver_all(&mut game, &gen);
    let (net, gen) = game.send_chunks();
    assert!(gen.is_empty());
    let mut to: Vec<usize> = net
        .iter()
        .map(|m| match m {
            ToNetwork::NewChunk(conn, _, _) => *conn,
        })
        .collect();
    // The table of connections does not promise which of the two comes first.
    to.sort();
    assert_eq!(to, vec![1, 2]);
}

#[test]
fn ticks_are_counted() {
    let mut game = GameImpl::new(BlockPos::new(0, 0, 0));
    game.tick_game();
    game.tick_game();
    game.tick_game();
    assert_eq!(game.ticks(), 3);
}

#[test]
fn broadcast_pass_cools_what_was_hot() {
    let mut game = connected_game(0);
    let origin = ChunkPos::new(0, 0, 0);
    game.process_message(ToGame::NewChunk(origin, chunk_at_version(0), false));
    game.send_chunks();
    game.process_message(ToGame::PlayerEvent(
        7,
        ToGamePlayer::SetInput(PlayerControls::from_key(PlayerKey::Hit)),
    ));
    game.tick_game();
    assert!(game.chunks().is_hot(&origin));
    let (net, _) = game.send_chunks();
    assert_eq!(sent_positions(&net), vec![origin]);
    assert!(!game.chunks().is_hot(&origin));
    assert_eq!(game.chunks().get(&origin).unwrap().get_version(), Some(1));
}

#[test]
fn a_far_chunk_in_sight_of_a_player_is_kept() {
    let mut game = connected_game(1000);
    let near = ChunkPos::new(900, -1000, 257);
    let far = ChunkPos::new(1001, 0, 0);
    game.process_message(ToGame::NewChunk(near, chunk_at_version(0), false));
    game.process_message(ToGame::NewChunk(far, chunk_at_version(0), false));
    assert!(game.is_needed(near));
    assert!(!game.is_needed(far));
    game.garbage_collect();
    assert!(game.chunks().contains_key(&near));
    assert!(!game.chunks().contains_key(&far));
    assert_eq!(game.chunks().len(), 1);
}

#[test]
fn reach_is_the_render_distance_itself() {
    let game = connected_game(u64::MAX);
    assert!(game.is_needed(ChunkPos::new(i64::MAX, i64::MIN, 0)));
    let game = connected_game(257);
    assert!(game.is_needed(ChunkPos::new(257, 0, 0)));
    assert!(!game.is_needed(ChunkPos::new(258, 0, 0)));
}

#[test]
fn only_a_cube_beyond_the_machine_is_not_servable() {
    assert!(connected_game(0).is_servable());
    assert!(connected_game(257).is_servable());
    assert!(connected_game(1_321_122).is_servable());
    assert!(!connected_game(1_321_123).is_servable());
    assert!(!connected_game(u64::MAX).is_servable());
    // Without players there is nothing to list.
    let mut game = connected_game(u64::MAX);
    game.process_message(ToGame::PlayerEvent(7, ToGamePlayer::Disconnect));
    assert!(game.is_servable());
}

#[test]
fn ledger_keeps_what_is_in_reach() {
    let mut chunks = ChunkMap::new();
    let mut ledger = PosTable::new();
    let mut net = Vec::new();
    let mut gen = Vec::new();
    let center = ChunkPos::new(4, 0, 0);
    for x in 0..9 {
        for y in -4..5 {
            for z in -4..5 {
                chunks.insert(ChunkPos::new(x, y, z), ChunkState::Generated(chunk_at_version(3)));
            }
        }
    }
    ledger.insert(ChunkPos::new(8, 4, -4), 3);
    ledger.insert(ChunkPos::new(0, 0, 0), 2);
    ledger.insert(ChunkPos::new(9, 0, 0), 3);
    stream_to_player(&mut chunks, &mut ledger, 1, center, 4, &mut net, &mut gen);
    // Every chunk in reach is noted at its version; the one out of reach is forgotten.
    assert_eq!(ledger.keys().len(), 9 * 9 * 9);
    assert_eq!(ledger.get(&ChunkPos::new(8, 4, -4)), Some(3));
    assert_eq!(ledger.get(&ChunkPos::new(0, 0, 0)), Some(3));
    assert_eq!(ledger.get(&ChunkPos::new(9, 0, 0)), None);
    // All were sent but the one that the player had at that version.
    assert_eq!(net.len(), 9 * 9 * 9 - 1);
    assert!(sent_positions(&net).contains(&ChunkPos::new(0, 0, 0)));
    assert!(!sent_positions(&net).contains(&ChunkPos::new(8, 4, -4)));
    assert!(gen.is_empty());
}
