use voxel_rs::block::{
    create_block_air, create_block_cube, Block, BlockId, BlockObj, BlockRegistry, BlockShape,
    BlockTraits, MatterState,
};
use voxel_rs::chunk::{
    array_is_empty, empty_array, fragment_is_empty, Chunk, ChunkContents, ChunkData,
    ChunkSimArray, ChunkState, SimFace, SimFaces,
};
use voxel_rs::config::{default_render_distance, default_tick_rate, Config};
use voxel_rs::input::{KeyboardState, CONTROL, MOVE_FORWARD, MOVE_UP};
use voxel_rs::map::ChunkMap;
use voxel_rs::network::{ClientEvent, ServerEvent};
use voxel_rs::player::{Player, PlayerControls, PlayerKey, PlayerSet};
use voxel_rs::pos::{BlockPos, ChunkPos, InnerCoords};
use voxel_rs::pos_map::PosMap;
use voxel_rs::region::{InnerRegPos, Region, RegionChunkState, RegionMap, RegionPos};
use voxel_rs::server::network::{connection_event, player_event};
use voxel_rs::messages::network::ToServer;
use voxel_rs::messages::server::ToGamePlayer;
use voxel_rs::simple::{Polled, SimpleClient, SimpleServer};
use voxel_rs::table::PosTable;
use voxel_rs::util::{Face, Faces, Ticker};

fn air() -> Chunk {
    Chunk::from_contents(ChunkContents(empty_array(), 0))
}

fn inner(x: usize, y: usize, z: usize) -> InnerCoords {
    InnerCoords::new(x, y, z).unwrap()
}

#[test]
fn face_flip_pairs() {
    assert_eq!(Face::Back.flip(), Face::Front);
    assert_eq!(Face::Front.flip(), Face::Back);
    assert_eq!(Face::Right.flip(), Face::Left);
    assert_eq!(Face::Left.flip(), Face::Right);
    assert_eq!(Face::Top.flip(), Face::Bottom);
    assert_eq!(Face::Bottom.flip(), Face::Top);
    for face in Face::all() {
        assert_eq!(face.flip().flip(), face);
        assert_eq!(face.flip().index(), face.index() ^ 1);
        let (a, b) = (face.offset(), face.flip().offset());
        assert_eq!((a.0 + b.0, a.1 + b.1, a.2 + b.2), (0, 0, 0));
        assert_eq!(Face::from_index(face.index()), Some(face));
    }
    assert_eq!(Face::from_index(6), None);
}

#[test]
fn face_sets() {
    let mut faces = Faces::new();
    assert!(faces.is_empty());
    assert_eq!(faces.bits(), 0);
    faces.insert(Face::Right);
    faces.insert(Face::Bottom);
    faces.insert(Face::Right);
    assert!(faces.contains(Face::Right));
    assert!(faces.contains(Face::Bottom));
    assert!(!faces.contains(Face::Left));
    assert_eq!(faces.bits(), 0b100100);
    assert!(!faces.is_empty());
    assert!(!faces.is_all());
    let both = faces.union(Faces::only(Face::Back));
    assert_eq!(both.bits(), 0b100101);
    assert!(Faces::all().is_all());
    assert_eq!(Faces::all().bits(), 0b111111);
    assert_eq!(Faces::only(Face::Top).bits(), 0b010000);
    assert_eq!(Faces::new(), Faces::new().union(Faces::new()));
}

#[test]
fn ticker_paces() {
    let mut ticker = Ticker::from_tick_duration(100, 1000);
    assert!(!ticker.try_tick(1099));
    assert!(ticker.try_tick(1100));
    assert!(!ticker.try_tick(1150));
    assert!(ticker.try_tick(1300));
    // A clock that runs backwards never makes a tick due.
    assert!(!ticker.try_tick(0));
    assert!(ticker.try_tick(1400));
}

#[test]
fn ticker_from_rate() {
    let mut ticker = Ticker::from_tick_rate(60, 0);
    assert!(!ticker.try_tick(16_666_665));
    assert!(ticker.try_tick(16_666_666));
    let mut fast = Ticker::from_tick_rate(2500, 0);
    assert!(!fast.try_tick(399_999));
    assert!(fast.try_tick(400_000));
}

#[test]
fn blocks_and_registry() {
    let gas = create_block_air();
    assert!(!gas.is_opaque());
    assert_eq!(gas.state(), MatterState::Gas);
    assert_eq!(gas.shape(), BlockShape::Cube);
    let cube = create_block_cube();
    assert!(cube.is_opaque());
    assert_eq!(cube.state(), MatterState::Solid);
    let glass = BlockTraits { opaque: false, state: MatterState::Solid };
    let water = BlockObj::Dynamic(BlockTraits { opaque: false, state: MatterState::Liquid });
    assert!(!glass.is_opaque());
    assert_eq!(water.state(), MatterState::Liquid);
    assert!(!water.is_opaque());
    assert!(BlockObj::Cube(cube).is_opaque());
    assert_eq!(BlockObj::Gas(gas).state(), MatterState::Gas);

    let mut registry = BlockRegistry::new();
    assert_eq!(registry.len(), 0);
    assert_eq!(registry.add_block(BlockObj::Gas(gas)), BlockId(0));
    assert_eq!(registry.add_block(BlockObj::Cube(cube)), BlockId(1));
    assert_eq!(registry.add_block(water), BlockId(2));
    assert_eq!(registry.len(), 3);
    assert_eq!(*registry.get_block(BlockId(1)), BlockObj::Cube(cube));
    assert!(registry.is_opaque(BlockId(1)));
    assert!(!registry.is_opaque(BlockId(2)));
    assert!(BlockId(0).is_air());
    assert!(!BlockId(1).is_air());
    assert_eq!(BlockId::from(7), BlockId(7));
}

#[test]
fn chunk_edits_bump_the_version() {
    let mut chunk = air();
    assert_eq!(chunk.get_version(), 0);
    assert!(!chunk.is_modified());
    assert!(chunk.is_empty());
    for n in 1..=5u64 {
        chunk.set(BlockId(n as u16), inner(1, 2, 3));
        assert_eq!(chunk.get_version(), n);
    }
    assert!(chunk.is_modified());
    assert!(!chunk.is_empty());
    assert_eq!(*chunk.get(inner(1, 2, 3)), BlockId(5));
    assert_eq!(*chunk.get(inner(3, 2, 1)), BlockId(0));
    let copy = chunk.clone_contents();
    assert_eq!(copy.get_version(), 5);
    assert_eq!(copy.0[1][2][3], BlockId(5));
    assert_eq!(copy.iter()[1][2][3], BlockId(5));
    assert_eq!(chunk.slices()[1][2][3], BlockId(5));
    let moved = chunk.contents();
    assert_eq!(moved.1, 5);
}

#[test]
fn chunk_takes_inner_index_too() {
    let mut chunk = air();
    let at = inner(4, 5, 6);
    chunk.set(BlockId(9), voxel_rs::pos::InnerPos::idx(&at));
    assert_eq!(*chunk.get(at), BlockId(9));
}

#[test]
fn emptiness() {
    let mut blocks = empty_array();
    assert!(array_is_empty(&blocks));
    assert!(fragment_is_empty(&blocks[3][3]));
    blocks[31][31][31] = BlockId(1);
    assert!(!array_is_empty(&blocks));
    assert!(!fragment_is_empty(&blocks[31][31]));
    assert!(fragment_is_empty(&blocks[31][30]));
}

#[test]
fn chunk_data_fills_and_compresses() {
    let mut data = ChunkData::Empty;
    assert!(data.is_empty_variant());
    assert!(data.is_empty());
    assert!(data.compress());
    data.fill()[0][0][0] = BlockId(1);
    assert!(!data.is_empty_variant());
    assert!(!data.is_empty());
    assert!(!data.compress());
    data.fill()[0][0][0] = BlockId(0);
    assert!(data.is_empty());
    assert!(!data.is_empty_variant());
    assert!(data.compress());
    assert!(data.is_empty_variant());
    assert!(ChunkData::empty_full().is_empty());
    assert!(!ChunkData::empty_full().is_empty_variant());
}

#[test]
fn sim_faces() {
    assert_eq!(SimFace::from(Face::Top), SimFace::Top);
    assert_eq!(SimFace::from(Face::Back), SimFace::Back);
    assert_eq!(SimFace::This.index(), 6);
    let mut faces = SimFaces::empty();
    assert!(!faces.contains(SimFace::This));
    faces.insert(SimFace::This);
    assert!(faces.contains(SimFace::This));
    assert!(!faces.contains(SimFace::Top));
    let mut sides = ChunkSimArray::empty();
    let at = inner(1, 2, 3);
    sides.insert(&at, SimFace::Left);
    assert!(sides.get(&at).contains(SimFace::Left));
    assert!(!sides.get(&inner(3, 2, 1)).contains(SimFace::Left));
    sides.blank();
    assert!(!sides.get(&at).contains(SimFace::Left));
    assert!(!air().sides().get(&at).contains(SimFace::This));
}

#[test]
fn chunk_state_machine() {
    let mut state = ChunkState::Generating;
    assert!(!state.is_generated());
    assert!(!state.is_modified());
    assert_eq!(state.get_version(), None);
    // An edit to a chunk that is not there changes nothing.
    assert!(!state.try_set(inner(0, 0, 0), BlockId(1)));
    assert!(!state.is_generated());
    assert!(state.update_worldgen(air()));
    assert!(state.is_generated());
    assert_eq!(state.get_version(), Some(0));
    // A second reply of the generator is dropped.
    let mut other = air();
    other.set(BlockId(1), inner(0, 0, 0));
    assert!(!state.update_worldgen(other));
    assert_eq!(state.get_version(), Some(0));
    state.set(inner(0, 0, 0), BlockId(2));
    assert!(state.try_set(inner(0, 0, 1), BlockId(2)));
    assert_eq!(state.get_version(), Some(2));
    assert!(state.is_modified());
}

#[test]
fn version_counter_does_not_wrap() {
    let mut state = ChunkState::Generated(Chunk::from_contents(ChunkContents(
        empty_array(),
        u64::MAX,
    )));
    assert!(!state.try_set(inner(0, 0, 0), BlockId(1)));
    assert_eq!(state.get_version(), Some(u64::MAX));
    match &state {
        ChunkState::Generated(chunk) => assert!(chunk.is_empty()),
        ChunkState::Generating => panic!("the chunk is there"),
    }
}

#[test]
fn chunk_map_edits() {
    let mut map = ChunkMap::new();
    let here = ChunkPos::new(0, 0, 0);
    let there = ChunkPos::new(1, 0, 0);
    let nowhere = ChunkPos::new(2, 0, 0);
    map.insert(here, ChunkState::Generated(air()));
    map.insert(there, ChunkState::Generating);
    assert_eq!(map.len(), 2);
    assert!(map.contains_key(&here));
    assert!(!map.contains_key(&nowhere));

    for n in 1..=4u64 {
        assert!(map.set(here, inner(1, 1, 1), BlockId(7)));
        assert_eq!(map.get(&here).unwrap().get_version(), Some(n));
    }
    assert!(!map.set(there, inner(1, 1, 1), BlockId(7)));
    assert!(!map.set(nowhere, inner(1, 1, 1), BlockId(7)));
    assert_eq!(map.get(&there).unwrap().get_version(), None);
    assert!(map.get(&nowhere).is_none());
    assert_eq!(map.len(), 2);

    assert!(map.is_hot(&here));
    assert!(!map.is_hot(&there));
    assert!(!map.is_hot(&nowhere));
    map.heat(there);
    assert!(map.is_hot(&there));
    map.cool_all();
    assert!(!map.is_hot(&here));
    assert!(!map.is_hot(&there));
    assert_eq!(map.get(&here).unwrap().get_version(), Some(4));
}

#[test]
fn chunk_map_worldgen_and_retain() {
    let mut map = ChunkMap::new();
    for x in 0..5 {
        assert!(map.update_worldgen(ChunkPos::new(x, 0, 0), air()));
    }
    assert!(!map.update_worldgen(ChunkPos::new(0, 0, 0), air()));
    map.insert(ChunkPos::new(9, 0, 0), ChunkState::Generating);
    assert!(map.update_worldgen(ChunkPos::new(9, 0, 0), air()));
    map.set(ChunkPos::new(4, 0, 0), inner(0, 0, 0), BlockId(1));
    map.retain(|pos, state| pos.x < 2 || state.is_modified());
    let mut kept: Vec<i64> = map.keys().iter().map(|p| p.x).collect();
    kept.sort();
    assert_eq!(kept, vec![0, 1, 4]);
    assert_eq!(map.get(&ChunkPos::new(4, 0, 0)).unwrap().get_version(), Some(1));
    match map.get_mut(&ChunkPos::new(0, 0, 0)) {
        Some(state) => state.set(inner(0, 0, 0), BlockId(3)),
        None => panic!("the chunk is there"),
    }
    assert_eq!(map.get(&ChunkPos::new(0, 0, 0)).unwrap().get_version(), Some(1));
    assert!(map.get_mut(&ChunkPos::new(7, 7, 7)).is_none());
    assert!(map.remove(&ChunkPos::new(0, 0, 0)).is_some());
    assert!(map.remove(&ChunkPos::new(0, 0, 0)).is_none());
    assert_eq!(map.len(), 2);
}

#[test]
fn table_maps_positions_to_numbers() {
    let mut table = PosTable::new();
    let a = ChunkPos::new(1, 2, 3);
    let b = ChunkPos::new(3, 2, 1);
    assert_eq!(table.get(&a), None);
    assert!(!table.contains_key(&a));
    assert_eq!(table.insert(a, 10), None);
    assert_eq!(table.insert(b, 20), None);
    assert_eq!(table.insert(a, 11), Some(10));
    assert_eq!(table.get(&a), Some(11));
    assert_eq!(table.get(&b), Some(20));
    assert!(table.contains_key(&b));
    let mut keys = table.keys();
    keys.sort_by_key(|p| p.x);
    assert_eq!(keys, vec![a, b]);
    assert_eq!(table.remove(&a), Some(11));
    assert_eq!(table.remove(&a), None);
    assert_eq!(table.keys(), vec![b]);
    assert_eq!(table.get(&a), None);
}

#[test]
fn table_retain() {
    let mut table = PosTable::new();
    for x in 0..10 {
        table.insert(ChunkPos::new(x, 0, 0), x as u64 * 2);
    }
    table.retain(|pos, v| pos.x % 2 == 0 && v < 10);
    let mut keys: Vec<i64> = table.keys().iter().map(|p| p.x).collect();
    keys.sort();
    assert_eq!(keys, vec![0, 2, 4]);
    assert_eq!(table.get(&ChunkPos::new(4, 0, 0)), Some(8));
}

#[test]
fn pos_map_keeps_values_by_position() {
    let mut map: PosMap<String> = PosMap::new();
    assert!(map.is_empty());
    let a = ChunkPos::new(0, 0, 0);
    let b = ChunkPos::new(0, 0, 1);
    let c = ChunkPos::new(0, 1, 0);
    assert_eq!(map.insert(a, "a".to_string()), None);
    assert_eq!(map.insert(b, "b".to_string()), None);
    assert_eq!(map.insert(c, "c".to_string()), None);
    assert_eq!(map.insert(b, "B".to_string()), Some("b".to_string()));
    assert_eq!(map.len(), 3);
    assert_eq!(map.keys(), vec![a, b, c]);
    assert_eq!(map.get(&b), Some(&"B".to_string()));
    assert!(map.contains_key(&c));
    map.get_mut(&c).unwrap().push('!');
    assert_eq!(map.get(&c), Some(&"c!".to_string()));
    assert!(map.get_mut(&ChunkPos::new(9, 9, 9)).is_none());
    // The last position takes the place of the one that leaves.
    assert_eq!(map.remove(&a), Some("a".to_string()));
    assert_eq!(map.keys(), vec![c, b]);
    assert_eq!(map.get(&a), None);
    assert_eq!(map.get(&b), Some(&"B".to_string()));
    assert_eq!(map.get(&c), Some(&"c!".to_string()));
    assert_eq!(map.remove(&a), None);
    assert_eq!(map.remove(&b), Some("B".to_string()));
    assert_eq!(map.remove(&c), Some("c!".to_string()));
    assert!(map.is_empty());
    assert_eq!(map.insert(a, "again".to_string()), None);
    assert_eq!(map.get(&a), Some(&"again".to_string()));
}

#[test]
fn player_controls() {
    let none = PlayerControls::none();
    assert!(!none.pressed(PlayerKey::Hit));
    let hit = PlayerControls::mouse(true);
    assert!(hit.pressed(PlayerKey::Hit));
    assert!(!hit.pressed(PlayerKey::Forward));
    assert!(!PlayerControls::mouse(false).pressed(PlayerKey::Hit));
    let both = hit.bitor(PlayerControls::from_key(PlayerKey::PhysicsEnable));
    assert!(both.pressed(PlayerKey::Hit));
    assert!(both.pressed(PlayerKey::PhysicsEnable));
    assert!(!both.pressed(PlayerKey::Control));
    let mut keys = none;
    keys.insert(PlayerKey::Down);
    assert!(keys.pressed(PlayerKey::Down));
    assert_eq!(PlayerKey::PhysicsEnable.index(), 8);
}

#[test]
fn player_hits_the_block_it_stands_in() {
    let mut world = ChunkMap::new();
    world.insert(ChunkPos::new(-1, 0, 0), ChunkState::Generated(air()));
    let mut players = PlayerSet::new();
    let id = players.new_player(BlockPos::new(-1, 5, 6), true).unwrap();
    assert!(players.contains(id));
    assert_eq!(id.index(), 0);
    let mut player: Player = *players.get(id);
    assert_eq!(player.get_pos(), BlockPos::new(-1, 5, 6));
    assert_eq!(player.chunk_pos(), ChunkPos::new(-1, 0, 0));
    // No key held: nothing happens.
    assert!(!player.tick(&mut world));
    player.set_input(PlayerControls::from_key(PlayerKey::Hit));
    assert!(player.tick(&mut world));
    assert_eq!(world.get(&ChunkPos::new(-1, 0, 0)).unwrap().get_version(), Some(1));
    assert!(world.is_hot(&ChunkPos::new(-1, 0, 0)));
    // An inactive player does nothing.
    player.active = false;
    assert!(!player.tick(&mut world));
    assert_eq!(world.get(&ChunkPos::new(-1, 0, 0)).unwrap().get_version(), Some(1));
    // A hit into a chunk that is not there is dropped.
    let lost = Player::new(id, BlockPos::new(100, 0, 0), true);
    assert!(!lost.handle_hit(&mut world));
    players.get_mut(id).render_distance = 4;
    assert_eq!(players.get(id).render_distance, 4);
}

#[test]
fn player_finalize() {
    let mut world = ChunkMap::new();
    world.insert(ChunkPos::new(0, 0, 0), ChunkState::Generated(air()));
    world.insert(ChunkPos::new(1, 0, 0), ChunkState::Generating);
    let mut players = PlayerSet::new();
    let id = players.new_player(BlockPos::new(0, 0, 0), true).unwrap();
    let mut player = *players.get(id);
    player.finalize(BlockPos::new(5, 5, 5), &world);
    assert_eq!(player.pos, BlockPos::new(5, 5, 5));
    player.finalize(BlockPos::new(40, 5, 5), &world);
    assert_eq!(player.pos, BlockPos::new(5, 5, 5));
    player.finalize(BlockPos::new(5, -1, 5), &world);
    assert_eq!(player.pos, BlockPos::new(5, 5, 5));
    assert_eq!(player.old_pos, BlockPos::new(5, 5, 5));
}

#[test]
fn regions() {
    assert_eq!(RegionPos::from_chunk(ChunkPos::new(0, 7, 8)), RegionPos([0, 0, 1]));
    assert_eq!(RegionPos::from_chunk(ChunkPos::new(-1, -8, -9)), RegionPos([-1, -1, -2]));
    assert_eq!(InnerRegPos::from_chunk(ChunkPos::new(0, 7, 8)), InnerRegPos([0, 7, 0]));
    assert_eq!(InnerRegPos::from_chunk(ChunkPos::new(-1, -8, -9)), InnerRegPos([7, 0, 7]));
    let from: RegionPos = [1, 2, 3].into();
    assert_eq!(from, RegionPos([1, 2, 3]));
    assert_eq!(from.coord(1), 2);
    let inner: InnerRegPos = [1, 2, 3].into();
    assert_eq!(inner.coord(2), 3);
    assert_eq!(from.add(RegionPos([1, -1, 0])), RegionPos([2, 1, 3]));
}

#[test]
fn region_neighbors() {
    let around = RegionPos([10, 20, 30]).get_neighbors();
    assert_eq!(around.len(), 26);
    assert_eq!(around[0], RegionPos([9, 19, 29]));
    assert_eq!(around[12], RegionPos([10, 20, 29]));
    assert_eq!(around[13], RegionPos([10, 20, 31]));
    assert_eq!(around[25], RegionPos([11, 21, 31]));
    assert!(!around.contains(&RegionPos([10, 20, 30])));
    let mut all = around.to_vec();
    all.sort_by_key(|p| p.0);
    all.dedup();
    assert_eq!(all.len(), 26);
}

#[test]
fn region_map() {
    let mut map = RegionMap::new();
    assert_eq!(map.len(), 0);
    let a = RegionPos([0, 0, 0]);
    let b = RegionPos([1, 0, 0]);
    let far = RegionPos([5, 5, 5]);
    assert!(map.get_id(a).is_none());
    let ida = map.new_region(a);
    let idb = map.new_region(b);
    let idf = map.new_region(far);
    assert_eq!((ida.index(), idb.index(), idf.index()), (0, 1, 2));
    assert_eq!(map.get_id(b), Some(idb));
    assert_eq!(map.get(b).unwrap().position(), b);
    assert_eq!(map.get(b).unwrap().id(), Some(idb));
    assert!(map.get(RegionPos([9, 9, 9])).is_none());
    assert!(map.get_mut(RegionPos([9, 9, 9])).is_none());
    assert!(map.get_mut(a).is_some());
    // b was added when a was there: a is its neighbour at step (-1, 0, 0).
    let region_b = map.region(idb);
    assert_eq!(region_b.neighbor(4), Some(ida));
    let known = (0..26).filter(|i| region_b.neighbor(*i).is_some()).count();
    assert_eq!(known, 1);
    // a was added first and knows nobody.
    let region_a = map.region(ida);
    assert!((0..26).all(|i| region_a.neighbor(i).is_none()));
    assert!((0..26).all(|i| map.region(idf).neighbor(i).is_none()));
    assert_eq!(
        region_a.chunk_state(InnerRegPos([7, 7, 7])),
        RegionChunkState::Ungenerated
    );
    assert_eq!(RegionChunkState::default(), RegionChunkState::Ungenerated);
    let lone = Region::new(far, None);
    assert_eq!(lone.id(), None);
    assert_eq!(lone.position(), far);
}

#[test]
fn simple_server_and_client() {
    let mut server = SimpleServer::new();
    assert!(matches!(server.greeting(), Some(ServerEvent::Connection(0))));
    assert!(server.greeting().is_none());
    assert!(server.next_event(Polled::Empty).is_none());
    assert!(matches!(
        server.next_event(Polled::Disconnected),
        Some(ServerEvent::ConnectionClosed(0))
    ));
    match server.next_event(Polled::Message(vec![1, 2])) {
        Some(ServerEvent::Message(0, bytes)) => assert_eq!(bytes, vec![1, 2]),
        _ => panic!("expected a message"),
    }
    assert_eq!(server.send_message(0, vec![3]), Some(vec![3]));
    assert_eq!(server.send_message(1, vec![3]), None);

    let mut client = SimpleClient::new();
    assert!(matches!(client.greeting(), Some(ClientEvent::Connection)));
    assert!(client.greeting().is_none());
    assert!(client.next_event(Polled::Empty).is_none());
    assert!(matches!(
        client.next_event(Polled::Disconnected),
        Some(ClientEvent::ConnectionClosed)
    ));
    match client.next_event(Polled::Message(vec![4])) {
        Some(ClientEvent::Message(bytes)) => assert_eq!(bytes, vec![4]),
        _ => panic!("expected a message"),
    }
}

#[test]
fn network_events_become_player_events() {
    assert!(matches!(
        connection_event(&ServerEvent::Connection(3)),
        Some((3, ToGamePlayer::Connect))
    ));
    assert!(matches!(
        connection_event(&ServerEvent::ConnectionClosed(4)),
        Some((4, ToGamePlayer::Disconnect))
    ));
    assert!(connection_event(&ServerEvent::Message(4, vec![])).is_none());
    assert!(matches!(
        player_event(ToServer::SetRenderDistance(6)),
        ToGamePlayer::SetRenderDistance(6)
    ));
    match player_event(ToServer::SetInput(PlayerControls::from_key(PlayerKey::Left))) {
        ToGamePlayer::SetInput(keys) => assert!(keys.pressed(PlayerKey::Left)),
        _ => panic!("expected an input"),
    }
}

#[test]
fn keyboard_state() {
    let mut keys = KeyboardState::new();
    assert!(!keys.is_key_pressed(MOVE_FORWARD));
    keys.update_key(MOVE_FORWARD, true);
    keys.update_key(MOVE_UP, true);
    keys.update_key(CONTROL, true);
    keys.update_key(MOVE_UP, false);
    keys.update_key(99, true);
    assert!(keys.is_key_pressed(MOVE_FORWARD));
    assert!(!keys.is_key_pressed(MOVE_UP));
    let controls = keys.controls(true);
    assert!(controls.pressed(PlayerKey::Forward));
    assert!(controls.pressed(PlayerKey::Control));
    assert!(controls.pressed(PlayerKey::Hit));
    assert!(!controls.pressed(PlayerKey::Up));
    assert!(!controls.pressed(PlayerKey::Left));
    assert!(!controls.pressed(PlayerKey::PhysicsEnable));
    assert!(!keys.controls(false).pressed(PlayerKey::Hit));
    keys.clear();
    assert!(!keys.is_key_pressed(MOVE_FORWARD));
}

#[test]
fn config_defaults() {
    assert_eq!(default_render_distance(), 5);
    assert_eq!(default_tick_rate(), 2500);
    let config = Config::default();
    assert_eq!(config, Config { render_distance: 5, tick_rate: 2500 });
    assert_eq!(config.requested_render_distance(), 5);
    assert_eq!(Config { render_distance: -3, tick_rate: 1 }.requested_render_distance(), 0);
}
