use voxel_rs::chunk::ChunkState;
use voxel_rs::player::PlayerSet;
use voxel_rs::pos::{BlockPos, ChunkPos};
use voxel_rs::table::{ChunkTable, LedgerTable, LinkTable, PosTable};

#[test]
fn chunk_table_stores_and_forgets() {
    let mut table = ChunkTable::new();
    let a = ChunkPos::new(1, 2, 3);
    let b = ChunkPos::new(3, 2, 1);
    assert_eq!(table.len(), 0);
    assert!(table.get(&a).is_none());
    assert!(table.insert(a, ChunkState::Generating).is_none());
    assert!(table.insert(b, ChunkState::Generating).is_none());
    assert!(matches!(table.insert(a, ChunkState::Generating), Some(ChunkState::Generating)));
    assert_eq!(table.len(), 2);
    assert!(table.contains_key(&a));
    assert!(!table.contains_key(&ChunkPos::new(1, 2, 4)));
    assert!(matches!(table.get(&b), Some(ChunkState::Generating)));
    assert!(table.get_mut(&ChunkPos::new(0, 0, 0)).is_none());
    assert!(table.get_mut(&a).is_some());
    let mut keys = table.keys();
    keys.sort_by_key(|p| p.x);
    assert_eq!(keys, vec![a, b]);
    assert!(table.remove(&a).is_some());
    assert!(table.remove(&a).is_none());
    assert_eq!(table.keys(), vec![b]);
    assert_eq!(table.len(), 1);
}

#[test]
fn link_table_stores_and_forgets() {
    let mut players = PlayerSet::new();
    let first = players.new_player(BlockPos::new(0, 0, 0), true).unwrap();
    let second = players.new_player(BlockPos::new(0, 0, 0), true).unwrap();
    let mut table = LinkTable::new();
    assert!(table.entries().is_empty());
    assert_eq!(table.get(5), None);
    assert_eq!(table.insert(5, first), None);
    assert_eq!(table.insert(9, second), None);
    assert_eq!(table.get(5), Some(first));
    assert_eq!(table.get(9), Some(second));
    assert_eq!(table.insert(5, second), Some(first));
    assert_eq!(table.get(5), Some(second));
    let mut entries = table.entries();
    entries.sort_by_key(|e| e.0);
    assert_eq!(entries, vec![(5, second), (9, second)]);
    assert_eq!(table.remove(5), Some(second));
    assert_eq!(table.remove(5), None);
    assert_eq!(table.entries(), vec![(9, second)]);
}

#[test]
fn ledger_table_stores_and_forgets() {
    let mut table = LedgerTable::new();
    let pos = ChunkPos::new(4, 5, 6);
    assert!(table.get(0).is_none());
    assert!(table.get_mut(0).is_none());
    assert!(table.insert(0, PosTable::new()).is_none());
    assert!(table.insert(3, PosTable::new()).is_none());
    table.get_mut(3).unwrap().insert(pos, 8);
    assert_eq!(table.get(3).unwrap().get(&pos), Some(8));
    assert_eq!(table.get(0).unwrap().get(&pos), None);
    let old = table.insert(3, PosTable::new()).unwrap();
    assert_eq!(old.get(&pos), Some(8));
    assert_eq!(table.get(3).unwrap().get(&pos), None);
    table.get_mut(0).unwrap().insert(pos, 2);
    let gone = table.remove(0).unwrap();
    assert_eq!(gone.get(&pos), Some(2));
    assert!(table.remove(0).is_none());
    assert!(table.get(0).is_none());
    assert!(table.get(3).is_some());
}
