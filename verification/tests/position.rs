use voxel_rs::pos::{
    abs, can_hold_cube, cube_offsets, BlockPos, ChunkPos, FragmentPos, InnerCoords, InnerIdx, InnerPos, SubIndex,
};
use voxel_rs::util::Face;

#[test]
fn block_splits_into_chunk_and_inner() {
    let b = BlockPos::new(64, 33, 31);
    assert_eq!(b.high(), ChunkPos::new(2, 1, 0));
    let inner = b.low();
    assert_eq!((inner.x(), inner.y(), inner.z()), (0, 1, 31));
}

#[test]
fn negative_block_splits_with_floor() {
    let b = BlockPos::new(-1, -32, -33);
    assert_eq!(b.high(), ChunkPos::new(-1, -1, -2));
    let inner = b.low();
    assert_eq!((inner.x(), inner.y(), inner.z()), (31, 0, 31));
}

#[test]
fn split_is_inverse_of_join() {
    for v in [-100i64, -65, -64, -33, -32, -31, -1, 0, 1, 31, 32, 33, 63, 64, 1000] {
        let b = BlockPos::new(v, v + 7, -v);
        let (chunk, inner) = b.factor();
        assert_eq!(chunk.x * 32 + inner.x() as i64, b.x);
        assert_eq!(chunk.y * 32 + inner.y() as i64, b.y);
        assert_eq!(chunk.z * 32 + inner.z() as i64, b.z);
        assert!(inner.x() < 32 && inner.y() < 32 && inner.z() < 32);
    }
}

#[test]
fn split_at_the_limits_of_i64() {
    let b = BlockPos::new(i64::MIN, i64::MAX, 0);
    let (chunk, inner) = b.factor();
    assert_eq!(chunk.x, i64::MIN / 32);
    assert_eq!(inner.x(), 0);
    assert_eq!(chunk.y, i64::MAX / 32);
    assert_eq!(inner.y(), 31);
}

#[test]
fn clamp_brings_into_chunk() {
    let c = BlockPos::new(-5, 12, 40).clamp();
    assert_eq!((c.x(), c.y(), c.z()), (0, 12, 31));
}

#[test]
fn block_pos_from_array() {
    let b: BlockPos = [1, 2, 3].into();
    assert_eq!(b, BlockPos::new(1, 2, 3));
    assert_eq!((b.coord(0), b.coord(1), b.coord(2)), (1, 2, 3));
}

#[test]
fn chunk_pos_from_array() {
    let c: ChunkPos = [4, 5, 6].into();
    assert_eq!(c, ChunkPos::new(4, 5, 6));
    assert_eq!((c.coord(0), c.coord(1), c.coord(2)), (4, 5, 6));
}

#[test]
fn chebyshev_distance_is_largest_axis_distance() {
    let a = ChunkPos::new(0, 0, 0);
    assert_eq!(a.orthogonal_dist(ChunkPos::new(3, -7, 2)), 7);
    assert_eq!(a.orthogonal_dist(a), 0);
    assert_eq!(ChunkPos::new(3, -7, 2).orthogonal_dist(a), 7);
}

#[test]
fn chebyshev_distance_across_all_of_i64() {
    let a = ChunkPos::new(i64::MIN, 0, 0);
    let b = ChunkPos::new(i64::MAX, 0, 0);
    assert_eq!(a.orthogonal_dist(b), u64::MAX);
}

#[test]
fn in_range_is_inclusive() {
    let a = ChunkPos::new(1, 0, 0);
    assert!(a.in_range(ChunkPos::new(2, 1, -1), 1));
    assert!(!a.in_range(ChunkPos::new(3, 0, 0), 1));
}

#[test]
fn neighbor_follows_face() {
    let p = ChunkPos::new(0, 0, 0);
    assert_eq!(p.neighbor(Face::Back), Some(ChunkPos::new(0, 0, -1)));
    assert_eq!(p.neighbor(Face::Front), Some(ChunkPos::new(0, 0, 1)));
    assert_eq!(p.neighbor(Face::Right), Some(ChunkPos::new(1, 0, 0)));
    assert_eq!(p.neighbor(Face::Left), Some(ChunkPos::new(-1, 0, 0)));
    assert_eq!(p.neighbor(Face::Top), Some(ChunkPos::new(0, 1, 0)));
    assert_eq!(p.neighbor(Face::Bottom), Some(ChunkPos::new(0, -1, 0)));
}

#[test]
fn neighbor_at_edge_of_grid_is_none() {
    assert_eq!(ChunkPos::new(i64::MAX, 0, 0).neighbor(Face::Right), None);
    assert_eq!(ChunkPos::new(0, i64::MIN, 0).neighbor(Face::Bottom), None);
}

#[test]
fn inner_coords_bounds() {
    assert!(InnerCoords::new(31, 31, 31).is_some());
    assert!(InnerCoords::new(32, 0, 0).is_none());
    assert!(InnerCoords::new(0, 32, 0).is_none());
    assert!(InnerCoords::new(0, 0, 32).is_none());
    let c = InnerCoords::new(1, 2, 3).unwrap();
    assert_eq!((c.coord(0), c.coord(1), c.coord(2)), (1, 2, 3));
}

#[test]
fn inner_coords_to_index_and_back() {
    let c = InnerCoords::new(1, 2, 3).unwrap();
    let i = c.idx();
    assert_eq!(i.get(), 1 + 2 * 32 + 3 * 1024);
    assert_eq!((i.x(), i.y(), i.z()), (1, 2, 3));
    assert_eq!(i.to_coords(), c);
}

#[test]
fn inner_idx_bounds() {
    assert!(InnerIdx::new(32767).is_some());
    assert!(InnerIdx::new(32768).is_none());
}

#[test]
fn inner_idx_indices_count_up() {
    let all = InnerIdx::indices();
    assert_eq!(all.len(), 32768);
    assert_eq!(all[0].get(), 0);
    assert_eq!(all[4711].get(), 4711);
    assert_eq!(all[32767].get(), 32767);
}

#[test]
fn adjacent_steps_through_face() {
    let c = InnerCoords::new(5, 6, 7).unwrap();
    assert_eq!(c.adjacent(Face::Right), InnerCoords::new(6, 6, 7));
    assert_eq!(c.adjacent(Face::Left), InnerCoords::new(4, 6, 7));
    assert_eq!(c.adjacent(Face::Top), InnerCoords::new(5, 7, 7));
    assert_eq!(c.adjacent(Face::Bottom), InnerCoords::new(5, 5, 7));
    assert_eq!(c.adjacent(Face::Front), InnerCoords::new(5, 6, 8));
    assert_eq!(c.adjacent(Face::Back), InnerCoords::new(5, 6, 6));
}

#[test]
fn adjacent_stops_at_chunk_border() {
    let low = InnerCoords::new(0, 0, 0).unwrap();
    assert_eq!(low.adjacent(Face::Left), None);
    assert_eq!(low.adjacent(Face::Bottom), None);
    assert_eq!(low.adjacent(Face::Back), None);
    let high = InnerCoords::new(31, 31, 31).unwrap();
    assert_eq!(high.adjacent(Face::Right), None);
    assert_eq!(high.adjacent(Face::Top), None);
    assert_eq!(high.adjacent(Face::Front), None);
}

#[test]
fn adjacent_agrees_between_the_two_forms() {
    let c = InnerCoords::new(31, 0, 9).unwrap();
    for face in Face::all() {
        let by_coords = c.adjacent(face).map(|p| p.idx());
        let by_index = c.idx().adjacent(face);
        assert_eq!(by_coords, by_index);
    }
}

#[test]
fn fragment_pos_index() {
    assert_eq!(FragmentPos::new(3, 4).index(), Some(3 * 32 + 4));
    assert_eq!(FragmentPos::new(32, 0).index(), None);
    assert_eq!(FragmentPos::new(0, 32).index(), None);
    let f: FragmentPos = [7, 8].into();
    assert_eq!((f.coord(0), f.coord(1)), (7, 8));
}

#[test]
fn abs_of_negative() {
    assert_eq!(abs(-7), 7);
    assert_eq!(abs(7), 7);
    assert_eq!(abs(0), 0);
}

#[test]
fn cube_offsets_hold_the_whole_cube_once() {
    let offsets = cube_offsets(1);
    assert_eq!(offsets.len(), 27);
    assert_eq!(offsets[0], (-1, -1, -1));
    assert_eq!(offsets[26], (1, 1, 1));
    let mut sorted = offsets.clone();
    sorted.sort();
    sorted.dedup();
    assert_eq!(sorted.len(), 27);
    assert_eq!(cube_offsets(0), vec![(0, 0, 0)]);
    assert_eq!(cube_offsets(2).len(), 125);
}

#[test]
fn cube_fits_up_to_the_largest_usize() {
    assert!(can_hold_cube(0));
    assert!(can_hold_cube(256));
    assert!(can_hold_cube(1_000_000));
    // 2_642_245 cubed is the largest odd cube below two to the power of 64.
    assert_eq!(can_hold_cube(1_321_122), usize::MAX as u128 >= 2_642_245u128.pow(3));
    assert!(!can_hold_cube(1_321_123));
    assert!(!can_hold_cube(0x20_0000));
    assert!(!can_hold_cube(u64::MAX));
}

#[test]
fn cube_offsets_beyond_a_small_distance() {
    let offsets = cube_offsets(20);
    assert_eq!(offsets.len(), 41 * 41 * 41);
    assert_eq!(offsets[0], (-20, -20, -20));
    assert_eq!(offsets[offsets.len() - 1], (20, 20, 20));
}
