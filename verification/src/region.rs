//! Regions: cubes of 8x8x8 chunks that are stored and loaded together.
//!
//! A region knows the ids of the 26 regions around it, so that what happens at
//! its edge finds the neighbouring region without a search.

use crate::pos::{div_floor, mod_floor, ChunkPos};
use crate::table::PosTable;
use vstd::prelude::*;
use vstd::std_specs::convert::FromSpecImpl;

verus! {

/// Edge length of a region, in chunks.
pub const REGION_SIZE: usize = 8;

/// What a region knows of one of its chunks.
#[derive(Clone, Copy, Debug, PartialEq, Eq, Structural)]
pub enum RegionChunkState {
    Ungenerated,
}

impl Default for RegionChunkState {
    fn default() -> (r: RegionChunkState)
        ensures
            r == RegionChunkState::Ungenerated,
    {
        RegionChunkState::Ungenerated
    }
}

/// A region's ID
#[derive(Clone, Copy, Debug, PartialEq, Eq, Structural)]
pub struct RegionID {
    idx: usize,
}

impl RegionID {
    /// Place of the region in its map.
    pub closed spec fn index_spec(self) -> int {
        self.idx as int
    }

    pub fn index(self) -> (r: usize)
        ensures
            r == self.index_spec(),
    {
        self.idx
    }
}

/// Inner region position
#[derive(Clone, Copy, Debug, PartialEq, Eq, Hash)]
pub struct InnerRegPos(pub [usize; 3]);

/// Outer region position
#[derive(Clone, Copy, Debug, PartialEq, Eq, Hash)]
pub struct RegionPos(pub [i64; 3]);

/// The 26 steps from a region to the regions around it, `x` slowest; the step
/// to the region itself is left out.
pub open spec fn neighbor_step(i: int) -> (int, int, int) {
    let k = if i < 13 {
        i
    } else {
        i + 1
    };
    (k / 9 - 1, (k / 3) % 3 - 1, k % 3 - 1)
}

impl RegionPos {
    pub open spec fn x(self) -> int {
        self.0[0] as int
    }

    pub open spec fn y(self) -> int {
        self.0[1] as int
    }

    pub open spec fn z(self) -> int {
        self.0[2] as int
    }

    /// Whether the region has a neighbour on every side, that is, does not lie
    /// at the edge of what 64 bits can number.
    pub open spec fn interior(self) -> bool {
        &&& i64::MIN < self.x() < i64::MAX
        &&& i64::MIN < self.y() < i64::MAX
        &&& i64::MIN < self.z() < i64::MAX
    }

    /// The coordinates as the key under which a table files the region.
    pub open spec fn key_spec(self) -> ChunkPos {
        ChunkPos { x: self.0[0], y: self.0[1], z: self.0[2] }
    }

    /// The coordinates as the key under which a table files the region.
    pub fn key(self) -> (r: ChunkPos)
        ensures
            r == self.key_spec(),
    {
        ChunkPos::new(self.0[0], self.0[1], self.0[2])
    }

    /// The region `(dx, dy, dz)` away.
    pub fn add(self, other: RegionPos) -> (r: RegionPos)
        requires
            crate::pos::in_i64(self.x() + other.x()),
            crate::pos::in_i64(self.y() + other.y()),
            crate::pos::in_i64(self.z() + other.z()),
        ensures
            r.x() == self.x() + other.x(),
            r.y() == self.y() + other.y(),
            r.z() == self.z() + other.z(),
    {
        RegionPos([self.0[0] + other.0[0], self.0[1] + other.0[1], self.0[2] + other.0[2]])
    }

    /// The 26 regions around this one, `x` slowest.
    pub fn get_neighbors(self) -> (r: [RegionPos; 26])
        requires
            self.interior(),
        ensures
            forall|i: int|
                0 <= i < 26 ==> (#[trigger] r[i]).x() == self.x() + neighbor_step(i).0 && r[i].y()
                    == self.y() + neighbor_step(i).1 && r[i].z() == self.z() + neighbor_step(i).2,
    {
        [
            self.add(RegionPos([-1, -1, -1])),
            self.add(RegionPos([-1, -1, 0])),
            self.add(RegionPos([-1, -1, 1])),
            self.add(RegionPos([-1, 0, -1])),
            self.add(RegionPos([-1, 0, 0])),
            self.add(RegionPos([-1, 0, 1])),
            self.add(RegionPos([-1, 1, -1])),
            self.add(RegionPos([-1, 1, 0])),
            self.add(RegionPos([-1, 1, 1])),
            self.add(RegionPos([0, -1, -1])),
            self.add(RegionPos([0, -1, 0])),
            self.add(RegionPos([0, -1, 1])),
            self.add(RegionPos([0, 0, -1])),
            //Don't count this position as it's own neighbor
            self.add(RegionPos([0, 0, 1])),
            self.add(RegionPos([0, 1, -1])),
            self.add(RegionPos([0, 1, 0])),
            self.add(RegionPos([0, 1, 1])),
            self.add(RegionPos([1, -1, -1])),
            self.add(RegionPos([1, -1, 0])),
            self.add(RegionPos([1, -1, 1])),
            self.add(RegionPos([1, 0, -1])),
            self.add(RegionPos([1, 0, 0])),
            self.add(RegionPos([1, 0, 1])),
            self.add(RegionPos([1, 1, -1])),
            self.add(RegionPos([1, 1, 0])),
            self.add(RegionPos([1, 1, 1])),
        ]
    }

    /// The region that holds the chunk at `pos`.
    pub fn from_chunk(pos: ChunkPos) -> (r: RegionPos)
        ensures
            r.x() == pos.x as int / 8,
            r.y() == pos.y as int / 8,
            r.z() == pos.z as int / 8,
    {
        let sz = REGION_SIZE as i64;
        RegionPos([div_floor(pos.x, sz), div_floor(pos.y, sz), div_floor(pos.z, sz)])
    }

    /// Coordinate number `idx`: 0 is x, 1 is y, 2 is z.
    pub fn coord(&self, idx: usize) -> (r: i64)
        requires
            idx < 3,
        ensures
            r == self.0[idx as int],
    {
        self.0[idx]
    }
}

impl From<[i64; 3]> for RegionPos {
    fn from(pos: [i64; 3]) -> (r: RegionPos) {
        RegionPos(pos)
    }
}

impl FromSpecImpl<[i64; 3]> for RegionPos {
    open spec fn obeys_from_spec() -> bool {
        true
    }

    open spec fn from_spec(pos: [i64; 3]) -> RegionPos {
        RegionPos(pos)
    }
}

impl From<[usize; 3]> for InnerRegPos {
    fn from(pos: [usize; 3]) -> (r: InnerRegPos) {
        InnerRegPos(pos)
    }
}

impl FromSpecImpl<[usize; 3]> for InnerRegPos {
    open spec fn obeys_from_spec() -> bool {
        true
    }

    open spec fn from_spec(pos: [usize; 3]) -> InnerRegPos {
        InnerRegPos(pos)
    }
}

impl InnerRegPos {
    /// Whether the position lies inside a region.
    pub open spec fn wf(self) -> bool {
        self.0[0] < 8 && self.0[1] < 8 && self.0[2] < 8
    }

    // Euclidean mod
    fn em(pos: i64) -> (r: usize)
        ensures
            r == pos as int % 8,
            r < 8,
    {
        let fl = mod_floor(pos, REGION_SIZE as i64);
        (if fl >= 0 {
            fl
        } else {
            fl + REGION_SIZE as i64
        }) as usize
    }

    /// Where the chunk at `pos` lies inside its region.
    pub fn from_chunk(pos: ChunkPos) -> (r: InnerRegPos)
        ensures
            r.wf(),
            r.0[0] == pos.x as int % 8,
            r.0[1] == pos.y as int % 8,
            r.0[2] == pos.z as int % 8,
    {
        InnerRegPos([Self::em(pos.x), Self::em(pos.y), Self::em(pos.z)])
    }

    /// Coordinate number `idx`: 0 is x, 1 is y, 2 is z.
    pub fn coord(&self, idx: usize) -> (r: usize)
        requires
            idx < 3,
        ensures
            r == self.0[idx as int],
    {
        self.0[idx]
    }
}

/// A chunk is found again from its region and its place in it: on each axis the
/// region's coordinate times 8 plus the inner coordinate is the chunk's.
pub proof fn lemma_region_split(pos: ChunkPos)
    ensures
        (pos.x as int / 8) * 8 + pos.x as int % 8 == pos.x,
        (pos.y as int / 8) * 8 + pos.y as int % 8 == pos.y,
        (pos.z as int / 8) * 8 + pos.z as int % 8 == pos.z,
        0 <= pos.x as int % 8 < 8,
        0 <= pos.y as int % 8 < 8,
        0 <= pos.z as int % 8 < 8,
{
}

/// A unit of 8x8x8 chunks.
pub struct Region {
    chunks: [[[RegionChunkState; 8]; 8]; 8],
    modified: u16,  // Modified chunk count
    generated: u16,  // Generated chunk count
    neighbors: [Option<RegionID>; 26],
    position: RegionPos,
    id: Option<RegionID>,
}

impl Region {
    pub closed spec fn position_spec(&self) -> RegionPos {
        self.position
    }

    pub closed spec fn id_spec(&self) -> Option<RegionID> {
        self.id
    }

    /// The id of neighbour number `i`, where the region knows it.
    pub closed spec fn neighbor_spec(&self, i: int) -> Option<RegionID> {
        self.neighbors[i]
    }

    /// Number of chunks that were edited.
    pub closed spec fn modified_spec(&self) -> u16 {
        self.modified
    }

    /// Number of chunks that are there.
    pub closed spec fn generated_spec(&self) -> u16 {
        self.generated
    }

    /// What the region knows of its chunk at `(x, y, z)`.
    pub closed spec fn chunk_spec(&self, x: int, y: int, z: int) -> RegionChunkState {
        self.chunks[x][y][z]
    }

    /// A region at `pos` of which no chunk is there and no neighbour is known.
    pub fn new(pos: RegionPos, id: Option<RegionID>) -> (r: Region)
        ensures
            r.position_spec() == pos,
            r.id_spec() == id,
            r.modified_spec() == 0,
            r.generated_spec() == 0,
            forall|i: int| 0 <= i < 26 ==> #[trigger] r.neighbor_spec(i) is None,
            forall|x: int, y: int, z: int|
                0 <= x < 8 && 0 <= y < 8 && 0 <= z < 8 ==> #[trigger] r.chunk_spec(x, y, z)
                    == RegionChunkState::Ungenerated,
    {
        Region {
            chunks: [[[RegionChunkState::Ungenerated;8];8];8],
            modified: 0,
            generated: 0,
            neighbors: [None;26],
            position: pos,
            id: id,
        }
    }

    pub fn position(&self) -> (r: RegionPos)
        ensures
            r == self.position_spec(),
    {
        self.position
    }

    pub fn id(&self) -> (r: Option<RegionID>)
        ensures
            r == self.id_spec(),
    {
        self.id
    }

    /// The id of neighbour number `i`, where the region knows it.
    pub fn neighbor(&self, i: usize) -> (r: Option<RegionID>)
        requires
            i < 26,
        ensures
            r == self.neighbor_spec(i as int),
    {
        self.neighbors[i]
    }

    /// What the region knows of its chunk at `pos`.
    pub fn chunk_state(&self, pos: InnerRegPos) -> (r: RegionChunkState)
        requires
            pos.wf(),
        ensures
            r == self.chunk_spec(pos.0[0] as int, pos.0[1] as int, pos.0[2] as int),
    {
        self.chunks[pos.0[0]][pos.0[1]][pos.0[2]]
    }
}

/// The regions of a world, found by id or by position.
pub struct RegionMap {
    regions: Vec<Region>,
    coord_map: PosTable,
}

impl RegionMap {
    /// The regions, by id.
    pub closed spec fn regions_spec(&self) -> Seq<Region> {
        self.regions@
    }

    /// The id of the region at each position that has one.
    pub closed spec fn ids_spec(&self) -> Map<ChunkPos, u64> {
        self.coord_map@
    }

    /// Every id that the map hands out names one of its regions.
    pub closed spec fn wf(&self) -> bool {
        forall|k: ChunkPos| #[trigger]
            self.coord_map@.contains_key(k) ==> self.coord_map@[k] < self.regions.len()
    }

    /// The id of the region at `pos`, where there is one.
    pub open spec fn id_at(&self, pos: RegionPos) -> Option<int> {
        if self.ids_spec().contains_key(pos.key_spec()) {
            Some(self.ids_spec()[pos.key_spec()] as int)
        } else {
            None
        }
    }

    pub fn new() -> (r: RegionMap)
        ensures
            r.wf(),
            r.regions_spec() == Seq::<Region>::empty(),
            r.ids_spec() == Map::<ChunkPos, u64>::empty(),
    {
        RegionMap { regions: Vec::new(), coord_map: PosTable::new() }
    }

    /// Number of regions.
    pub fn len(&self) -> (r: usize)
        ensures
            r == self.regions_spec().len(),
    {
        self.regions.len()
    }

    /// Adds a region at `pos` and returns its id. The new region knows the ids
    /// of the regions around it that were there before it; those do not learn of
    /// the new one. A position that had a region is filed under the new one from
    /// now on.
    pub fn new_region(&mut self, pos: RegionPos) -> (id: RegionID)
        requires
            old(self).wf(),
            pos.interior(),
        ensures
            final(self).wf(),
            id.index_spec() == old(self).regions_spec().len(),
            final(self).regions_spec().len() == old(self).regions_spec().len() + 1,
            final(self).regions_spec().drop_last() == old(self).regions_spec(),
            final(self).ids_spec() == old(self).ids_spec().insert(
                pos.key_spec(),
                id.index_spec() as u64,
            ),
            final(self).regions_spec().last().position_spec() == pos,
            final(self).regions_spec().last().id_spec() == Some(id),
            final(self).regions_spec().last().modified_spec() == 0,
            final(self).regions_spec().last().generated_spec() == 0,
            forall|x: int, y: int, z: int|
                0 <= x < 8 && 0 <= y < 8 && 0 <= z < 8
                    ==> #[trigger] final(self).regions_spec().last().chunk_spec(x, y, z)
                    == RegionChunkState::Ungenerated,
            forall|i: int|
                0 <= i < 26 ==> match #[trigger] final(self).regions_spec().last().neighbor_spec(i) {
                    Some(n) => old(self).ids_spec().contains_key(
                        neighbor_key(pos, i),
                    ) && n.index_spec() == old(self).ids_spec()[neighbor_key(pos, i)],
                    None => !old(self).ids_spec().contains_key(neighbor_key(pos, i)),
                },
    {
        let id = RegionID { idx: self.regions.len() };
        let mut reg = Region::new(pos, Some(id));
        let around = pos.get_neighbors();
        let mut i: usize = 0;
        while i < 26
            invariant
                i <= 26,
                self.wf(),
                reg.position == pos,
                reg.id == Some(id),
                reg.modified == 0,
                reg.generated == 0,
                forall|x: int, y: int, z: int|
                    0 <= x < 8 && 0 <= y < 8 && 0 <= z < 8 ==> #[trigger] reg.chunk_spec(x, y, z)
                        == RegionChunkState::Ungenerated,
                forall|k: int|
                    0 <= k < 26 ==> (#[trigger] around[k]).x() == pos.x() + neighbor_step(k).0
                        && around[k].y() == pos.y() + neighbor_step(k).1 && around[k].z() == pos.z()
                        + neighbor_step(k).2,
                forall|k: int|
                    0 <= k < i ==> match #[trigger] reg.neighbors[k] {
                        Some(n) => self.coord_map@.contains_key(neighbor_key(pos, k)) && n.idx
                            == self.coord_map@[neighbor_key(pos, k)],
                        None => !self.coord_map@.contains_key(neighbor_key(pos, k)),
                    },
            decreases 26 - i,
        {
            let neighbor = around[i];
            proof {
                assert(neighbor.key_spec() == neighbor_key(pos, i as int));
            }
            let found = match self.coord_map.get(&neighbor.key()) {
                Some(n) => {
                    assert(self.coord_map@.contains_key(neighbor.key_spec()));
                    Some(RegionID { idx: n as usize })
                },
                None => None,
            };
            reg.neighbors[i] = found;
            i = i + 1;
        }
        self.regions.push(reg);
        self.coord_map.insert(pos.key(), id.idx as u64);
        proof {
            assert(self.regions@.drop_last() =~= old(self).regions@);
        }
        id
    }

    /// The id of the region at `pos`.
    pub fn get_id(&self, pos: RegionPos) -> (r: Option<RegionID>)
        requires
            self.wf(),
        ensures
            r is Some <==> self.id_at(pos) is Some,
            r matches Some(id) ==> Some(id.index_spec()) == self.id_at(pos) && id.index_spec()
                < self.regions_spec().len(),
    {
        match self.coord_map.get(&pos.key()) {
            Some(n) => {
                assert(self.coord_map@.contains_key(pos.key_spec()));
                Some(RegionID { idx: n as usize })
            },
            None => None,
        }
    }

    /// The region at `pos`.
    pub fn get(&self, pos: RegionPos) -> (r: Option<&Region>)
        requires
            self.wf(),
        ensures
            r is Some <==> self.id_at(pos) is Some,
            r matches Some(region) ==> *region == self.regions_spec()[self.id_at(pos)->0],
    {
        if let Some(id) = self.get_id(pos) {
            Some(&self.regions[id.idx])
        } else {
            None
        }
    }

    /// The region at `pos`, to be changed in place.
    pub fn get_mut(&mut self, pos: RegionPos) -> (r: Option<&mut Region>)
        requires
            old(self).wf(),
        ensures
            final(self).wf(),
            final(self).ids_spec() == old(self).ids_spec(),
            r is Some <==> old(self).id_at(pos) is Some,
            r is None ==> final(self).regions_spec() == old(self).regions_spec(),
            r matches Some(region) ==> *region == old(self).regions_spec()[old(self).id_at(pos)->0]
                && final(self).regions_spec() == old(self).regions_spec().update(
                old(self).id_at(pos)->0,
                *final(region),
            ),
    {
        if let Some(id) = self.get_id(pos) {
            Some(&mut self.regions[id.idx])
        } else {
            None
        }
    }

    /// The region with id `id`.
    pub fn region(&self, id: RegionID) -> (r: &Region)
        requires
            id.index_spec() < self.regions_spec().len(),
        ensures
            *r == self.regions_spec()[id.index_spec()],
    {
        &self.regions[id.idx]
    }
}

/// The key of neighbour number `i` of the region at `pos`.
pub open spec fn neighbor_key(pos: RegionPos, i: int) -> ChunkPos {
    ChunkPos {
        x: (pos.x() + neighbor_step(i).0) as i64,
        y: (pos.y() + neighbor_step(i).1) as i64,
        z: (pos.z() + neighbor_step(i).2) as i64,
    }
}

} // verus!
