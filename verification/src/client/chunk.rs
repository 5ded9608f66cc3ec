//! The client-side chunk data structures

use crate::block::{BlockId, BlockRegistry};
use crate::chunk::{ChunkArray, ChunkFragment};
use crate::pos::{step_stays_inside, FragmentPos};
use crate::util::{Face, Faces};
use vstd::prelude::*;

verus! {

/// For each of the 1024 columns of a chunk one bit, column `(x, y)` at bit `y` of
/// word `x`.
pub type ChunkInfo = [u32; 32];

/// For each block of a chunk, the faces through which something can be seen.
pub type ChunkSidesArray = [[[Faces; 32]; 32]; 32];

/// Names a mesh that the renderer holds.
pub type MeshHandle = u64;

/// One layer of a chunk: for each of its 32x32 blocks whether one can see
/// through it.
pub type OpenLayer = [[bool; 32]; 32];

/// Whether the bit of column `(x, y)` is set in `info`.
pub open spec fn info_bit(info: ChunkInfo, x: int, y: int) -> bool {
    info[x] & (1u32 << (y as u32)) != 0
}

/// The columns whose bit is set in `info`, column `(x, y)` as the number
/// `32 * x + y`.
pub open spec fn marked(info: ChunkInfo) -> Set<int> {
    Set::new(|i: int| 0 <= i < 1024 && info_bit(info, i / 32, i % 32))
}

pub(crate) proof fn lemma_set_bit(w: u32, y: u32, z: u32)
    by (bit_vector)
    requires
        y < 32,
        z < 32,
    ensures
        ((w | (1u32 << y)) & (1u32 << z) != 0) == ((w & (1u32 << z) != 0) || y == z),
        0u32 & (1u32 << z) == 0,
{
}

/// A set of columns is finite and has 1024 members at most; it has 1024 exactly
/// when it holds every column.
pub proof fn lemma_marked(info: ChunkInfo)
    ensures
        marked(info).finite(),
        marked(info).len() <= 1024,
        marked(info).len() == 1024 <==> (forall|i: int| 0 <= i < 1024 ==> marked(info).contains(i)),
{
    let all = vstd::set_lib::set_int_range(0, 1024);
    vstd::set_lib::lemma_int_range(0, 1024);
    vstd::set_lib::lemma_len_subset(marked(info), all);
    if marked(info).len() == 1024 {
        vstd::set_lib::lemma_subset_equality(marked(info), all);
        assert forall|i: int| 0 <= i < 1024 implies marked(info).contains(i) by {
            assert(all.contains(i));
        }
    }
    if forall|i: int| 0 <= i < 1024 ==> marked(info).contains(i) {
        assert(marked(info) =~= all);
    }
}

/// No bit set.
pub fn info_empty() -> (r: ChunkInfo)
    ensures
        marked(r) == Set::<int>::empty(),
        forall|x: int, y: int| 0 <= x < 32 && 0 <= y < 32 ==> !(#[trigger] info_bit(r, x, y)),
{
    let r: ChunkInfo = [0u32;32];
    proof {
        assert forall|x: int, y: int| 0 <= x < 32 && 0 <= y < 32 implies !(#[trigger] info_bit(
            r,
            x,
            y,
        )) by {
            lemma_set_bit(0, 0, y as u32);
        }
        assert(marked(r) =~= Set::<int>::empty());
    }
    r
}

/// Whether the bit of column `(x, y)` is set.
pub fn info_get(info: &ChunkInfo, x: usize, y: usize) -> (r: bool)
    requires
        x < 32,
        y < 32,
    ensures
        r == info_bit(*info, x as int, y as int),
        r == marked(*info).contains(32 * x + y),
{
    info[x] & (1u32 << (y as u32)) != 0
}

/// Sets the bit of column `(x, y)`. The other bits stay.
pub fn info_set(info: &mut ChunkInfo, x: usize, y: usize)
    requires
        x < 32,
        y < 32,
    ensures
        forall|a: int, b: int|
            0 <= a < 32 && 0 <= b < 32 ==> #[trigger] info_bit(*final(info), a, b) == (info_bit(
                *old(info),
                a,
                b,
            ) || (a == x && b == y)),
        marked(*final(info)) == marked(*old(info)).insert(32 * x + y),
{
    info[x] = info[x] | (1u32 << (y as u32));
    proof {
        assert forall|a: int, b: int| 0 <= a < 32 && 0 <= b < 32 implies #[trigger] info_bit(
            *info,
            a,
            b,
        ) == (info_bit(*old(info), a, b) || (a == x && b == y)) by {
            if a == x {
                lemma_set_bit(old(info)[x as int], y as u32, b as u32);
            } else {
                assert(info[a] == old(info)[a]);
            }
        }
        assert forall|i: int| marked(*info).contains(i) == marked(*old(info)).insert(
            32 * x + y,
        ).contains(i) by {
            if 0 <= i < 1024 {
                assert(info_bit(*info, i / 32, i % 32) == (info_bit(*old(info), i / 32, i % 32) || (
                i / 32 == x && i % 32 == y)));
            }
        }
        assert(marked(*info) =~= marked(*old(info)).insert(32 * x + y));
    }
}

/// Chunk type
pub struct Chunk {
    /// Blocks in the chunk
    pub blocks: Box<ChunkArray>,
    /// For each block the faces whose neighbour is not opaque
    pub sides: Box<ChunkSidesArray>,
}

/// The block of the outermost layer towards `face` that lies at `(u, v)` of
/// that layer. The layer is spanned by the two axes that `face` does not point
/// along, in the order x, y, z.
pub open spec fn boundary_cell(face: Face, u: int, v: int) -> (int, int, int) {
    match face {
        Face::Back => (u, v, 0),
        Face::Front => (u, v, 31),
        Face::Right => (31, u, v),
        Face::Left => (0, u, v),
        Face::Top => (u, 31, v),
        Face::Bottom => (u, 0, v),
    }
}

/// The block of the outermost layer towards `face` that lies at `(u, v)` of
/// that layer.
pub fn boundary_coords(face: Face, u: usize, v: usize) -> (r: (usize, usize, usize))
    requires
        u < 32,
        v < 32,
    ensures
        (r.0 as int, r.1 as int, r.2 as int) == boundary_cell(face, u as int, v as int),
        r.0 < 32,
        r.1 < 32,
        r.2 < 32,
{
    match face {
        Face::Back => (u, v, 0),
        Face::Front => (u, v, 31),
        Face::Right => (31, u, v),
        Face::Left => (0, u, v),
        Face::Top => (u, 31, v),
        Face::Bottom => (u, 0, v),
    }
}

/// Every block that has no neighbour inside the chunk towards `face` lies in
/// the outermost layer towards `face`, and the block of the next chunk that it
/// touches lies at the same place of that chunk's layer towards the opposite
/// face.
pub proof fn lemma_boundary(face: Face, x: int, y: int, z: int)
    requires
        0 <= x < 32,
        0 <= y < 32,
        0 <= z < 32,
        !step_stays_inside(x, y, z, face),
    ensures
        exists|u: int, v: int|
            0 <= u < 32 && 0 <= v < 32 && #[trigger] boundary_cell(face, u, v) == (x, y, z)
                && boundary_cell(face.flip_spec(), u, v) == (
                (x + face.offset_spec().0) % 32,
                (y + face.offset_spec().1) % 32,
                (z + face.offset_spec().2) % 32,
            ),
{
    match face {
        Face::Back => {
            assert(boundary_cell(face, x, y) == (x, y, z));
        },
        Face::Front => {
            assert(boundary_cell(face, x, y) == (x, y, z));
        },
        Face::Right => {
            assert(boundary_cell(face, y, z) == (x, y, z));
        },
        Face::Left => {
            assert(boundary_cell(face, y, z) == (x, y, z));
        },
        Face::Top => {
            assert(boundary_cell(face, x, z) == (x, y, z));
        },
        Face::Bottom => {
            assert(boundary_cell(face, x, z) == (x, y, z));
        },
    }
}

/// The faces of the block at `(x, y, z)` that the blocks of its own chunk leave
/// visible, added to `seen`: a face is visible where the block behind it lies in
/// the chunk and is not opaque.
pub open spec fn inner_faces_added(
    blocks: ChunkArray,
    registry: BlockRegistry,
    x: int,
    y: int,
    z: int,
    seen: Faces,
    result: Faces,
) -> bool {
    forall|f: Face|
        result.has(f) == (seen.has(f) || (step_stays_inside(x, y, z, f) && !registry.opaque_spec(
            blocks[x + f.offset_spec().0][y + f.offset_spec().1][z + f.offset_spec().2],
        )))
}

impl Chunk {
    /// A chunk of air in which no face is known to be visible.
    pub fn new() -> (r: Chunk)
        ensures
            crate::chunk::array_empty(*r.blocks),
            forall|x: int, y: int, z: int, f: Face|
                0 <= x < 32 && 0 <= y < 32 && 0 <= z < 32 ==> !(#[trigger] r.sides[x][y][z].has(f)),
    {
        Chunk {
            blocks: Box::new([[[BlockId(0);32];32];32]),
            sides: Box::new([[[Faces::new();32];32];32]),
        }
    }

    /// A copy of this chunk.
    pub fn copy(&self) -> (r: Chunk)
        ensures
            *r.blocks == *self.blocks,
            *r.sides == *self.sides,
    {
        Chunk { blocks: Box::new(*self.blocks), sides: Box::new(*self.sides) }
    }

    /// The faces of one block that the blocks of this chunk leave visible, added
    /// to those already known.
    fn inner_faces(&self, registry: &BlockRegistry, x: usize, y: usize, z: usize) -> (r: Faces)
        requires
            x < 32,
            y < 32,
            z < 32,
        ensures
            r.wf(),
            inner_faces_added(
                *self.blocks,
                *registry,
                x as int,
                y as int,
                z as int,
                self.sides[x as int][y as int][z as int],
                r,
            ),
    {
        let all = Face::all();
        let seen = self.sides[x][y][z];
        let mut faces = seen;
        let mut i: usize = 0;
        proof {
            use_type_invariant(&faces);
        }
        while i < 6
            invariant
                i <= 6,
                x < 32,
                y < 32,
                z < 32,
                faces.wf(),
                forall|k: int| 0 <= k < 6 ==> Face::from_index_spec(k) == Some(#[trigger] all[k]),
                forall|f: Face|
                    faces.has(f) == (seen.has(f) || (f.index_spec() < i && step_stays_inside(
                        x as int,
                        y as int,
                        z as int,
                        f,
                    ) && !registry.opaque_spec(
                        self.blocks[x + f.offset_spec().0][y + f.offset_spec().1][z
                            + f.offset_spec().2],
                    ))),
            decreases 6 - i,
        {
            let side = all[i];
            proof {
                crate::util::lemma_flip(side);
                assert(Face::from_index_spec(i as int) == Some(side));
            }
            let d = side.offset();
            let nx = x as i64 + d.0;
            let ny = y as i64 + d.1;
            let nz = z as i64 + d.2;
            if 0 <= nx && nx < 32 && 0 <= ny && ny < 32 && 0 <= nz && nz < 32 {
                if !registry.is_opaque(self.blocks[nx as usize][ny as usize][nz as usize]) {
                    faces.insert(side);
                }
            }
            proof {
                assert forall|f: Face| f.index_spec() < i + 1 implies f.index_spec() < i || f
                    == side by {
                    crate::util::lemma_flip(f);
                }
            }
            i = i + 1;
        }
        faces
    }

    /// Works out which faces inside the chunk are visible: for every block, the
    /// faces behind which a block of this chunk lies that is not opaque. Faces
    /// that were known to be visible stay so.
    pub fn calculate_sides(&mut self, registry: &BlockRegistry)
        ensures
            *final(self).blocks == *old(self).blocks,
            forall|x: int, y: int, z: int|
                0 <= x < 32 && 0 <= y < 32 && 0 <= z < 32 ==> inner_faces_added(
                    *old(self).blocks,
                    *registry,
                    x,
                    y,
                    z,
                    old(self).sides[x][y][z],
                    #[trigger] final(self).sides[x][y][z],
                ),
    {
        let mut n: usize = 0;
        while n < 32768
            invariant
                n <= 32768,
                *self.blocks == *old(self).blocks,
                forall|x: int, y: int, z: int|
                    0 <= x < 32 && 0 <= y < 32 && 0 <= z < 32 && 1024 * x + 32 * y + z < n
                        ==> inner_faces_added(
                        *old(self).blocks,
                        *registry,
                        x,
                        y,
                        z,
                        old(self).sides[x][y][z],
                        #[trigger] self.sides[x][y][z],
                    ),
                forall|x: int, y: int, z: int|
                    0 <= x < 32 && 0 <= y < 32 && 0 <= z < 32 && 1024 * x + 32 * y + z >= n
                        ==> #[trigger] self.sides[x][y][z] == old(self).sides[x][y][z],
            decreases 32768 - n,
        {
            let x = n / 1024;
            let y = (n / 32) % 32;
            let z = n % 32;
            assert(1024 * x + 32 * y + z == n);
            let faces = self.inner_faces(registry, x, y, z);
            let ghost before = *self.sides;
            self.sides[x][y][z] = faces;
            proof {
                assert forall|a: int, b: int, c: int|
                    0 <= a < 32 && 0 <= b < 32 && 0 <= c < 32 && 1024 * a + 32 * b + c < n
                        + 1 implies inner_faces_added(
                    *old(self).blocks,
                    *registry,
                    a,
                    b,
                    c,
                    old(self).sides[a][b][c],
                    #[trigger] self.sides[a][b][c],
                ) by {
                    if a == x && b == y && c == z {
                    } else {
                        assert(self.sides[a][b][c] == before[a][b][c]);
                    }
                }
                assert forall|a: int, b: int, c: int|
                    0 <= a < 32 && 0 <= b < 32 && 0 <= c < 32 && 1024 * a + 32 * b + c >= n
                        + 1 implies #[trigger] self.sides[a][b][c] == old(self).sides[a][b][c] by {
                    assert(self.sides[a][b][c] == before[a][b][c]);
                }
            }
            n = n + 1;
        }
    }

    /// The outermost layer towards `face`: for each of its blocks whether one
    /// can see through it.
    pub fn open_boundary(&self, face: Face, registry: &BlockRegistry) -> (r: Box<OpenLayer>)
        ensures
            forall|u: int, v: int|
                0 <= u < 32 && 0 <= v < 32 ==> #[trigger] r[u][v] == !registry.opaque_spec(
                    {
                        let c = boundary_cell(face, u, v);
                        self.blocks[c.0][c.1][c.2]
                    },
                ),
    {
        let mut open: OpenLayer = [[false;32];32];
        let mut n: usize = 0;
        while n < 1024
            invariant
                n <= 1024,
                forall|u: int, v: int|
                    0 <= u < 32 && 0 <= v < 32 && 32 * u + v < n ==> #[trigger] open[u][v]
                        == !registry.opaque_spec(
                        {
                            let c = boundary_cell(face, u, v);
                            self.blocks[c.0][c.1][c.2]
                        },
                    ),
            decreases 1024 - n,
        {
            let u = n / 32;
            let v = n % 32;
            let c = boundary_coords(face, u, v);
            let ghost before = open;
            open[u][v] = !registry.is_opaque(self.blocks[c.0][c.1][c.2]);
            proof {
                assert forall|a: int, b: int|
                    0 <= a < 32 && 0 <= b < 32 && 32 * a + b < n + 1 implies #[trigger] open[a][b]
                    == !registry.opaque_spec(
                    {
                        let c = boundary_cell(face, a, b);
                        self.blocks[c.0][c.1][c.2]
                    },
                ) by {
                    if a == u && b == v {
                    } else {
                        assert(open[a][b] == before[a][b]);
                    }
                }
            }
            n = n + 1;
        }
        Box::new(open)
    }

    /// Takes in what the chunk behind `face` lets through: every block of the
    /// outermost layer towards `face` whose neighbour in the next chunk is open
    /// gets `face` added to its visible faces. Nothing else changes. Returns
    /// whether any neighbour was open.
    pub fn apply_boundary(&mut self, face: Face, open: &OpenLayer) -> (r: bool)
        ensures
            *final(self).blocks == *old(self).blocks,
            boundary_applied(*old(self).sides, *final(self).sides, face, *open),
            r == exists|u: int, v: int| 0 <= u < 32 && 0 <= v < 32 && #[trigger] open[u][v],
    {
        let mut any = false;
        let mut n: usize = 0;
        while n < 1024
            invariant
                n <= 1024,
                *self.blocks == *old(self).blocks,
                boundary_applied_upto(*old(self).sides, *self.sides, face, *open, n as int),
                any == exists|u: int, v: int|
                    0 <= u < 32 && 0 <= v < 32 && 32 * u + v < n && #[trigger] open[u][v],
            decreases 1024 - n,
        {
            let u = n / 32;
            let v = n % 32;
            let ghost any_before = any;
            if open[u][v] {
                let c = boundary_coords(face, u, v);
                let mut faces = self.sides[c.0][c.1][c.2];
                faces.insert(face);
                let ghost before = *self.sides;
                self.sides[c.0][c.1][c.2] = faces;
                any = true;
                proof {
                    assert(open[u as int][v as int]);
                    assert forall|x: int, y: int, z: int, g: Face|
                        0 <= x < 32 && 0 <= y < 32 && 0 <= z < 32 implies (
                    #[trigger] self.sides[x][y][z].has(g)) == (old(self).sides[x][y][z].has(g) || (g
                        == face && opened_upto(face, *open, x, y, z, n + 1))) by {
                        if x == c.0 && y == c.1 && z == c.2 {
                            assert(before[x][y][z].has(g) == (old(self).sides[x][y][z].has(g) || (g
                                == face && opened_upto(face, *open, x, y, z, n as int))));
                            if g == face {
                                assert(boundary_cell(face, u as int, v as int) == (x, y, z));
                            }
                        } else {
                            assert(self.sides[x][y][z] == before[x][y][z]);
                            assert(before[x][y][z].has(g) == (old(self).sides[x][y][z].has(g) || (g
                                == face && opened_upto(face, *open, x, y, z, n as int))));
                            if opened_upto(face, *open, x, y, z, n + 1) {
                                let (a, b) = choose|a: int, b: int|
                                    0 <= a < 32 && 0 <= b < 32 && 32 * a + b < n + 1
                                        && #[trigger] boundary_cell(face, a, b) == (x, y, z)
                                        && open[a][b];
                                assert(32 * a + b < n);
                            }
                        }
                    }
                }
            } else {
                proof {
                    assert forall|x: int, y: int, z: int|
                        0 <= x < 32 && 0 <= y < 32 && 0 <= z < 32 implies opened_upto(
                        face,
                        *open,
                        x,
                        y,
                        z,
                        n + 1,
                    ) == opened_upto(face, *open, x, y, z, n as int) by {
                        if opened_upto(face, *open, x, y, z, n + 1) {
                            let (a, b) = choose|a: int, b: int|
                                0 <= a < 32 && 0 <= b < 32 && 32 * a + b < n + 1
                                    && #[trigger] boundary_cell(face, a, b) == (x, y, z)
                                    && open[a][b];
                            assert(32 * a + b < n);
                        }
                    }
                    if exists|a: int, b: int|
                        0 <= a < 32 && 0 <= b < 32 && 32 * a + b < n + 1 && #[trigger] open[a][b] {
                        let (a, b) = choose|a: int, b: int|
                            0 <= a < 32 && 0 <= b < 32 && 32 * a + b < n + 1
                                && #[trigger] open[a][b];
                        assert(32 * a + b < n);
                    }
                }
            }
            n = n + 1;
        }
        any
    }
}

/// Whether one of the first `n` places of the layer towards `face`, counted
/// with `v` fastest, is the block `(x, y, z)` and has an open neighbour.
pub open spec fn opened_upto(face: Face, open: OpenLayer, x: int, y: int, z: int, n: int) -> bool {
    exists|u: int, v: int|
        0 <= u < 32 && 0 <= v < 32 && 32 * u + v < n && #[trigger] boundary_cell(face, u, v) == (
            x,
            y,
            z,
        ) && open[u][v]
}

/// Whether `after` is `before` with `face` added at the blocks of the first `n`
/// places of the layer towards `face` whose neighbour is open.
pub open spec fn boundary_applied_upto(
    before: ChunkSidesArray,
    after: ChunkSidesArray,
    face: Face,
    open: OpenLayer,
    n: int,
) -> bool {
    forall|x: int, y: int, z: int, g: Face|
        0 <= x < 32 && 0 <= y < 32 && 0 <= z < 32 ==> (#[trigger] after[x][y][z].has(g)) == (
        before[x][y][z].has(g) || (g == face && opened_upto(face, open, x, y, z, n)))
}

/// Whether `after` is `before` with `face` added at every block of the outermost
/// layer towards `face` whose neighbour in the next chunk is open.
pub open spec fn boundary_applied(
    before: ChunkSidesArray,
    after: ChunkSidesArray,
    face: Face,
    open: OpenLayer,
) -> bool {
    boundary_applied_upto(before, after, face, open, 1024)
}

/// A client chunk's state
#[derive(Clone, Copy, Debug, PartialEq, Eq, Structural)]
pub enum ChunkState {
    Unmeshed,
    Meshing,
    Meshed(MeshHandle),
}

/// How far the columns of one version of a chunk have arrived: the version,
/// and the columns received for it, column `(x, y)` as the number `32 * x + y`.
pub struct Epoch {
    pub version: u64,
    pub received: Set<int>,
}

/// What the delivery of column `column` at version `version` makes of an epoch.
/// A column of an older version is ignored. A column of a newer version begins
/// a new epoch, in which it is the only column received. A column of the
/// epoch's own version is received, once.
pub open spec fn deliver(e: Epoch, column: int, version: u64) -> Epoch {
    if version < e.version {
        e
    } else if version > e.version {
        Epoch { version, received: Set::empty().insert(column) }
    } else {
        Epoch { version, received: e.received.insert(column) }
    }
}

/// What the delivery of the set `columns` of empty columns at version `version`
/// makes of an epoch.
pub open spec fn deliver_info(e: Epoch, columns: Set<int>, version: u64) -> Epoch {
    if version < e.version {
        e
    } else if version > e.version {
        Epoch { version, received: columns }
    } else {
        Epoch { version, received: e.received.union(columns) }
    }
}

/// Whether the epoch names columns of a chunk only.
pub open spec fn epoch_wf(e: Epoch) -> bool {
    e.received.subset_of(vstd::set_lib::set_int_range(0, 1024))
}

/// Delivering a column twice is the same as delivering it once, and no delivery
/// makes an epoch count more than the 1024 columns of a chunk.
pub proof fn lemma_delivery_idempotent(e: Epoch, column: int, version: u64)
    requires
        epoch_wf(e),
        0 <= column < 1024,
    ensures
        deliver(deliver(e, column, version), column, version) == deliver(e, column, version),
        epoch_wf(deliver(e, column, version)),
        deliver(e, column, version).received.finite(),
        deliver(e, column, version).received.len() <= 1024,
{
    let once = deliver(e, column, version);
    let twice = deliver(once, column, version);
    assert(twice.received =~= once.received);
    vstd::set_lib::lemma_int_range(0, 1024);
    vstd::set_lib::lemma_len_subset(once.received, vstd::set_lib::set_int_range(0, 1024));
}

/// A column of the next version begins a new epoch: what was received for the
/// old version no longer counts, the new column counts as one, and a column of
/// the old version that comes late is not counted.
pub proof fn lemma_epoch_reset(e: Epoch, column: int, late: int)
    requires
        e.version < u64::MAX,
    ensures
        deliver(e, column, (e.version + 1) as u64).version == e.version + 1,
        deliver(e, column, (e.version + 1) as u64).received == Set::<int>::empty().insert(column),
        deliver(e, column, (e.version + 1) as u64).received.len() == 1,
        deliver(deliver(e, column, (e.version + 1) as u64), late, e.version) == deliver(
            e,
            column,
            (e.version + 1) as u64,
        ),
{
}

/// What became of a delivery.
#[derive(Clone, Copy, Debug, PartialEq, Eq, Structural)]
pub enum Delivery {
    /// The delivery was for an older version, or for a column outside the
    /// chunk, and changed nothing.
    Ignored,
    /// The delivery was taken in.
    Accepted,
    /// The delivery was taken in, and with it the chunk has all its columns.
    Completed,
}

/// Chunk information stored by the client
pub struct ChunkData {
    /// The chunk data itself
    chunk: Chunk,
    /// How many fragments of the current version are in the chunk
    fragments: usize,
    /// Current fragment version
    current: u64,
    /// What adjacent chunks have told this chunk what they let through.
    adj_chunks: Faces,
    /// The loaded bits
    chunk_info: ChunkInfo,
    /// The chunk's state
    state: ChunkState,
    /// Whether this chunk is hot, i.e. has been modified since last meshing
    hot: bool,
    /// Whether this chunk ever had all its columns
    settled: bool,
    /// The mesh that is shown for this chunk
    displayed: Option<MeshHandle>,
}

impl ChunkData {
    /// The blocks of the chunk.
    pub closed spec fn blocks_spec(&self) -> ChunkArray {
        *self.chunk.blocks
    }

    /// For each block the faces known to be visible.
    pub closed spec fn sides_spec(&self) -> ChunkSidesArray {
        *self.chunk.sides
    }

    /// The version whose columns are being received, and those received.
    pub closed spec fn epoch(&self) -> Epoch {
        Epoch { version: self.current, received: marked(self.chunk_info) }
    }

    /// Number of columns received for the current version.
    pub closed spec fn fragments_spec(&self) -> nat {
        self.fragments as nat
    }

    /// Whether the neighbour behind `f` has told this chunk what it lets through.
    pub closed spec fn adj_spec(&self, f: Face) -> bool {
        self.adj_chunks.has(f)
    }

    pub closed spec fn state_spec(&self) -> ChunkState {
        self.state
    }

    pub closed spec fn hot_spec(&self) -> bool {
        self.hot
    }

    /// Whether the chunk ever had all its columns.
    pub closed spec fn settled_spec(&self) -> bool {
        self.settled
    }

    /// The mesh that is shown for the chunk.
    pub closed spec fn displayed_spec(&self) -> Option<MeshHandle> {
        self.displayed
    }

    /// The count of received columns is the number of columns received.
    pub closed spec fn wf(&self) -> bool {
        &&& self.fragments == marked(self.chunk_info).len()
        &&& self.adj_chunks.wf()
    }

    /// Whether the chunk has all its columns.
    pub open spec fn complete_spec(&self) -> bool {
        self.fragments_spec() == 1024
    }

    /// What follows from [`ChunkData::wf`].
    pub proof fn lemma_wf(&self)
        requires
            self.wf(),
        ensures
            epoch_wf(self.epoch()),
            self.epoch().received.finite(),
            self.fragments_spec() == self.epoch().received.len(),
            self.fragments_spec() <= 1024,
            self.complete_spec() <==> (forall|i: int|
                0 <= i < 1024 ==> self.epoch().received.contains(i)),
    {
        lemma_marked(self.chunk_info);
    }

    /// Whether `other` differs from this in the blocks, the epoch, and the hot
    /// and settled marks at most.
    pub open spec fn same_mesh_state(&self, other: ChunkData) -> bool {
        &&& other.sides_spec() == self.sides_spec()
        &&& forall|f: Face| other.adj_spec(f) == self.adj_spec(f)
        &&& other.state_spec() == self.state_spec()
        &&& other.displayed_spec() == self.displayed_spec()
    }

    /// A chunk of which nothing is known yet: all air, version 0, no column
    /// received.
    pub fn new() -> (r: ChunkData)
        ensures
            r.wf(),
            r.is_fresh(),
    {
        let r = ChunkData {
            chunk: Chunk::new(),
            fragments: 0,
            current: 0,
            adj_chunks: Faces::new(),
            chunk_info: info_empty(),
            state: ChunkState::Unmeshed,
            hot: false,
            settled: false,
            displayed: None,
        };
        r
    }

    /// Whether nothing is known of the chunk yet.
    pub open spec fn is_fresh(&self) -> bool {
        &&& crate::chunk::array_empty(self.blocks_spec())
        &&& forall|x: int, y: int, z: int, f: Face|
            0 <= x < 32 && 0 <= y < 32 && 0 <= z < 32 ==> !(
            #[trigger] self.sides_spec()[x][y][z].has(f))
        &&& self.epoch() == (Epoch { version: 0, received: Set::empty() })
        &&& self.fragments_spec() == 0
        &&& forall|f: Face| !self.adj_spec(f)
        &&& self.state_spec() == ChunkState::Unmeshed
        &&& !self.hot_spec()
        &&& !self.settled_spec()
        &&& self.displayed_spec() is None
    }

    /// The chunk itself.
    pub fn chunk(&self) -> (r: &Chunk)
        ensures
            *r.blocks == self.blocks_spec(),
            *r.sides == self.sides_spec(),
    {
        &self.chunk
    }

    /// How many columns of the current version have been received.
    pub fn fragments(&self) -> (r: usize)
        ensures
            r == self.fragments_spec(),
    {
        self.fragments
    }

    /// The version whose columns are being received.
    pub fn current(&self) -> (r: u64)
        ensures
            r == self.epoch().version,
    {
        self.current
    }

    pub fn state(&self) -> (r: ChunkState)
        ensures
            r == self.state_spec(),
    {
        self.state
    }

    pub fn is_hot(&self) -> (r: bool)
        ensures
            r == self.hot_spec(),
    {
        self.hot
    }

    /// The mesh that is shown for the chunk.
    pub fn displayed(&self) -> (r: Option<MeshHandle>)
        ensures
            r == self.displayed_spec(),
    {
        self.displayed
    }

    /// Which neighbours have told this chunk what they let through.
    pub fn adj_chunks(&self) -> (r: Faces)
        ensures
            r.wf(),
            forall|f: Face| r.has(f) == self.adj_spec(f),
    {
        proof {
            use_type_invariant(&self.adj_chunks);
        }
        self.adj_chunks
    }

    /// Whether every column of the current version has been received.
    pub fn is_complete(&self) -> (r: bool)
        ensures
            r == self.complete_spec(),
    {
        self.fragments == 1024
    }

    /// Whether the column `(x, y)` of the current version has been received.
    pub fn has_column(&self, fpos: FragmentPos) -> (r: bool)
        ensures
            r == (fpos.wf() && self.epoch().received.contains(fpos.index_spec())),
    {
        if fpos.x < 32 && fpos.y < 32 {
            info_get(&self.chunk_info, fpos.x, fpos.y)
        } else {
            false
        }
    }

    /// Begins the epoch of `version` where `version` is newer than the current
    /// one: nothing counts as received any more.
    fn enter_epoch(&mut self, version: u64)
        requires
            old(self).wf(),
            version >= old(self).current,
        ensures
            final(self).wf(),
            final(self).current == version,
            final(self).chunk == old(self).chunk,
            final(self).adj_chunks == old(self).adj_chunks,
            final(self).state == old(self).state,
            final(self).hot == old(self).hot,
            final(self).settled == old(self).settled,
            final(self).displayed == old(self).displayed,
            marked(final(self).chunk_info) == (if version > old(self).current {
                Set::<int>::empty()
            } else {
                marked(old(self).chunk_info)
            }),
    {
        if version > self.current {
            self.chunk_info = info_empty();
            self.fragments = 0;
            self.current = version;
        }
    }

    /// Takes in column `fpos` of the chunk at version `version`.
    pub fn on_fragment(&mut self, fpos: FragmentPos, frag: &ChunkFragment, version: u64) -> (r:
        Delivery)
        requires
            old(self).wf(),
        ensures
            final(self).wf(),
            fragment_delivered(*old(self), *final(self), fpos, *frag, version, r),
    {
        if fpos.x >= 32 || fpos.y >= 32 || version < self.current {
            return Delivery::Ignored;
        }
        let x = fpos.x;
        let y = fpos.y;
        let was_complete = self.fragments == 1024 && version == self.current;
        self.enter_epoch(version);
        proof {
            lemma_marked(self.chunk_info);
        }
        let changed = !fragments_equal(&self.chunk.blocks[x][y], frag);
        self.chunk.blocks[x][y] = *frag;
        if !info_get(&self.chunk_info, x, y) {
            info_set(&mut self.chunk_info, x, y);
            self.fragments = self.fragments + 1;
        } else {
            assert(marked(self.chunk_info).insert(32 * x + y) =~= marked(self.chunk_info));
        }
        if self.settled && changed {
            self.hot = true;
        }
        let complete = self.fragments == 1024;
        if complete {
            self.settled = true;
        }
        if complete && !was_complete {
            Delivery::Completed
        } else {
            Delivery::Accepted
        }
    }

    /// Takes in the set of columns that hold nothing but air at version
    /// `version`: each of them that was not received yet is received as a column
    /// of air.
    pub fn on_info(&mut self, bitmap: &ChunkInfo, version: u64) -> (r: Delivery)
        requires
            old(self).wf(),
        ensures
            final(self).wf(),
            info_delivered(*old(self), *final(self), *bitmap, version, r),
    {
        if version < self.current {
            return Delivery::Ignored;
        }
        let was_complete = self.fragments == 1024 && version == self.current;
        self.enter_epoch(version);
        let ghost start = *self;
        let mut changed = false;
        let mut i: usize = 0;
        proof {
            assert(marked_below(*bitmap, 0) =~= Set::<int>::empty());
            assert(marked(self.chunk_info) =~= marked(start.chunk_info).union(
                marked_below(*bitmap, 0),
            ));
        }
        while i < 1024
            invariant
                i <= 1024,
                self.wf(),
                self.current == version,
                self.chunk.sides == start.chunk.sides,
                self.adj_chunks == start.adj_chunks,
                self.state == start.state,
                self.hot == start.hot,
                self.settled == start.settled,
                self.displayed == start.displayed,
                marked(self.chunk_info) == marked(start.chunk_info).union(
                    marked_below(*bitmap, i as int),
                ),
                forall|k: int|
                    0 <= k < 1024 ==> #[trigger] self.chunk.blocks[k / 32][k % 32]@ == (if k < i
                        && newly_marked(start.epoch(), *bitmap, k) {
                        Seq::new(32, |z: int| BlockId(0))
                    } else {
                        start.chunk.blocks[k / 32][k % 32]@
                    }),
                changed == exists|k: int|
                    0 <= k < i && #[trigger] newly_marked(start.epoch(), *bitmap, k)
                        && !crate::chunk::column_empty(start.chunk.blocks[k / 32][k % 32]),
            decreases 1024 - i,
        {
            let x = i / 32;
            let y = i % 32;
            let ghost before = *self;
            let ghost changed_before = changed;
            if info_get(bitmap, x, y) && !info_get(&self.chunk_info, x, y) {
                proof {
                    lemma_marked(self.chunk_info);
                    assert(newly_marked(start.epoch(), *bitmap, i as int));
                    assert(self.chunk.blocks[i as int / 32][i as int % 32]@
                        == start.chunk.blocks[i as int / 32][i as int % 32]@);
                }
                if !crate::chunk::fragment_is_empty(&self.chunk.blocks[x][y]) {
                    changed = true;
                    proof {
                        assert(!crate::chunk::column_empty(start.chunk.blocks[x as int][y as int]))
                            by {
                            if crate::chunk::column_empty(start.chunk.blocks[x as int][y as int]) {
                                assert forall|z: int| 0 <= z < 32
                                    implies #[trigger] self.chunk.blocks[x as int][y as int][z]
                                    == BlockId(0) by {
                                    assert(self.chunk.blocks[x as int][y as int]@[z]
                                        == start.chunk.blocks[x as int][y as int]@[z]);
                                }
                            }
                        }
                    }
                }
                self.chunk.blocks[x][y] = [BlockId(0);32];
                info_set(&mut self.chunk_info, x, y);
                self.fragments = self.fragments + 1;
                proof {
                    assert(self.chunk.blocks[x as int][y as int]@ =~= Seq::new(
                        32,
                        |z: int| BlockId(0),
                    ));
                }
            } else {
                proof {
                    assert(!newly_marked(start.epoch(), *bitmap, i as int));
                }
            }
            proof {
                assert(marked(self.chunk_info) =~= marked(start.chunk_info).union(
                    marked_below(*bitmap, i + 1),
                )) by {
                    assert(marked_below(*bitmap, i + 1) =~= (if marked(*bitmap).contains(i as int) {
                        marked_below(*bitmap, i as int).insert(i as int)
                    } else {
                        marked_below(*bitmap, i as int)
                    }));
                    assert(32 * x + y == i);
                }
                assert forall|k: int| 0 <= k < 1024 implies #[trigger] self.chunk.blocks[k / 32][k
                    % 32]@ == (if k < i + 1 && newly_marked(start.epoch(), *bitmap, k) {
                    Seq::new(32, |z: int| BlockId(0))
                } else {
                    start.chunk.blocks[k / 32][k % 32]@
                }) by {
                    if k != i {
                        assert(k / 32 != x || k % 32 != y);
                        assert(self.chunk.blocks[k / 32][k % 32] == before.chunk.blocks[k / 32][k
                            % 32]);
                    }
                }
                if changed_before {
                    let k = choose|k: int|
                        0 <= k < i && #[trigger] newly_marked(start.epoch(), *bitmap, k)
                            && !crate::chunk::column_empty(start.chunk.blocks[k / 32][k % 32]);
                    assert(0 <= k < i + 1);
                }
                if exists|k: int|
                    0 <= k < i + 1 && #[trigger] newly_marked(start.epoch(), *bitmap, k)
                        && !crate::chunk::column_empty(start.chunk.blocks[k / 32][k % 32]) {
                    let k = choose|k: int|
                        0 <= k < i + 1 && #[trigger] newly_marked(start.epoch(), *bitmap, k)
                            && !crate::chunk::column_empty(start.chunk.blocks[k / 32][k % 32]);
                    if k < i {
                        assert(changed_before);
                    }
                }
            }
            i = i + 1;
        }
        proof {
            assert(marked_below(*bitmap, 1024) =~= marked(*bitmap));
            assert(start.epoch() == epoch_entered(old(self).epoch(), version));
            assert(self.epoch().received =~= deliver_info(
                old(self).epoch(),
                marked(*bitmap),
                version,
            ).received);
            assert(start.chunk.blocks == old(self).chunk.blocks);
        }
        if self.settled && changed {
            self.hot = true;
        }
        let complete = self.fragments == 1024;
        if complete {
            self.settled = true;
        }
        if complete && !was_complete {
            Delivery::Completed
        } else {
            Delivery::Accepted
        }
    }
}

/// Whether two columns hold the same blocks.
pub fn fragments_equal(a: &ChunkFragment, b: &ChunkFragment) -> (r: bool)
    ensures
        r == (a@ == b@),
{
    let mut z: usize = 0;
    while z < 32
        invariant
            z <= 32,
            forall|k: int| 0 <= k < z ==> a[k] == b[k],
        decreases 32 - z,
    {
        if a[z] != b[z] {
            return false;
        }
        z = z + 1;
    }
    assert(a@ =~= b@);
    true
}

/// The columns below `n` that are marked in `bitmap`.
pub open spec fn marked_below(bitmap: ChunkInfo, n: int) -> Set<int> {
    Set::new(|k: int| 0 <= k < n && marked(bitmap).contains(k))
}

/// Whether the column `k` is marked in `bitmap` and was not received yet in the
/// epoch `e`.
pub open spec fn newly_marked(e: Epoch, bitmap: ChunkInfo, k: int) -> bool {
    marked(bitmap).contains(k) && !e.received.contains(k)
}

/// The epoch that a delivery at `version` finds: the current one, or an empty
/// one of `version` where that is newer.
pub open spec fn epoch_entered(e: Epoch, version: u64) -> Epoch {
    if version > e.version {
        Epoch { version, received: Set::empty() }
    } else {
        e
    }
}

/// Whether `after` is what the delivery of column `fpos` with the blocks `frag`
/// at version `version` makes of `before`, and `r` is what became of the
/// delivery.
pub open spec fn fragment_delivered(
    before: ChunkData,
    after: ChunkData,
    fpos: FragmentPos,
    frag: ChunkFragment,
    version: u64,
    r: Delivery,
) -> bool {
    if !fpos.wf() || version < before.epoch().version {
        after == before && r == Delivery::Ignored
    } else {
        let x = fpos.x as int;
        let y = fpos.y as int;
        &&& after.epoch() == deliver(before.epoch(), fpos.index_spec(), version)
        &&& after.fragments_spec() == after.epoch().received.len()
        &&& after.blocks_spec()[x][y] == frag
        &&& forall|a: int, b: int|
            0 <= a < 32 && 0 <= b < 32 && !(a == x && b == y)
                ==> #[trigger] after.blocks_spec()[a][b]
                == before.blocks_spec()[a][b]
        &&& before.same_mesh_state(after)
        &&& after.hot_spec() == (before.hot_spec() || (before.settled_spec()
            && before.blocks_spec()[x][y]@ != frag@))
        &&& after.settled_spec() == (before.settled_spec() || after.complete_spec())
        &&& r == (if after.complete_spec() && !(before.complete_spec() && version
            == before.epoch().version) {
            Delivery::Completed
        } else {
            Delivery::Accepted
        })
    }
}

/// Whether `after` is what the delivery of the set `bitmap` of empty columns at
/// version `version` makes of `before`, and `r` is what became of the delivery.
pub open spec fn info_delivered(
    before: ChunkData,
    after: ChunkData,
    bitmap: ChunkInfo,
    version: u64,
    r: Delivery,
) -> bool {
    if version < before.epoch().version {
        after == before && r == Delivery::Ignored
    } else {
        let found = epoch_entered(before.epoch(), version);
        &&& after.epoch() == deliver_info(before.epoch(), marked(bitmap), version)
        &&& after.fragments_spec() == after.epoch().received.len()
        &&& forall|k: int|
            0 <= k < 1024 ==> #[trigger] after.blocks_spec()[k / 32][k % 32]@ == (if newly_marked(
                found,
                bitmap,
                k,
            ) {
                Seq::new(32, |z: int| BlockId(0))
            } else {
                before.blocks_spec()[k / 32][k % 32]@
            })
        &&& before.same_mesh_state(after)
        &&& after.hot_spec() == (before.hot_spec() || (before.settled_spec() && exists|k: int|
            0 <= k < 1024 && #[trigger] newly_marked(found, bitmap, k)
                && !crate::chunk::column_empty(before.blocks_spec()[k / 32][k % 32])))
        &&& after.settled_spec() == (before.settled_spec() || after.complete_spec())
        &&& r == (if after.complete_spec() && !(before.complete_spec() && version
            == before.epoch().version) {
            Delivery::Completed
        } else {
            Delivery::Accepted
        })
    }
}

/// Whether `open` says of each block of the outermost layer of `blocks` towards
/// `face` whether one can see through it.
pub open spec fn layer_of(
    open: OpenLayer,
    blocks: ChunkArray,
    face: Face,
    registry: BlockRegistry,
) -> bool {
    forall|u: int, v: int|
        0 <= u < 32 && 0 <= v < 32 ==> #[trigger] open[u][v] == !registry.opaque_spec(
            {
                let c = boundary_cell(face, u, v);
                blocks[c.0][c.1][c.2]
            },
        )
}

/// Whether `after` is what a chunk makes of `before` when the neighbour behind
/// its face `face` tells it, for the first time, what it lets through. `open` is
/// the neighbour's layer that touches the chunk. The chunk notes that the
/// neighbour has spoken, and every block of its layer towards `face` that
/// touches an open block of the neighbour gets `face` added to its visible
/// faces. Where the neighbour was changed and lets something through, the chunk
/// is hot. A neighbour that has spoken before changes nothing.
pub open spec fn contributed(
    before: ChunkData,
    after: ChunkData,
    face: Face,
    open: OpenLayer,
    modified: bool,
) -> bool {
    if before.adj_spec(face) {
        after == before
    } else {
        &&& forall|g: Face| after.adj_spec(g) == (before.adj_spec(g) || g == face)
        &&& boundary_applied(before.sides_spec(), after.sides_spec(), face, open)
        &&& after.blocks_spec() == before.blocks_spec()
        &&& after.epoch() == before.epoch()
        &&& after.fragments_spec() == before.fragments_spec()
        &&& after.state_spec() == before.state_spec()
        &&& after.displayed_spec() == before.displayed_spec()
        &&& after.settled_spec() == before.settled_spec()
        &&& after.hot_spec() == (before.hot_spec() || (modified && exists|u: int, v: int|
            0 <= u < 32 && 0 <= v < 32 && #[trigger] open[u][v]))
    }
}

impl ChunkData {
    /// Whether the chunk is due for meshing: it has all its columns, all six
    /// neighbours have told it what they let through, and it has no mesh yet or
    /// was changed since its mesh was made.
    pub open spec fn ready_spec(&self) -> bool {
        &&& self.complete_spec()
        &&& forall|f: Face| self.adj_spec(f)
        &&& (self.state_spec() == ChunkState::Unmeshed || (self.state_spec() is Meshed
            && self.hot_spec()))
    }

    /// A chunk of which nothing is known is not due for meshing.
    pub proof fn lemma_fresh_not_ready(&self)
        requires
            self.is_fresh(),
        ensures
            !self.ready_spec(),
    {
    }

    /// Whether the chunk is due for meshing.
    pub fn is_ready(&self) -> (r: bool)
        ensures
            r == self.ready_spec(),
    {
        let due = match self.state {
            ChunkState::Unmeshed => true,
            ChunkState::Meshing => false,
            ChunkState::Meshed(_) => self.hot,
        };
        let all = self.adj_chunks.is_all();
        proof {
            if all {
                assert forall|f: Face| self.adj_spec(f) by {
                    assert(self.adj_chunks.has(f));
                }
            }
            if forall|f: Face| self.adj_spec(f) {
                assert forall|f: Face| self.adj_chunks.has(f) by {
                    assert(self.adj_spec(f));
                }
            }
        }
        self.fragments == 1024 && all && due
    }

    /// Whether the neighbour behind `face` has told this chunk what it lets
    /// through.
    pub fn has_adjacent(&self, face: Face) -> (r: bool)
        ensures
            r == self.adj_spec(face),
    {
        self.adj_chunks.contains(face)
    }

    /// Takes in what the neighbour behind `face` lets through.
    pub fn contribute(&mut self, face: Face, open: &OpenLayer, modified: bool)
        requires
            old(self).wf(),
        ensures
            final(self).wf(),
            contributed(*old(self), *final(self), face, *open, modified),
    {
        if self.adj_chunks.contains(face) {
            return ;
        }
        let mut adj = self.adj_chunks;
        adj.insert(face);
        self.adj_chunks = adj;
        let any = self.chunk.apply_boundary(face, open);
        if modified && any {
            // Needs a re-rendering
            self.hot = true;
        }
    }

    /// Hands the chunk to meshing: a copy of the chunk is returned, the chunk
    /// counts as being meshed and as not changed since. The mesh that is shown
    /// stays until the new one comes.
    pub fn start_meshing(&mut self) -> (r: Chunk)
        requires
            old(self).wf(),
        ensures
            final(self).wf(),
            meshing_started(*old(self), *final(self)),
            *r.blocks == old(self).blocks_spec(),
            *r.sides == old(self).sides_spec(),
    {
        self.state = ChunkState::Meshing;
        self.hot = false;
        self.chunk.copy()
    }

    /// Takes in the mesh that was made of the chunk: it is the one shown from
    /// now on.
    pub fn on_mesh(&mut self, handle: MeshHandle)
        requires
            old(self).wf(),
        ensures
            final(self).wf(),
            final(self).state_spec() == ChunkState::Meshed(handle),
            final(self).displayed_spec() == Some(handle),
            final(self).blocks_spec() == old(self).blocks_spec(),
            final(self).sides_spec() == old(self).sides_spec(),
            final(self).epoch() == old(self).epoch(),
            final(self).fragments_spec() == old(self).fragments_spec(),
            forall|f: Face| final(self).adj_spec(f) == old(self).adj_spec(f),
            final(self).hot_spec() == old(self).hot_spec(),
            final(self).settled_spec() == old(self).settled_spec(),
    {
        self.state = ChunkState::Meshed(handle);
        self.displayed = Some(handle);
    }
}

/// Whether `after` is `before` handed to meshing.
pub open spec fn meshing_started(before: ChunkData, after: ChunkData) -> bool {
    &&& after.state_spec() == ChunkState::Meshing
    &&& !after.hot_spec()
    &&& after.displayed_spec() == before.displayed_spec()
    &&& after.blocks_spec() == before.blocks_spec()
    &&& after.sides_spec() == before.sides_spec()
    &&& after.epoch() == before.epoch()
    &&& after.fragments_spec() == before.fragments_spec()
    &&& forall|f: Face| after.adj_spec(f) == before.adj_spec(f)
    &&& after.settled_spec() == before.settled_spec()
}

} // verus!
