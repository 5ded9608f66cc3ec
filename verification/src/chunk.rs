//! Chunks: 32x32x32 grids of blocks with a version counter.
//!
//! A freshly generated chunk has version 0. Every accepted edit adds one to the
//! version, so a reader that holds version `v` of a chunk needs the chunk again
//! exactly when the chunk has moved past `v`.

use crate::block::BlockId;
use crate::lazy_container::Indexed;
use crate::pos::{InnerCoords, InnerPos};
use crate::util::Face;
use vstd::prelude::*;
use vstd::std_specs::convert::FromSpecImpl;

verus! {

pub type BlockData = BlockId;

/// One column of a chunk: the 32 blocks that share `x` and `y`.
pub type ChunkFragment = [BlockData; 32];

/// The blocks of a chunk, addressed `[x][y][z]`.
pub type ChunkArray = [[ChunkFragment; 32]; 32];

/// Whether a column holds nothing but air.
pub open spec fn column_empty(col: ChunkFragment) -> bool {
    forall|z: int| 0 <= z < 32 ==> #[trigger] col[z] == BlockId(0)
}

/// Whether a grid holds nothing but air.
pub open spec fn array_empty(a: ChunkArray) -> bool {
    forall|x: int, y: int| 0 <= x < 32 && 0 <= y < 32 ==> column_empty(#[trigger] a[x][y])
}

/// Whether two grids hold the same blocks everywhere but at `(x, y, z)`.
pub open spec fn same_but_at(a: ChunkArray, b: ChunkArray, x: int, y: int, z: int) -> bool {
    forall|i: int, j: int, k: int|
        0 <= i < 32 && 0 <= j < 32 && 0 <= k < 32 && !(i == x && j == y && k == z)
            ==> #[trigger] a[i][j][k] == b[i][j][k]
}

/// A grid of air.
pub fn empty_array() -> (a: Box<ChunkArray>)
    ensures
        array_empty(*a),
{
    Box::new([[[BlockId(0);32];32];32])
}

/// Whether a column holds nothing but air.
pub fn fragment_is_empty(col: &ChunkFragment) -> (r: bool)
    ensures
        r == column_empty(*col),
{
    let mut z: usize = 0;
    while z < 32
        invariant
            z <= 32,
            forall|k: int| 0 <= k < z ==> #[trigger] col[k] == BlockId(0),
        decreases 32 - z,
    {
        if col[z] != BlockId(0) {
            return false;
        }
        z = z + 1;
    }
    true
}

/// Whether a grid holds nothing but air.
pub fn array_is_empty(a: &ChunkArray) -> (r: bool)
    ensures
        r == array_empty(*a),
{
    let mut x: usize = 0;
    while x < 32
        invariant
            x <= 32,
            forall|i: int, j: int| 0 <= i < x && 0 <= j < 32 ==> column_empty(#[trigger] a[i][j]),
        decreases 32 - x,
    {
        let mut y: usize = 0;
        while y < 32
            invariant
                x < 32,
                y <= 32,
                forall|i: int, j: int|
                    0 <= i < x && 0 <= j < 32 ==> column_empty(#[trigger] a[i][j]),
                forall|j: int| 0 <= j < y ==> column_empty(#[trigger] a[x as int][j]),
            decreases 32 - y,
        {
            if !fragment_is_empty(&a[x][y]) {
                return false;
            }
            y = y + 1;
        }
        x = x + 1;
    }
    true
}

/// A face of a block as the simulation sees it; `This` stands for the block
/// itself.
#[derive(Clone, Copy, Debug, PartialEq, Eq, Structural)]
pub enum SimFace {
    Back,
    Front,
    Right,
    Left,
    Top,
    Bottom,
    This,
}

impl SimFace {
    pub open spec fn of_face(face: Face) -> SimFace {
        match face {
            Face::Back => SimFace::Back,
            Face::Front => SimFace::Front,
            Face::Right => SimFace::Right,
            Face::Left => SimFace::Left,
            Face::Top => SimFace::Top,
            Face::Bottom => SimFace::Bottom,
        }
    }

    /// Position in the order of declaration.
    pub open spec fn index_spec(self) -> int {
        match self {
            SimFace::Back => 0,
            SimFace::Front => 1,
            SimFace::Right => 2,
            SimFace::Left => 3,
            SimFace::Top => 4,
            SimFace::Bottom => 5,
            SimFace::This => 6,
        }
    }

    pub fn index(self) -> (r: usize)
        ensures
            r == self.index_spec(),
            r < 7,
    {
        match self {
            SimFace::Back => 0,
            SimFace::Front => 1,
            SimFace::Right => 2,
            SimFace::Left => 3,
            SimFace::Top => 4,
            SimFace::Bottom => 5,
            SimFace::This => 6,
        }
    }
}

impl From<Face> for SimFace {
    fn from(face: Face) -> (r: SimFace) {
        match face {
            Face::Back => SimFace::Back,
            Face::Front => SimFace::Front,
            Face::Right => SimFace::Right,
            Face::Left => SimFace::Left,
            Face::Top => SimFace::Top,
            Face::Bottom => SimFace::Bottom,
        }
    }
}

impl FromSpecImpl<Face> for SimFace {
    open spec fn obeys_from_spec() -> bool {
        true
    }

    open spec fn from_spec(face: Face) -> SimFace {
        SimFace::of_face(face)
    }
}

/// Which faces of one block are simulated.
#[derive(Clone, Copy, Debug)]
pub struct SimFaces {
    pub members: [bool; 7],
}

impl SimFaces {
    pub open spec fn has(self, f: SimFace) -> bool {
        self.members[f.index_spec()]
    }

    /// No face.
    pub fn empty() -> (r: SimFaces)
        ensures
            forall|f: SimFace| !r.has(f),
    {
        SimFaces { members: [false;7] }
    }

    pub fn contains(&self, f: SimFace) -> (r: bool)
        ensures
            r == self.has(f),
    {
        self.members[f.index()]
    }

    /// Adds `f`; the other members stay.
    pub fn insert(&mut self, f: SimFace)
        ensures
            forall|g: SimFace| final(self).has(g) == (old(self).has(g) || g == f),
    {
        self.members[f.index()] = true;
    }
}

/// For each block of a chunk, the faces that are simulated.
#[derive(Clone, Debug)]
pub struct ChunkSimArray(pub [[[SimFaces; 32]; 32]; 32]);

impl ChunkSimArray {
    /// The faces simulated at `(x, y, z)`.
    pub open spec fn at(&self, x: int, y: int, z: int) -> SimFaces {
        self.0[x][y][z]
    }

    /// Whether no face of any block is simulated.
    pub open spec fn is_blank(&self) -> bool {
        forall|x: int, y: int, z: int, f: SimFace|
            0 <= x < 32 && 0 <= y < 32 && 0 <= z < 32 ==> !(#[trigger] self.at(x, y, z).has(f))
    }

    /// Get an empty ChunkSimArray (where no faces of any block are simulated)
    pub fn empty() -> (r: ChunkSimArray)
        ensures
            r.is_blank(),
    {
        ChunkSimArray([[[SimFaces::empty();32];32];32])
    }

    /// Set this ChunkSimArray to empty
    pub fn blank(&mut self)
        ensures
            final(self).is_blank(),
    {
        *self = Self::empty()
    }

    /// The simulated faces of the block at `pos`.
    pub fn get<T: InnerPos>(&self, pos: &T) -> (r: SimFaces)
        ensures
            r == self.at(pos.x_spec(), pos.y_spec(), pos.z_spec()),
    {
        self.0[pos.x()][pos.y()][pos.z()]
    }

    /// Marks face `f` of the block at `pos` as simulated. Nothing else changes.
    pub fn insert<T: InnerPos>(&mut self, pos: &T, f: SimFace)
        ensures
            forall|g: SimFace|
                final(self).at(pos.x_spec(), pos.y_spec(), pos.z_spec()).has(g) == (old(self).at(
                    pos.x_spec(),
                    pos.y_spec(),
                    pos.z_spec(),
                ).has(g) || g == f),
            forall|i: int, j: int, k: int|
                0 <= i < 32 && 0 <= j < 32 && 0 <= k < 32 && !(i == pos.x_spec() && j
                    == pos.y_spec() && k == pos.z_spec()) ==> #[trigger] final(self).at(i, j, k)
                    == old(self).at(i, j, k),
    {
        let x = pos.x();
        let y = pos.y();
        let z = pos.z();
        let mut faces = self.0[x][y][z];
        faces.insert(f);
        self.0[x][y][z] = faces;
    }
}

impl Indexed<InnerCoords> for ChunkSimArray {
    type Output = SimFaces;

    open spec fn at_spec(&self, idx: &InnerCoords) -> SimFaces {
        if idx.inv() {
            self.at(idx.cx(), idx.cy(), idx.cz())
        } else {
            arbitrary()
        }
    }

    /// The simulated faces of the block at `idx`.
    fn at(&self, idx: &InnerCoords) -> (r: &SimFaces) {
        proof {
            use_type_invariant(idx);
        }
        &self.0[idx.x()][idx.y()][idx.z()]
    }

    /// The simulated faces of the block at `idx`, to be changed in place.
    fn at_mut(&mut self, idx: &InnerCoords) -> (r: &mut SimFaces) {
        proof {
            use_type_invariant(idx);
            crate::pos::lemma_inner_coords_bounds(*idx);
            assert forall|q: InnerCoords| #[trigger] q.inv() implies 0 <= q.cx() < 32 && 0
                <= q.cy() < 32 && 0 <= q.cz() < 32 && (q != *idx ==> (q.cx(), q.cy(), q.cz()) != (
                idx.cx(),
                idx.cy(),
                idx.cz(),
            )) by {
                crate::pos::lemma_inner_coords_bounds(q);
                if q.cx() == idx.cx() && q.cy() == idx.cy() && q.cz() == idx.cz() {
                    crate::pos::lemma_inner_coords_equal(q, *idx);
                }
            }
        }
        &mut self.0[idx.x()][idx.y()][idx.z()]
    }
}

/// The contents of a chunk: its blocks and its version.
#[derive(Clone, Debug)]
pub struct ChunkContents(pub Box<ChunkArray>, pub u64);

impl ChunkContents {
    /// The planes of the chunk, one for each `x`, to iterate over.
    pub fn iter(&self) -> (r: &[[ChunkFragment; 32]; 32])
        ensures
            *r == *self.0,
    {
        &*self.0
    }

    /// What version is this chunk (version 0 is freshly generated)
    pub fn get_version(&self) -> (r: u64)
        ensures
            r == self.1,
    {
        self.1
    }
}

/// A server-side chunk
pub struct Chunk {
    /// An array containing the blocks of this chunk
    blocks: Box<ChunkArray>,
    sides: Box<ChunkSimArray>,
    /// The version number of this chunk
    version: u64,
}

impl Chunk {
    /// The blocks of the chunk.
    pub closed spec fn blocks_spec(&self) -> ChunkArray {
        *self.blocks
    }

    /// The version of the chunk.
    pub closed spec fn version_spec(&self) -> u64 {
        self.version
    }

    /// The simulated faces of the chunk.
    pub closed spec fn sides_spec(&self) -> ChunkSimArray {
        *self.sides
    }

    /// The planes of the chunk, one for each `x`, to iterate over.
    pub fn slices(&self) -> (r: &[[ChunkFragment; 32]; 32])
        ensures
            *r == self.blocks_spec(),
    {
        &*self.blocks
    }

    /// Get access to the sides array of this chunk
    pub fn sides(&self) -> (r: &ChunkSimArray)
        ensures
            *r == self.sides_spec(),
    {
        &*self.sides
    }

    /// What version is this chunk (version 0 is freshly generated)
    pub fn get_version(&self) -> (r: u64)
        ensures
            r == self.version_spec(),
    {
        self.version
    }

    /// Was this chunk modified since it was generated
    pub fn is_modified(&self) -> (r: bool)
        ensures
            r == (self.version_spec() != 0),
    {
        self.get_version() != 0
    }

    /// Clone this chunk's contents
    pub fn clone_contents(&self) -> (r: ChunkContents)
        ensures
            *r.0 == self.blocks_spec(),
            r.1 == self.version_spec(),
    {
        ChunkContents(Box::new(*self.blocks), self.version)
    }

    /// Move this chunk's contents out
    pub fn contents(self) -> (r: ChunkContents)
        ensures
            *r.0 == self.blocks_spec(),
            r.1 == self.version_spec(),
    {
        ChunkContents(self.blocks, self.version)
    }

    /// Set the block at `pos` to `block`. The edit counts: the version goes up
    /// by one. No other block changes.
    pub fn set<T: InnerPos>(&mut self, block: BlockData, pos: T)
        requires
            old(self).version_spec() < u64::MAX,
        ensures
            final(self).version_spec() == old(self).version_spec() + 1,
            final(self).blocks_spec()[pos.x_spec()][pos.y_spec()][pos.z_spec()] == block,
            same_but_at(
                final(self).blocks_spec(),
                old(self).blocks_spec(),
                pos.x_spec(),
                pos.y_spec(),
                pos.z_spec(),
            ),
            final(self).sides_spec() == old(self).sides_spec(),
    {
        let x = pos.x();
        let y = pos.y();
        let z = pos.z();
        self.blocks[x][y][z] = block;
        self.version = self.version + 1;
    }

    /// Get the block at `pos`
    pub fn get<T: InnerPos>(&self, pos: T) -> (r: &BlockData)
        ensures
            *r == self.blocks_spec()[pos.x_spec()][pos.y_spec()][pos.z_spec()],
    {
        &self.blocks[pos.x()][pos.y()][pos.z()]
    }

    /// A chunk with the given contents and no simulated faces.
    pub fn from_contents(c: ChunkContents) -> (r: Chunk)
        ensures
            r.blocks_spec() == *c.0,
            r.version_spec() == c.1,
            r.sides_spec().is_blank(),
    {
        Chunk { blocks: c.0, sides: Box::new(ChunkSimArray::empty()), version: c.1 }
    }

    /// Check whether this chunk is empty
    pub fn is_empty(&self) -> (r: bool)
        ensures
            r == array_empty(self.blocks_spec()),
    {
        array_is_empty(&*self.blocks)
    }
}

/// The blocks of a chunk in one of two forms: a full grid, or nothing at all for
/// a chunk of air.
#[derive(Clone, Debug)]
pub enum ChunkData {
    Full(Box<ChunkArray>),
    Empty,
}

impl ChunkData {
    /// Whether the data stand for a chunk of air.
    pub open spec fn is_empty_spec(&self) -> bool {
        match self {
            ChunkData::Full(f) => array_empty(**f),
            ChunkData::Empty => true,
        }
    }

    /// A full grid of air.
    pub fn empty_full() -> (r: ChunkData)
        ensures
            r is Full,
            r.is_empty_spec(),
    {
        ChunkData::Full(empty_array())
    }

    pub fn is_empty_variant(&self) -> (r: bool)
        ensures
            r == (self is Empty),
    {
        match self {
            ChunkData::Full(_) => false,
            ChunkData::Empty => true,
        }
    }

    pub fn is_empty(&self) -> (r: bool)
        ensures
            r == self.is_empty_spec(),
    {
        match self {
            ChunkData::Full(f) => array_is_empty(&**f),
            ChunkData::Empty => true,
        }
    }

    /// Makes the data a full grid, of air where they stood for a chunk of air,
    /// and hands the grid out.
    pub fn fill(&mut self) -> (r: &mut Box<ChunkArray>)
        ensures
            old(self).is_empty_spec() ==> array_empty(**r),
            !old(self).is_empty_spec() ==> *old(self) == ChunkData::Full(*r),
            *final(self) == ChunkData::Full(*final(r)),
    {
        if self.is_empty() {
            *self = Self::empty_full();
        }
        match self {
            ChunkData::Full(f) => f,
            ChunkData::Empty => vstd::pervasive::unreached(),
        }
    }

    /// Drops the grid of a chunk of air. Returns whether the chunk was one.
    pub fn compress(&mut self) -> (r: bool)
        ensures
            r == old(self).is_empty_spec(),
            r ==> *final(self) == ChunkData::Empty,
            !r ==> *final(self) == *old(self),
    {
        if self.is_empty() {
            *self = ChunkData::Empty;
            true
        } else {
            false
        }
    }
}

/// What the server knows of the chunk at one position.
pub enum ChunkState {
    /// The world generator was asked for the chunk and has not answered yet.
    Generating,
    /// The chunk is there.
    Generated(Chunk),
}

/// Whether `after` is what an edit that puts `block` at `(x, y, z)` makes of
/// `before`. A chunk that is there takes the edit and moves to the next version.
/// A chunk that is not there yet, or whose version counter is used up, is left as
/// it is.
pub open spec fn edited(
    before: ChunkState,
    after: ChunkState,
    x: int,
    y: int,
    z: int,
    block: BlockData,
) -> bool {
    match before {
        ChunkState::Generating => after == before,
        ChunkState::Generated(c) => if c.version_spec() < u64::MAX {
            &&& after matches ChunkState::Generated(d)
            &&& d.version_spec() == c.version_spec() + 1
            &&& d.blocks_spec()[x][y][z] == block
            &&& same_but_at(d.blocks_spec(), c.blocks_spec(), x, y, z)
            &&& d.sides_spec() == c.sides_spec()
        } else {
            after == before
        },
    }
}

impl ChunkState {
    /// The version of the chunk, where the chunk is there.
    pub open spec fn version_spec(&self) -> Option<u64> {
        match self {
            ChunkState::Generated(g) => Some(g.version_spec()),
            ChunkState::Generating => None,
        }
    }

    /// Whether an edit would be taken: the chunk is there and its version
    /// counter is not used up.
    pub open spec fn accepts_edit(&self) -> bool {
        self matches ChunkState::Generated(g) && g.version_spec() < u64::MAX
    }

    /// If this chunk was generated, was this chunk modified since it was generated
    pub fn is_modified(&self) -> (r: bool)
        ensures
            r == (self matches ChunkState::Generated(g) && g.version_spec() != 0),
    {
        match self {
            ChunkState::Generated(g) => g.is_modified(),
            ChunkState::Generating => false,
        }
    }

    /// If this chunk has been generated, what version is this chunk (version 0 is freshly generated)
    pub fn get_version(&self) -> (r: Option<u64>)
        ensures
            r == self.version_spec(),
    {
        match self {
            ChunkState::Generated(g) => Some(g.get_version()),
            ChunkState::Generating => None,
        }
    }

    /// Set the block at `i_pos` to `block` in a chunk that is there.
    pub fn set<T: InnerPos>(&mut self, i_pos: T, block: BlockId)
        requires
            old(self).accepts_edit(),
        ensures
            edited(*old(self), *final(self), i_pos.x_spec(), i_pos.y_spec(), i_pos.z_spec(), block),
    {
        match self {
            ChunkState::Generating => {},
            ChunkState::Generated(g) => g.set(block, i_pos),
        }
    }

    /// Set the block at `i_pos` to `block` where the chunk takes edits, and
    /// leave the chunk as it is where it does not. Returns whether the edit was
    /// taken.
    pub fn try_set<T: InnerPos>(&mut self, i_pos: T, block: BlockId) -> (r: bool)
        ensures
            r == old(self).accepts_edit(),
            edited(*old(self), *final(self), i_pos.x_spec(), i_pos.y_spec(), i_pos.z_spec(), block),
    {
        match self {
            ChunkState::Generating => false,
            ChunkState::Generated(g) => {
                if g.get_version() < u64::MAX {
                    g.set(block, i_pos);
                    true
                } else {
                    false
                }
            },
        }
    }

    /// Check if this chunk has been generated
    pub fn is_generated(&self) -> (r: bool)
        ensures
            r == (self is Generated),
    {
        match self {
            ChunkState::Generating => false,
            ChunkState::Generated(_) => true,
        }
    }

    /// Update with newly-generated chunk if not already generated. Return whether an update occured
    pub fn update_worldgen(&mut self, chunk: Chunk) -> (r: bool)
        ensures
            r == (*old(self) is Generating),
            r ==> *final(self) == ChunkState::Generated(chunk),
            !r ==> *final(self) == *old(self),
    {
        if !self.is_generated() {
            *self = ChunkState::Generated(chunk);
            true
        } else {
            false
        }
    }
}

/// The version counts the edits. Let a chunk go through a row of states, each
/// made from the one before by an edit. If the chunk was not there at first, it
/// never changes. If it was there at version `v`, it is there after `i` edits at
/// version `v + i`, as long as the counter is not used up.
pub proof fn lemma_version_counts_edits(
    states: Seq<ChunkState>,
    edits: Seq<(int, int, int, BlockData)>,
)
    requires
        states.len() == edits.len() + 1,
        forall|i: int|
            0 <= i < edits.len() ==> edited(
                states[i],
                #[trigger] states[i + 1],
                edits[i].0,
                edits[i].1,
                edits[i].2,
                edits[i].3,
            ),
    ensures
        states[0] is Generating ==> forall|i: int|
            0 <= i < states.len() ==> #[trigger] states[i] == states[0],
        states[0] matches ChunkState::Generated(c) ==> forall|i: int|
            0 <= i < states.len() && c.version_spec() + i <= u64::MAX
                ==> (#[trigger] states[i]).version_spec() == Some((c.version_spec() + i) as u64),
    decreases states.len(),
{
    if edits.len() > 0 {
        let n = edits.len() as int;
        lemma_version_counts_edits(states.drop_last(), edits.drop_last());
        assert(states.drop_last()[n - 1] == states[n - 1]);
        assert(edited(
            states[n - 1],
            states[n - 1 + 1],
            edits[n - 1].0,
            edits[n - 1].1,
            edits[n - 1].2,
            edits[n - 1].3,
        ));
        if states[0] is Generating {
            assert forall|i: int| 0 <= i < states.len() implies #[trigger] states[i]
                == states[0] by {
                if i < n {
                    assert(states.drop_last()[i] == states[i]);
                }
            }
        }
        if let ChunkState::Generated(c) = states[0] {
            assert forall|i: int|
                0 <= i < states.len() && c.version_spec() + i <= u64::MAX implies (
            #[trigger] states[i]).version_spec() == Some((c.version_spec() + i) as u64) by {
                if i < n {
                    assert(states.drop_last()[i] == states[i]);
                }
            }
        }
    }
}

} // verus!
