//! Block types and the registry that says how each behaves.

use vstd::prelude::*;
use vstd::std_specs::convert::FromSpecImpl;

verus! {

/// Shape of a block's collider.
#[derive(Clone, Copy, Debug, PartialEq, Eq, Structural)]
pub enum BlockShape {
    Cube,
}

/// State of matter of a block.
#[derive(Clone, Copy, Debug, PartialEq, Eq, Structural)]
pub enum MatterState {
    Gas,
    Liquid,
    Solid,
    Vacuum,
}

/// Identifies a block type. 0 is air, and also what an untouched cell holds.
#[derive(Clone, Copy, Debug, PartialEq, Eq, Hash, Structural)]
pub struct BlockId(pub u16);

impl From<u16> for BlockId {
    fn from(id: u16) -> (r: BlockId) {
        BlockId(id)
    }
}

impl FromSpecImpl<u16> for BlockId {
    open spec fn obeys_from_spec() -> bool {
        true
    }

    open spec fn from_spec(id: u16) -> BlockId {
        BlockId(id)
    }
}

impl BlockId {
    /// Whether this is the empty block.
    pub fn is_air(self) -> (r: bool)
        ensures
            r == (self.0 == 0),
    {
        self.0 == 0
    }
}

/// What the world needs to know of a block type.
pub trait Block {
    spec fn opaque_spec(&self) -> bool;

    spec fn state_spec(&self) -> MatterState;

    /// Does this block hide the faces of its neighbours?
    fn is_opaque(&self) -> (r: bool)
        ensures
            r == self.opaque_spec(),
    ;

    /// State of matter of this block.
    fn state(&self) -> (r: MatterState)
        ensures
            r == self.state_spec(),
    ;

    /// Shape of this block's collider.
    fn shape(&self) -> (r: BlockShape)
        ensures
            r == BlockShape::Cube,
    {
        BlockShape::Cube
    }
}

/// A gas: never hides anything.
#[derive(Clone, Copy, Debug, PartialEq, Eq, Structural)]
pub struct BlockGas {}

/// A solid cube: hides every face it touches.
#[derive(Clone, Copy, Debug, PartialEq, Eq, Structural)]
pub struct BlockCube {}

/// A block type described by its properties alone.
#[derive(Clone, Copy, Debug, PartialEq, Eq, Structural)]
pub struct BlockTraits {
    pub opaque: bool,
    pub state: MatterState,
}

/// The closed set of block kinds, with a fallback for custom ones.
#[derive(Clone, Copy, Debug, PartialEq, Eq, Structural)]
pub enum BlockObj {
    Gas(BlockGas),
    Cube(BlockCube),
    Dynamic(BlockTraits),
}

impl Block for BlockGas {
    open spec fn opaque_spec(&self) -> bool {
        false
    }

    open spec fn state_spec(&self) -> MatterState {
        MatterState::Gas
    }

    fn is_opaque(&self) -> (r: bool) {
        false
    }

    fn state(&self) -> (r: MatterState) {
        MatterState::Gas
    }
}

impl Block for BlockCube {
    open spec fn opaque_spec(&self) -> bool {
        true
    }

    open spec fn state_spec(&self) -> MatterState {
        MatterState::Solid
    }

    fn is_opaque(&self) -> (r: bool) {
        true
    }

    fn state(&self) -> (r: MatterState) {
        MatterState::Solid
    }
}

impl Block for BlockTraits {
    open spec fn opaque_spec(&self) -> bool {
        self.opaque
    }

    open spec fn state_spec(&self) -> MatterState {
        self.state
    }

    fn is_opaque(&self) -> (r: bool) {
        self.opaque
    }

    fn state(&self) -> (r: MatterState) {
        self.state
    }
}

impl Block for BlockObj {
    open spec fn opaque_spec(&self) -> bool {
        match self {
            BlockObj::Gas(g) => g.opaque_spec(),
            BlockObj::Cube(c) => c.opaque_spec(),
            BlockObj::Dynamic(d) => d.opaque_spec(),
        }
    }

    open spec fn state_spec(&self) -> MatterState {
        match self {
            BlockObj::Gas(g) => g.state_spec(),
            BlockObj::Cube(c) => c.state_spec(),
            BlockObj::Dynamic(d) => d.state_spec(),
        }
    }

    fn is_opaque(&self) -> (r: bool) {
        match self {
            BlockObj::Gas(g) => g.is_opaque(),
            BlockObj::Cube(c) => c.is_opaque(),
            BlockObj::Dynamic(d) => d.is_opaque(),
        }
    }

    fn state(&self) -> (r: MatterState) {
        match self {
            BlockObj::Gas(g) => g.state(),
            BlockObj::Cube(c) => c.state(),
            BlockObj::Dynamic(d) => d.state(),
        }
    }
}

/// Create an air block.
pub fn create_block_air() -> (r: BlockGas)
    ensures
        !r.opaque_spec(),
        r.state_spec() == MatterState::Gas,
{
    BlockGas {  }
}

/// Create a solid block.
pub fn create_block_cube() -> (r: BlockCube)
    ensures
        r.opaque_spec(),
        r.state_spec() == MatterState::Solid,
{
    BlockCube {  }
}

/// The block types of a world, numbered in the order they were added.
pub struct BlockRegistry {
    blocks: Vec<BlockObj>,
}

impl View for BlockRegistry {
    type V = Seq<BlockObj>;

    closed spec fn view(&self) -> Seq<BlockObj> {
        self.blocks@
    }
}

impl BlockRegistry {
    /// Whether block `id` hides the faces of its neighbours. An id that was never
    /// registered hides nothing.
    pub open spec fn opaque_spec(&self, id: BlockId) -> bool {
        id.0 < self@.len() && self@[id.0 as int].opaque_spec()
    }

    pub fn new() -> (r: BlockRegistry)
        ensures
            r@ == Seq::<BlockObj>::empty(),
    {
        BlockRegistry { blocks: Vec::new() }
    }

    /// Number of registered block types.
    pub fn len(&self) -> (r: usize)
        ensures
            r == self@.len(),
    {
        self.blocks.len()
    }

    /// Registers `block` and returns its id, the number of blocks registered
    /// before it.
    pub fn add_block(&mut self, block: BlockObj) -> (id: BlockId)
        requires
            old(self)@.len() < 65536,
        ensures
            final(self)@ == old(self)@.push(block),
            id.0 == old(self)@.len(),
    {
        self.blocks.push(block);
        BlockId((self.blocks.len() - 1) as u16)
    }

    /// The block type registered under `id`.
    pub fn get_block(&self, id: BlockId) -> (r: &BlockObj)
        requires
            id.0 < self@.len(),
        ensures
            *r == self@[id.0 as int],
    {
        &self.blocks[id.0 as usize]
    }

    /// Whether block `id` hides the faces of its neighbours.
    pub fn is_opaque(&self, id: BlockId) -> (r: bool)
        ensures
            r == self.opaque_spec(id),
    {
        if (id.0 as usize) < self.blocks.len() {
            self.blocks[id.0 as usize].is_opaque()
        } else {
            false
        }
    }
}

} // verus!
