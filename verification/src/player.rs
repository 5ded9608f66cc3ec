//! Players as the chunk logic sees them: where they stand, how far they see,
//! and which keys they hold down.

use crate::block::BlockId;
use crate::map::ChunkMap;
use crate::pos::{BlockPos, ChunkPos, InnerCoords, SubIndex};
use vstd::prelude::*;

verus! {

/// Invidual key controls
#[derive(Clone, Copy, Debug, PartialEq, Eq, Structural)]
pub enum PlayerKey {
    Forward,
    Left,
    Backward,
    Right,
    Up,
    Down,
    Control,
    Hit,
    PhysicsEnable,
}

impl PlayerKey {
    /// Position in the order of declaration.
    pub open spec fn index_spec(self) -> int {
        match self {
            PlayerKey::Forward => 0,
            PlayerKey::Left => 1,
            PlayerKey::Backward => 2,
            PlayerKey::Right => 3,
            PlayerKey::Up => 4,
            PlayerKey::Down => 5,
            PlayerKey::Control => 6,
            PlayerKey::Hit => 7,
            PlayerKey::PhysicsEnable => 8,
        }
    }

    pub fn index(self) -> (r: usize)
        ensures
            r == self.index_spec(),
            r < 9,
    {
        match self {
            PlayerKey::Forward => 0,
            PlayerKey::Left => 1,
            PlayerKey::Backward => 2,
            PlayerKey::Right => 3,
            PlayerKey::Up => 4,
            PlayerKey::Down => 5,
            PlayerKey::Control => 6,
            PlayerKey::Hit => 7,
            PlayerKey::PhysicsEnable => 8,
        }
    }
}

/// A player's current controls
#[derive(Clone, Copy, Debug)]
pub struct PlayerControls {
    pub held: [bool; 9],
}

impl PlayerControls {
    /// Whether `key` is held down.
    pub open spec fn has(self, key: PlayerKey) -> bool {
        self.held[key.index_spec()]
    }

    /// No key is held down.
    pub fn none() -> (r: PlayerControls)
        ensures
            forall|k: PlayerKey| !r.has(k),
    {
        PlayerControls { held: [false;9] }
    }

    /// `key` alone is held down.
    pub fn from_key(key: PlayerKey) -> (r: PlayerControls)
        ensures
            forall|k: PlayerKey| r.has(k) == (k == key),
    {
        let mut held = [false;9];
        held[key.index()] = true;
        PlayerControls { held }
    }

    pub fn pressed(self, key: PlayerKey) -> (r: bool)
        ensures
            r == self.has(key),
    {
        self.held[key.index()]
    }

    /// The controls of a mouse whose button is or is not pressed: `Hit` alone, or
    /// nothing.
    pub fn mouse(button_pressed: bool) -> (r: PlayerControls)
        ensures
            forall|k: PlayerKey| r.has(k) == (button_pressed && k == PlayerKey::Hit),
    {
        if button_pressed {
            PlayerControls::from_key(PlayerKey::Hit)
        } else {
            PlayerControls::none()
        }
    }

    /// Holds `key` down as well.
    pub fn insert(&mut self, key: PlayerKey)
        ensures
            forall|k: PlayerKey| final(self).has(k) == (old(self).has(k) || k == key),
    {
        self.held[key.index()] = true;
    }

    /// The keys held in either.
    pub fn bitor(self, other: PlayerControls) -> (r: PlayerControls)
        ensures
            forall|k: PlayerKey| r.has(k) == (self.has(k) || other.has(k)),
    {
        let mut held = [false;9];
        let mut i: usize = 0;
        while i < 9
            invariant
                i <= 9,
                forall|j: int| 0 <= j < i ==> held[j] == (self.held[j] || other.held[j]),
            decreases 9 - i,
        {
            held[i] = self.held[i] || other.held[i];
            i = i + 1;
        }
        PlayerControls { held }
    }
}

/// Names a player of a [`PlayerSet`].
#[derive(Clone, Copy, Debug, PartialEq, Eq, Hash, Structural)]
pub struct PlayerId {
    idx: u32,
}

impl PlayerId {
    /// Place of the player in its set.
    pub closed spec fn index_spec(self) -> int {
        self.idx as int
    }

    pub fn index(self) -> (r: usize)
        ensures
            r == self.index_spec(),
    {
        self.idx as usize
    }

    /// A place is a number of 32 bits.
    pub proof fn lemma_index_bound(self)
        ensures
            0 <= self.index_spec() <= u32::MAX,
    {
    }

    /// A player id is its place: no two ids name the same place.
    pub proof fn lemma_index_names(self, other: PlayerId)
        requires
            self.index_spec() == other.index_spec(),
        ensures
            self == other,
    {
    }
}

/// A server-side player
#[derive(Clone, Copy, Debug)]
pub struct Player {
    /// The block this player stands in
    pub pos: BlockPos,
    /// The block this player stood in last tick
    pub old_pos: BlockPos,
    /// The render distance for this player
    pub render_distance: u64,
    /// The keys the player has pressed down
    pub keys: PlayerControls,
    /// Player ID
    pub id: PlayerId,
    /// Whether this player is active
    pub active: bool,
}

impl Player {
    pub fn new(id: PlayerId, pos: BlockPos, active: bool) -> (r: Player)
        ensures
            r.pos == pos,
            r.old_pos == pos,
            r.render_distance == 0,
            r.id == id,
            r.active == active,
            forall|k: PlayerKey| !r.keys.has(k),
    {
        Player {
            pos: pos,
            old_pos: pos,
            render_distance: 0,
            keys: PlayerControls::none(),
            id: id,
            active: active,
        }
    }

    pub fn get_pos(&self) -> (r: BlockPos)
        ensures
            r == self.pos,
    {
        self.pos
    }

    /// The chunk this player stands in.
    pub fn chunk_pos(&self) -> (r: ChunkPos)
        ensures
            r == self.pos.high_spec(),
    {
        self.pos.high()
    }

    pub fn set_input(&mut self, keys: PlayerControls)
        ensures
            final(self).keys == keys,
            final(self).pos == old(self).pos,
            final(self).old_pos == old(self).old_pos,
            final(self).render_distance == old(self).render_distance,
            final(self).id == old(self).id,
            final(self).active == old(self).active,
    {
        self.keys = keys;
    }

    /// Breaks the block the player stands in: an edit that puts air there.
    /// Returns whether the world took the edit.
    pub fn handle_hit(&self, world: &mut ChunkMap) -> (r: bool)
        requires
            old(world).wf(),
        ensures
            final(world).wf(),
            hit_applied(*old(world), *final(world), self.pos, r),
    {
        let p = self.get_pos();
        let (h, l): (ChunkPos, InnerCoords) = p.factor();
        world.set(h, l, BlockId(0))
    }

    /// One tick of an active player: a held `Hit` key breaks the block the player
    /// stands in. Nothing happens for an inactive player. Returns whether the
    /// world took an edit.
    pub fn tick(&mut self, world: &mut ChunkMap) -> (r: bool)
        requires
            old(world).wf(),
        ensures
            final(world).wf(),
            *final(self) == *old(self),
            old(self).active && old(self).keys.has(PlayerKey::Hit) ==> hit_applied(
                *old(world),
                *final(world),
                old(self).pos,
                r,
            ),
            !(old(self).active && old(self).keys.has(PlayerKey::Hit)) ==> !r && final(world)@
                == old(world)@ && final(world).hot_spec() == old(world).hot_spec(),
    {
        // Don't tick inactive players
        if !self.active {
            return false;
        }
        if self.keys.pressed(PlayerKey::Hit) {
            self.handle_hit(world)
        } else {
            false
        }
    }

    /// Ends a tick in which the player moved to `new_pos`. A player cannot move
    /// into a chunk that is not there yet: then the player is put back to where
    /// the tick began. Otherwise the move stands.
    pub fn finalize(&mut self, new_pos: BlockPos, world: &ChunkMap)
        requires
            world.wf(),
        ensures
            final(self).pos == (if can_enter(*world, new_pos) {
                new_pos
            } else {
                old(self).old_pos
            }),
            final(self).old_pos == final(self).pos,
            final(self).render_distance == old(self).render_distance,
            final(self).keys == old(self).keys,
            final(self).id == old(self).id,
            final(self).active == old(self).active,
    {
        let chunk_pos: ChunkPos = new_pos.high();
        let loaded = match world.get(&chunk_pos) {
            None => false,
            Some(state) => state.is_generated(),
        };
        // Can't move to an unloaded chunk
        if loaded {
            self.pos = new_pos;
            self.old_pos = new_pos;
        } else {
            self.pos = self.old_pos;
        }
    }
}

/// Whether a player may stand at `pos`: the chunk that holds `pos` is there.
pub open spec fn can_enter(world: ChunkMap, pos: BlockPos) -> bool {
    world@.contains_key(pos.high_spec()) && world@[pos.high_spec()] is Generated
}

/// What a hit at block `at` does to the world: it is an edit that puts air at
/// `at`; `taken` says whether that edit was taken.
pub open spec fn hit_applied(before: ChunkMap, after: ChunkMap, at: BlockPos, taken: bool) -> bool {
    let pos = at.high_spec();
    let inner = at.low_spec();
    &&& taken == (before@.contains_key(pos) && before@[pos].accepts_edit())
    &&& after@.dom() == before@.dom()
    &&& forall|q: ChunkPos| q != pos && before@.contains_key(q) ==> #[trigger] after@[q]
        == before@[q]
    &&& before@.contains_key(pos) ==> crate::chunk::edited(
        before@[pos],
        after@[pos],
        inner.cx(),
        inner.cy(),
        inner.cz(),
        BlockId(0),
    )
    &&& after.hot_spec() == (if taken {
        before.hot_spec().insert(pos)
    } else {
        before.hot_spec()
    })
}

/// The players of a world. A player, once added, stays.
pub struct PlayerSet {
    players: Vec<Player>,
}

impl View for PlayerSet {
    type V = Seq<Player>;

    closed spec fn view(&self) -> Seq<Player> {
        self.players@
    }
}

impl PlayerSet {
    pub fn new() -> (r: PlayerSet)
        ensures
            r@ == Seq::<Player>::empty(),
    {
        PlayerSet { players: Vec::new() }
    }

    /// Number of players.
    pub fn len(&self) -> (r: usize)
        ensures
            r == self@.len(),
    {
        self.players.len()
    }

    /// Adds a player at `pos`, or returns `None` where no player id is left.
    pub fn new_player(&mut self, pos: BlockPos, active: bool) -> (r: Option<PlayerId>)
        ensures
            r is Some <==> old(self)@.len() < u32::MAX,
            r is None ==> final(self)@ == old(self)@,
            r matches Some(id) ==> id.index_spec() == old(self)@.len(),
            r is Some ==> final(self)@.len() == old(self)@.len() + 1,
            r is Some ==> final(self)@.drop_last() == old(self)@,
            r matches Some(id) ==> final(self)@.last().id == id,
            r is Some ==> final(self)@.last().pos == pos,
            r is Some ==> final(self)@.last().old_pos == pos,
            r is Some ==> final(self)@.last().active == active,
            r is Some ==> final(self)@.last().render_distance == 0,
            r is Some ==> forall|k: PlayerKey| !final(self)@.last().keys.has(k),
    {
        if self.players.len() >= u32::MAX as usize {
            return None;
        }
        let new_id = PlayerId { idx: self.players.len() as u32 };
        self.players.push(Player::new(new_id, pos, active));
        assert(self@.drop_last() =~= old(self)@);
        Some(new_id)
    }

    /// Whether `id` names a player of this set.
    pub fn contains(&self, id: PlayerId) -> (r: bool)
        ensures
            r == (id.index_spec() < self@.len()),
    {
        id.index() < self.players.len()
    }

    /// The player named `id`.
    pub fn get(&self, id: PlayerId) -> (r: &Player)
        requires
            id.index_spec() < self@.len(),
        ensures
            *r == self@[id.index_spec()],
    {
        &self.players[id.index()]
    }

    /// A copy of the player at place `i`.
    pub fn player_at(&self, i: usize) -> (r: Player)
        requires
            i < self@.len(),
        ensures
            r == self@[i as int],
    {
        self.players[i]
    }

    /// Puts `player` in the place of the player named `id`.
    pub fn set(&mut self, id: PlayerId, player: Player)
        requires
            id.index_spec() < old(self)@.len(),
        ensures
            final(self)@ == old(self)@.update(id.index_spec(), player),
    {
        self.players[id.index()] = player;
    }

    /// The player named `id`, to be changed in place.
    pub fn get_mut(&mut self, id: PlayerId) -> (r: &mut Player)
        requires
            id.index_spec() < old(self)@.len(),
        ensures
            *r == old(self)@[id.index_spec()],
            final(self)@ == old(self)@.update(id.index_spec(), *final(r)),
    {
        &mut self.players[id.index()]
    }
}

} // verus!
