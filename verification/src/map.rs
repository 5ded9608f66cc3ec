//! The server's map of chunks, with the set of chunks edited since the last
//! broadcast.

use crate::block::BlockId;
use crate::chunk::{edited, Chunk, ChunkState};
use crate::pos::{ChunkPos, InnerCoords, InnerPos};
use crate::table::{ChunkTable, PosTable};
use vstd::prelude::*;

verus! {

/// The state of every chunk that the server knows about, by position.
pub struct ChunkMap {
    map: ChunkTable,
    hot: PosTable,
}

impl View for ChunkMap {
    type V = Map<ChunkPos, ChunkState>;

    closed spec fn view(&self) -> Map<ChunkPos, ChunkState> {
        self.map@
    }
}

impl ChunkMap {
    /// The map holds finitely many chunks.
    pub closed spec fn wf(&self) -> bool {
        self.map@.dom().finite()
    }

    /// The chunks that were edited since the set was last cleared.
    pub closed spec fn hot_spec(&self) -> Set<ChunkPos> {
        self.hot@.dom()
    }

    pub fn new() -> (r: ChunkMap)
        ensures
            r.wf(),
            r@ == Map::<ChunkPos, ChunkState>::empty(),
            r.hot_spec() == Set::<ChunkPos>::empty(),
    {
        let r = ChunkMap { map: ChunkTable::new(), hot: PosTable::new() };
        assert(r.hot_spec() =~= Set::<ChunkPos>::empty());
        r
    }

    /// The state at `pos`, to be changed in place.
    pub fn get_mut(&mut self, pos: &ChunkPos) -> (r: Option<&mut ChunkState>)
        requires
            old(self).wf(),
        ensures
            r is Some <==> old(self)@.contains_key(*pos),
            r is None ==> final(self)@ == old(self)@,
            r matches Some(v) ==> *v == old(self)@[*pos] && final(self)@ == old(self)@.insert(
                *pos,
                *final(v),
            ),
            final(self).wf(),
            final(self).hot_spec() == old(self).hot_spec(),
    {
        self.map.get_mut(pos)
    }

    /// The state at `pos`.
    pub fn get(&self, pos: &ChunkPos) -> (r: Option<&ChunkState>)
        requires
            self.wf(),
        ensures
            r is Some <==> self@.contains_key(*pos),
            r matches Some(v) ==> *v == self@[*pos],
    {
        self.map.get(pos)
    }

    /// Puts `state` at `pos` and returns the state that was there.
    pub fn insert(&mut self, pos: ChunkPos, state: ChunkState) -> (r: Option<ChunkState>)
        requires
            old(self).wf(),
        ensures
            final(self).wf(),
            final(self)@ == old(self)@.insert(pos, state),
            r == (if old(self)@.contains_key(pos) {
                Some(old(self)@[pos])
            } else {
                None
            }),
            final(self).hot_spec() == old(self).hot_spec(),
    {
        self.map.insert(pos, state)
    }

    /// Takes the chunk at `pos` out of the map and returns its state.
    pub fn remove(&mut self, pos: &ChunkPos) -> (r: Option<ChunkState>)
        requires
            old(self).wf(),
        ensures
            final(self).wf(),
            final(self)@ == old(self)@.remove(*pos),
            r == (if old(self)@.contains_key(*pos) {
                Some(old(self)@[*pos])
            } else {
                None
            }),
            final(self).hot_spec() == old(self).hot_spec(),
    {
        self.map.remove(pos)
    }

    /// Evicts every chunk that `f` refuses. A chunk that stays keeps its state.
    pub fn retain<F: Fn(&ChunkPos, &ChunkState) -> bool>(&mut self, f: F)
        requires
            old(self).wf(),
            forall|k: ChunkPos, v: ChunkState| call_requires(f, (&k, &v)),
        ensures
            final(self).wf(),
            final(self).hot_spec() == old(self).hot_spec(),
            forall|k: ChunkPos| #[trigger]
                final(self)@.contains_key(k) ==> old(self)@.contains_key(k) && final(self)@[k]
                    == old(self)@[k] && call_ensures(f, (&k, &old(self)@[k]), true),
            forall|k: ChunkPos|
                old(self)@.contains_key(k) && !(#[trigger] final(self)@.contains_key(k))
                    ==> call_ensures(f, (&k, &old(self)@[k]), false),
    {
        let keys = self.map.keys();
        proof {
            assert forall|p: ChunkPos| keys@.contains(p) <==> self@.contains_key(p) by {
                assert(keys@.to_set().contains(p) <==> keys@.contains(p));
            }
            assert forall|j: int| 0 <= j < keys.len() implies self@.contains_key(
                #[trigger] keys[j],
            ) by {
                assert(keys@.contains(keys@[j]));
            }
        }
        let mut i: usize = 0;
        while i < keys.len()
            invariant
                i <= keys.len(),
                self.wf(),
                self.hot == old(self).hot,
                keys@.no_duplicates(),
                forall|p: ChunkPos| keys@.contains(p) <==> old(self)@.contains_key(p),
                forall|k: ChunkPos, v: ChunkState| call_requires(f, (&k, &v)),
                forall|k: ChunkPos| #[trigger]
                    self@.contains_key(k) ==> old(self)@.contains_key(k) && self@[k] == old(
                        self,
                    )@[k],
                forall|j: int|
                    0 <= j < i && self@.contains_key(#[trigger] keys[j]) ==> call_ensures(
                        f,
                        (&keys[j], &old(self)@[keys[j]]),
                        true,
                    ),
                forall|j: int|
                    0 <= j < i && !self@.contains_key(#[trigger] keys[j]) ==> call_ensures(
                        f,
                        (&keys[j], &old(self)@[keys[j]]),
                        false,
                    ),
                forall|j: int| i <= j < keys.len() ==> self@.contains_key(#[trigger] keys[j]),
            decreases keys.len() - i,
        {
            let k = keys[i];
            assert(keys@.contains(k));
            let keep = match self.map.get(&k) {
                Some(state) => f(&k, state),
                None => true,
            };
            if !keep {
                self.map.remove(&k);
            }
            i = i + 1;
        }
        proof {
            assert forall|k: ChunkPos| #[trigger] self@.contains_key(k) implies call_ensures(
                f,
                (&k, &old(self)@[k]),
                true,
            ) by {
                assert(keys@.contains(k));
                let j = choose|j: int| 0 <= j < keys.len() && keys[j] == k;
                assert(self@.contains_key(keys[j]));
            }
            assert forall|k: ChunkPos|
                old(self)@.contains_key(k) && !(#[trigger] self@.contains_key(
                    k,
                )) implies call_ensures(f, (&k, &old(self)@[k]), false) by {
                assert(keys@.contains(k));
                let j = choose|j: int| 0 <= j < keys.len() && keys[j] == k;
                assert(!self@.contains_key(keys[j]));
            }
        }
    }

    pub fn contains_key(&self, pos: &ChunkPos) -> (r: bool)
        requires
            self.wf(),
        ensures
            r == self@.contains_key(*pos),
    {
        return self.map.contains_key(pos);
    }

    /// Number of chunks in the map.
    pub fn len(&self) -> (r: usize)
        requires
            self.wf(),
        ensures
            r == self@.len(),
    {
        self.map.len()
    }

    /// The positions of all chunks in the map, once each, in no promised order.
    pub fn keys(&self) -> (r: Vec<ChunkPos>)
        ensures
            r@.no_duplicates(),
            forall|p: ChunkPos| r@.contains(p) <==> self@.contains_key(p),
    {
        let keys = self.map.keys();
        proof {
            assert forall|p: ChunkPos| keys@.contains(p) <==> self@.contains_key(p) by {
                assert(keys@.to_set().contains(p) <==> keys@.contains(p));
            }
        }
        keys
    }

    /// Edits one block: puts `block` at `i_pos` of the chunk at `pos`.
    ///
    /// The edit is taken where the chunk is there and its version counter is not
    /// used up: the block changes, the version goes up by one and the chunk
    /// becomes hot. Otherwise the edit is dropped and nothing changes. Returns
    /// whether the edit was taken. No other chunk changes either way.
    pub fn set(&mut self, pos: ChunkPos, i_pos: InnerCoords, block: BlockId) -> (r: bool)
        requires
            old(self).wf(),
        ensures
            final(self).wf(),
            r == (old(self)@.contains_key(pos) && old(self)@[pos].accepts_edit()),
            final(self)@.dom() == old(self)@.dom(),
            forall|q: ChunkPos|
                q != pos && old(self)@.contains_key(q) ==> #[trigger] final(self)@[q] == old(
                    self,
                )@[q],
            old(self)@.contains_key(pos) ==> edited(
                old(self)@[pos],
                final(self)@[pos],
                i_pos.x_spec(),
                i_pos.y_spec(),
                i_pos.z_spec(),
                block,
            ),
            final(self).hot_spec() == (if r {
                old(self).hot_spec().insert(pos)
            } else {
                old(self).hot_spec()
            }),
    {
        let taken = match self.map.get_mut(&pos) {
            None => false,
            Some(state) => state.try_set(i_pos, block),
        };
        if taken {
            self.hot.insert(pos, 0);
        }
        proof {
            assert(final(self)@.dom() =~= old(self)@.dom());
            if taken {
                assert(self.hot_spec() =~= old(self).hot_spec().insert(pos));
            }
        }
        taken
    }

    /// Whether the chunk at `pos` was edited since the hot set was last cleared.
    pub fn is_hot(&self, pos: &ChunkPos) -> (r: bool)
        ensures
            r == self.hot_spec().contains(*pos),
    {
        self.hot.contains_key(pos)
    }

    /// Marks the chunk at `pos` as edited.
    pub fn heat(&mut self, pos: ChunkPos)
        ensures
            final(self).hot_spec() == old(self).hot_spec().insert(pos),
            final(self)@ == old(self)@,
            final(self).wf() == old(self).wf(),
    {
        self.hot.insert(pos, 0);
        assert(self.hot_spec() =~= old(self).hot_spec().insert(pos));
    }

    /// Clears the hot set: no chunk counts as edited any more.
    pub fn cool_all(&mut self)
        ensures
            final(self).hot_spec() == Set::<ChunkPos>::empty(),
            final(self)@ == old(self)@,
            final(self).wf() == old(self).wf(),
    {
        self.hot = PosTable::new();
        assert(self.hot_spec() =~= Set::<ChunkPos>::empty());
    }

    /// Takes in a chunk from the world generator.
    ///
    /// Where the map waits for the chunk at `pos`, or has nothing there, the
    /// chunk is stored. Where a chunk is there already, it stays and the new one
    /// is dropped. Returns whether the chunk was stored.
    pub fn update_worldgen(&mut self, pos: ChunkPos, chunk: Chunk) -> (r: bool)
        requires
            old(self).wf(),
        ensures
            final(self).wf(),
            r == !(old(self)@.contains_key(pos) && old(self)@[pos] is Generated),
            r ==> final(self)@ == old(self)@.insert(pos, ChunkState::Generated(chunk)),
            !r ==> final(self)@ == old(self)@,
            final(self).hot_spec() == old(self).hot_spec(),
    {
        let present = self.map.contains_key(&pos);
        if present {
            match self.map.get_mut(&pos) {
                Some(state) => state.update_worldgen(chunk),
                None => false,
            }
        } else {
            self.map.insert(pos, ChunkState::Generated(chunk));
            true
        }
    }
}

} // verus!
