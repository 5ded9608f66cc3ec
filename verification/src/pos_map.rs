//! A map from chunk positions to values that lets its values be changed in place.
//!
//! The values lie in a vector; a hash table says at which place of the vector
//! the value of a position lies. Chunks refer to one another by position and
//! find each other through the map, never through a pointer.

use crate::pos::ChunkPos;
use crate::table::PosTable;
use vstd::prelude::*;

verus! {

/// One entry: a position and what is stored under it.
pub struct Slot<V> {
    pos: ChunkPos,
    value: V,
}

/// A map from chunk positions to values of type `V`.
pub struct PosMap<V> {
    index: PosTable,
    slots: Vec<Slot<V>>,
}

impl<V> View for PosMap<V> {
    type V = Map<ChunkPos, V>;

    closed spec fn view(&self) -> Map<ChunkPos, V> {
        Map::new(
            |p: ChunkPos| self.index@.contains_key(p),
            |p: ChunkPos| self.slots[self.index@[p] as int].value,
        )
    }
}

/// The order `o` after `p` has left: the last position has moved to the place
/// of `p`. Without `p` in it the order stays as it is.
pub open spec fn order_without(o: Seq<ChunkPos>, p: ChunkPos) -> Seq<ChunkPos> {
    if o.contains(p) {
        let at = choose|k: int| 0 <= k < o.len() && o[k] == p;
        o.update(at, o.last()).drop_last()
    } else {
        o
    }
}

impl<V> PosMap<V> {
    /// The table and the vector agree: the table sends the position of every
    /// entry to the place of that entry, and sends no other position anywhere.
    pub closed spec fn wf(&self) -> bool {
        &&& forall|i: int|
            0 <= i < self.slots.len() ==> self.index@.contains_key((#[trigger] self.slots[i]).pos)
                && self.index@[self.slots[i].pos] == i
        &&& forall|p: ChunkPos| #[trigger]
            self.index@.contains_key(p) ==> self.index@[p] < self.slots.len()
                && self.slots[self.index@[p] as int].pos == p
    }

    /// The positions in the order in which the map hands them out.
    pub closed spec fn order(&self) -> Seq<ChunkPos> {
        Seq::new(self.slots.len() as nat, |i: int| self.slots[i].pos)
    }

    /// The order names every position of the map once.
    pub proof fn lemma_order(&self)
        requires
            self.wf(),
        ensures
            self.order().no_duplicates(),
            forall|p: ChunkPos| self.order().contains(p) <==> self@.contains_key(p),
            self@.dom().finite(),
            self@.dom().len() == self.order().len(),
    {
        let o = self.order();
        assert forall|i: int, j: int| 0 <= i < o.len() && 0 <= j < o.len() && i != j implies o[i]
            != o[j] by {
            assert(self.index@[self.slots[i].pos] == i);
            assert(self.index@[self.slots[j].pos] == j);
        }
        assert forall|p: ChunkPos| o.contains(p) <==> self@.contains_key(p) by {
            if self@.contains_key(p) {
                assert(self.index@.contains_key(p));
                assert(o[self.index@[p] as int] == p);
            }
            if o.contains(p) {
                let i = choose|i: int| 0 <= i < o.len() && o[i] == p;
                assert(self.index@.contains_key(self.slots[i].pos));
            }
        }
        assert(o.to_set() =~= self@.dom());
        o.unique_seq_to_set();
        vstd::seq_lib::seq_to_set_is_finite(o);
    }

    /// An empty map.
    pub fn new() -> (r: PosMap<V>)
        ensures
            r.wf(),
            r@ == Map::<ChunkPos, V>::empty(),
            r.order() == Seq::<ChunkPos>::empty(),
    {
        let r = PosMap { index: PosTable::new(), slots: Vec::new() };
        assert(r@ =~= Map::<ChunkPos, V>::empty());
        assert(r.order() =~= Seq::<ChunkPos>::empty());
        r
    }

    /// Number of positions in the map.
    pub fn len(&self) -> (r: usize)
        ensures
            r == self.order().len(),
    {
        self.slots.len()
    }

    pub fn is_empty(&self) -> (r: bool)
        ensures
            r == (self.order().len() == 0),
    {
        self.slots.len() == 0
    }

    pub fn contains_key(&self, pos: &ChunkPos) -> (r: bool)
        requires
            self.wf(),
        ensures
            r == self@.contains_key(*pos),
    {
        self.index.contains_key(pos)
    }

    /// The value stored under `pos`.
    pub fn get(&self, pos: &ChunkPos) -> (r: Option<&V>)
        requires
            self.wf(),
        ensures
            r is Some <==> self@.contains_key(*pos),
            r matches Some(v) ==> *v == self@[*pos],
    {
        match self.index.get(pos) {
            Some(i) => Some(&self.slots[i as usize].value),
            None => None,
        }
    }

    /// The value stored under `pos`, to be changed in place. Whatever the caller
    /// leaves there is what the map then holds under `pos`; nothing else changes.
    pub fn get_mut(&mut self, pos: &ChunkPos) -> (r: Option<&mut V>)
        requires
            old(self).wf(),
        ensures
            r is Some <==> old(self)@.contains_key(*pos),
            r is None ==> *final(self) == *old(self),
            r matches Some(v) ==> *v == old(self)@[*pos] && final(self)@ == old(self)@.insert(
                *pos,
                *final(v),
            ),
            final(self).wf(),
            final(self).order() == old(self).order(),
    {
        match self.index.get(pos) {
            Some(i) => {
                let v = &mut self.slots[i as usize].value;
                Some(v)
            },
            None => None,
        }
    }

    /// Stores `value` under `pos` and returns what `pos` had before. A new
    /// position comes last in the order; a known one keeps its place.
    pub fn insert(&mut self, pos: ChunkPos, value: V) -> (r: Option<V>)
        requires
            old(self).wf(),
        ensures
            final(self).wf(),
            final(self)@ == old(self)@.insert(pos, value),
            r == (if old(self)@.contains_key(pos) {
                Some(old(self)@[pos])
            } else {
                None
            }),
            final(self).order() == (if old(self)@.contains_key(pos) {
                old(self).order()
            } else {
                old(self).order().push(pos)
            }),
    {
        match self.index.get(&pos) {
            Some(i) => {
                let mut value = value;
                std::mem::swap(&mut self.slots[i as usize].value, &mut value);
                proof {
                    assert(self.order() =~= old(self).order());
                    assert(self@ =~= old(self)@.insert(pos, self.slots[i as int].value));
                }
                Some(value)
            },
            None => {
                let n = self.slots.len();
                self.index.insert(pos, n as u64);
                self.slots.push(Slot { pos, value });
                proof {
                    assert(self.order() =~= old(self).order().push(pos));
                    assert(self@ =~= old(self)@.insert(pos, value));
                }
                None
            },
        }
    }

    /// Takes `pos` out and returns what it had. The last position of the order
    /// moves to the place that `pos` leaves.
    pub fn remove(&mut self, pos: &ChunkPos) -> (r: Option<V>)
        requires
            old(self).wf(),
        ensures
            final(self).wf(),
            final(self)@ == old(self)@.remove(*pos),
            r == (if old(self)@.contains_key(*pos) {
                Some(old(self)@[*pos])
            } else {
                None
            }),
            final(self).order() == order_without(old(self).order(), *pos),
    {
        proof {
            self.lemma_order();
        }
        match self.index.remove(pos) {
            Some(i) => {
                let last = self.slots.len() - 1;
                let slot = self.slots.swap_remove(i as usize);
                if (i as usize) < last {
                    let moved = self.slots[i as usize].pos;
                    self.index.insert(moved, i);
                }
                proof {
                    assert forall|j: int| 0 <= j < self.slots.len()
                        implies self.index@.contains_key(
                        (#[trigger] self.slots[j]).pos,
                    ) && self.index@[self.slots[j].pos] == j by {
                        if j == i {
                        } else {
                            assert(self.slots[j] == old(self).slots[j]);
                            assert(old(self).index@[old(self).slots[j].pos] == j);
                        }
                    }
                    assert forall|p: ChunkPos| #[trigger]
                        self.index@.contains_key(p) implies self.index@[p] < self.slots.len()
                        && self.slots[self.index@[p] as int].pos == p by {
                        if i < last && p == old(self).slots[last as int].pos {
                        } else {
                            assert(old(self).index@.contains_key(p));
                            let k = old(self).index@[p];
                            assert(old(self).slots[k as int].pos == p);
                            if k == last {
                                assert(old(self).index@[old(self).slots[last as int].pos] == last);
                            }
                        }
                    }
                    assert forall|p: ChunkPos| #[trigger]
                        self@.contains_key(p) implies self@[p] == old(self)@[p] by {
                        assert(old(self).index@.contains_key(p));
                        let k = old(self).index@[p];
                        if i < last && p == old(self).slots[last as int].pos {
                            assert(old(self).index@[old(self).slots[last as int].pos] == last);
                        } else {
                            if k == last {
                                assert(old(self).index@[old(self).slots[last as int].pos] == last);
                            }
                        }
                    }
                    assert(self@ =~= old(self)@.remove(*pos));
                    let o = old(self).order();
                    assert(o[i as int] == *pos);
                    let at = choose|k: int| 0 <= k < o.len() && o[k] == *pos;
                    assert(at == i);
                    assert(self.order() =~= o.update(i as int, o.last()).drop_last());
                }
                Some(slot.value)
            },
            None => {
                proof {
                    assert(self@ =~= old(self)@.remove(*pos));
                    assert(!old(self).order().contains(*pos));
                }
                None
            },
        }
    }

    /// Every position of the map, in order.
    pub fn keys(&self) -> (r: Vec<ChunkPos>)
        ensures
            r@ == self.order(),
    {
        let mut out: Vec<ChunkPos> = Vec::new();
        let mut i: usize = 0;
        while i < self.slots.len()
            invariant
                i <= self.slots.len(),
                out.len() == i,
                forall|j: int| 0 <= j < i ==> out[j] == self.slots[j].pos,
            decreases self.slots.len() - i,
        {
            out.push(self.slots[i].pos);
            i = i + 1;
        }
        assert(out@ =~= self.order());
        out
    }
}

} // verus!
