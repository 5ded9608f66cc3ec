//! The hash tables of the server: by chunk position, by connection and by
//! player.

use crate::chunk::ChunkState;
use crate::network::ConnectionId;
use crate::player::PlayerId;
use crate::pos::ChunkPos;
use vstd::prelude::*;

verus! {

/// What a table holds: the number stored under each chunk position that has one.
pub uninterp spec fn table_contents(t: PosTable) -> Map<ChunkPos, u64>;

/// A hash table from chunk positions to numbers.
///
/// The table is a `hashbrown::HashMap` whose keys are the three coordinates of a
/// position. Verus does not look inside it: what is known of a table is what
/// the functions below state of [`table_contents`].
#[verifier::external_body]
pub struct PosTable {
    inner: hashbrown::HashMap<(i64, i64, i64), u64>,
}

/// Calls `hashbrown::HashMap::new`, which makes an empty map.
#[verifier::external_body]
fn table_new() -> (t: PosTable)
    ensures
        table_contents(t) == (Map::<ChunkPos, u64>::empty()),
{
    PosTable { inner: hashbrown::HashMap::new() }
}

/// Calls `hashbrown::HashMap::get`, which returns the value stored under the key,
/// if there is one, and copies the number out of the reference.
#[verifier::external_body]
fn table_get(t: &PosTable, k: &ChunkPos) -> (r: Option<u64>)
    ensures
        r == (if table_contents(*t).dom().contains(*k) {
            Some(table_contents(*t)[*k])
        } else {
            None
        }),
{
    t.inner.get(&(k.x, k.y, k.z)).copied()
}

/// Calls `hashbrown::HashMap::insert`, which stores the value under the key and
/// returns the value that the key had before, if it had one. Other keys keep
/// their values.
#[verifier::external_body]
fn table_insert(t: &mut PosTable, k: ChunkPos, v: u64) -> (r: Option<u64>)
    ensures
        table_contents(*final(t)) == table_contents(*old(t)).insert(k, v),
        r == (if table_contents(*old(t)).dom().contains(k) {
            Some(table_contents(*old(t))[k])
        } else {
            None
        }),
{
    t.inner.insert((k.x, k.y, k.z), v)
}

/// Calls `hashbrown::HashMap::remove`, which takes the key out of the map and
/// returns the value it had, if it had one. Other keys keep their values.
#[verifier::external_body]
fn table_remove(t: &mut PosTable, k: &ChunkPos) -> (r: Option<u64>)
    ensures
        table_contents(*final(t)) == table_contents(*old(t)).remove(*k),
        r == (if table_contents(*old(t)).dom().contains(*k) {
            Some(table_contents(*old(t))[*k])
        } else {
            None
        }),
{
    t.inner.remove(&(k.x, k.y, k.z))
}

/// Calls `hashbrown::HashMap::keys` and collects what it yields: every key of the
/// map once, in an order that the map does not promise.
#[verifier::external_body]
fn table_keys(t: &PosTable) -> (r: Vec<ChunkPos>)
    ensures
        r@.no_duplicates(),
        r@.to_set() == table_contents(*t).dom(),
{
    t.inner.keys().map(|k| ChunkPos { x: k.0, y: k.1, z: k.2 }).collect()
}

impl View for PosTable {
    type V = Map<ChunkPos, u64>;

    open spec fn view(&self) -> Map<ChunkPos, u64> {
        table_contents(*self)
    }
}

impl PosTable {
    /// An empty table.
    pub fn new() -> (t: PosTable)
        ensures
            t@ == Map::<ChunkPos, u64>::empty(),
    {
        table_new()
    }

    /// The number stored under `k`.
    pub fn get(&self, k: &ChunkPos) -> (r: Option<u64>)
        ensures
            r == (if self@.contains_key(*k) {
                Some(self@[*k])
            } else {
                None
            }),
    {
        table_get(self, k)
    }

    pub fn contains_key(&self, k: &ChunkPos) -> (r: bool)
        ensures
            r == self@.contains_key(*k),
    {
        table_get(self, k).is_some()
    }

    /// Stores `v` under `k` and returns what `k` had before.
    pub fn insert(&mut self, k: ChunkPos, v: u64) -> (r: Option<u64>)
        ensures
            final(self)@ == old(self)@.insert(k, v),
            r == (if old(self)@.contains_key(k) {
                Some(old(self)@[k])
            } else {
                None
            }),
    {
        table_insert(self, k, v)
    }

    /// Takes `k` out and returns what it had.
    pub fn remove(&mut self, k: &ChunkPos) -> (r: Option<u64>)
        ensures
            final(self)@ == old(self)@.remove(*k),
            r == (if old(self)@.contains_key(*k) {
                Some(old(self)@[*k])
            } else {
                None
            }),
    {
        table_remove(self, k)
    }

    /// Every position that has a number, once each, in no promised order.
    pub fn keys(&self) -> (r: Vec<ChunkPos>)
        ensures
            r@.no_duplicates(),
            r@.to_set() == self@.dom(),
    {
        table_keys(self)
    }

    /// Drops every position that `keep` refuses; the others keep their numbers.
    pub fn retain<F: Fn(&ChunkPos, u64) -> bool>(&mut self, keep: F)
        requires
            forall|k: ChunkPos, v: u64| call_requires(keep, (&k, v)),
        ensures
            forall|k: ChunkPos| #[trigger]
                final(self)@.contains_key(k) ==> old(self)@.contains_key(k) && final(self)@[k]
                    == old(self)@[k] && call_ensures(keep, (&k, old(self)@[k]), true),
            forall|k: ChunkPos|
                old(self)@.contains_key(k) && !(#[trigger] final(self)@.contains_key(k))
                    ==> call_ensures(keep, (&k, old(self)@[k]), false),
    {
        let keys = self.keys();
        let mut i: usize = 0;
        while i < keys.len()
            invariant
                i <= keys.len(),
                keys@.no_duplicates(),
                keys@.to_set() == old(self)@.dom(),
                forall|k: ChunkPos, v: u64| call_requires(keep, (&k, v)),
                forall|k: ChunkPos| #[trigger]
                    self@.contains_key(k) ==> old(self)@.contains_key(k) && self@[k] == old(
                        self,
                    )@[k],
                forall|j: int|
                    0 <= j < i && self@.contains_key(#[trigger] keys[j]) ==> call_ensures(
                        keep,
                        (&keys[j], old(self)@[keys[j]]),
                        true,
                    ),
                forall|j: int|
                    0 <= j < i && !self@.contains_key(#[trigger] keys[j]) ==> call_ensures(
                        keep,
                        (&keys[j], old(self)@[keys[j]]),
                        false,
                    ),
                forall|j: int| i <= j < keys.len() ==> self@.contains_key(#[trigger] keys[j]),
            decreases keys.len() - i,
        {
            let k = keys[i];
            assert(keys@.to_set().contains(k));
            let v = match self.get(&k) {
                Some(v) => v,
                None => 0,
            };
            if !keep(&k, v) {
                self.remove(&k);
            }
            i = i + 1;
        }
        proof {
            assert forall|k: ChunkPos| #[trigger]
                self@.contains_key(k) implies call_ensures(keep, (&k, old(self)@[k]), true) by {
                assert(keys@.to_set().contains(k));
                let j = choose|j: int| 0 <= j < keys.len() && keys[j] == k;
                assert(self@.contains_key(keys[j]));
            }
            assert forall|k: ChunkPos|
                old(self)@.contains_key(k) && !(#[trigger] self@.contains_key(
                    k,
                )) implies call_ensures(keep, (&k, old(self)@[k]), false) by {
                assert(keys@.to_set().contains(k));
                let j = choose|j: int| 0 <= j < keys.len() && keys[j] == k;
                assert(!self@.contains_key(keys[j]));
            }
        }
    }
}

/// What a table of chunks holds: the state stored at each chunk position that
/// has one.
pub uninterp spec fn chunk_table_contents(t: ChunkTable) -> Map<ChunkPos, ChunkState>;

/// A hash table from chunk positions to chunk states.
///
/// The table is a `hashbrown::HashMap` whose keys are the three coordinates of a
/// position. Verus does not look inside it: what is known of a table is what
/// the functions below state of [`chunk_table_contents`].
#[verifier::external_body]
pub struct ChunkTable {
    inner: hashbrown::HashMap<(i64, i64, i64), ChunkState>,
}

/// Calls `hashbrown::HashMap::new`, which makes an empty map.
#[verifier::external_body]
fn chunk_table_new() -> (t: ChunkTable)
    ensures
        chunk_table_contents(t) == (Map::<ChunkPos, ChunkState>::empty()),
{
    ChunkTable { inner: hashbrown::HashMap::new() }
}

/// Calls `hashbrown::HashMap::len`, which returns the number of keys of the map.
#[verifier::external_body]
fn chunk_table_len(t: &ChunkTable) -> (r: usize)
    requires
        chunk_table_contents(*t).dom().finite(),
    ensures
        r == chunk_table_contents(*t).dom().len(),
{
    t.inner.len()
}

/// Calls `hashbrown::HashMap::get`, which returns a reference to the value
/// stored under the key, if there is one.
#[verifier::external_body]
fn chunk_table_get<'a>(t: &'a ChunkTable, k: &ChunkPos) -> (r: Option<&'a ChunkState>)
    ensures
        r is Some <==> chunk_table_contents(*t).dom().contains(*k),
        r matches Some(v) ==> *v == chunk_table_contents(*t)[*k],
{
    t.inner.get(&(k.x, k.y, k.z))
}

/// Calls `hashbrown::HashMap::get_mut`, which returns a mutable reference to
/// the value stored under the key, if there is one. What is written through
/// the reference is the key's value from then on; nothing else changes.
#[verifier::external_body]
fn chunk_table_get_mut<'a>(t: &'a mut ChunkTable, k: &ChunkPos) -> (r: Option<&'a mut ChunkState>)
    ensures
        r is Some <==> chunk_table_contents(*old(t)).dom().contains(*k),
        r is None ==> chunk_table_contents(*final(t)) == chunk_table_contents(*old(t)),
        r matches Some(v) ==> *v == chunk_table_contents(*old(t))[*k] && chunk_table_contents(
            *final(t),
        ) == chunk_table_contents(*old(t)).insert(*k, *final(v)),
{
    t.inner.get_mut(&(k.x, k.y, k.z))
}

/// Calls `hashbrown::HashMap::insert`, which stores the value under the key and
/// returns the value that the key had before, if it had one. Other keys keep
/// their values.
#[verifier::external_body]
fn chunk_table_insert(t: &mut ChunkTable, k: ChunkPos, v: ChunkState) -> (r: Option<ChunkState>)
    ensures
        chunk_table_contents(*final(t)) == chunk_table_contents(*old(t)).insert(k, v),
        r == (if chunk_table_contents(*old(t)).dom().contains(k) {
            Some(chunk_table_contents(*old(t))[k])
        } else {
            None
        }),
{
    t.inner.insert((k.x, k.y, k.z), v)
}

/// Calls `hashbrown::HashMap::remove`, which takes the key out of the map and
/// returns the value it had, if it had one. Other keys keep their values.
#[verifier::external_body]
fn chunk_table_remove(t: &mut ChunkTable, k: &ChunkPos) -> (r: Option<ChunkState>)
    ensures
        chunk_table_contents(*final(t)) == chunk_table_contents(*old(t)).remove(*k),
        r == (if chunk_table_contents(*old(t)).dom().contains(*k) {
            Some(chunk_table_contents(*old(t))[*k])
        } else {
            None
        }),
{
    t.inner.remove(&(k.x, k.y, k.z))
}

/// Calls `hashbrown::HashMap::keys` and collects what it yields: every key of the
/// map once, in an order that the map does not promise.
#[verifier::external_body]
fn chunk_table_keys(t: &ChunkTable) -> (r: Vec<ChunkPos>)
    ensures
        r@.no_duplicates(),
        r@.to_set() == chunk_table_contents(*t).dom(),
{
    t.inner.keys().map(|k| ChunkPos { x: k.0, y: k.1, z: k.2 }).collect()
}

impl View for ChunkTable {
    type V = Map<ChunkPos, ChunkState>;

    open spec fn view(&self) -> Map<ChunkPos, ChunkState> {
        chunk_table_contents(*self)
    }
}

impl ChunkTable {
    /// An empty table.
    pub fn new() -> (t: ChunkTable)
        ensures
            t@ == Map::<ChunkPos, ChunkState>::empty(),
    {
        chunk_table_new()
    }

    /// Number of positions that have a state.
    pub fn len(&self) -> (r: usize)
        requires
            self@.dom().finite(),
        ensures
            r == self@.len(),
    {
        chunk_table_len(self)
    }

    /// The state stored at `k`.
    pub fn get(&self, k: &ChunkPos) -> (r: Option<&ChunkState>)
        ensures
            r is Some <==> self@.contains_key(*k),
            r matches Some(v) ==> *v == self@[*k],
    {
        chunk_table_get(self, k)
    }

    /// The state stored at `k`, to be changed in place.
    pub fn get_mut(&mut self, k: &ChunkPos) -> (r: Option<&mut ChunkState>)
        ensures
            r is Some <==> old(self)@.contains_key(*k),
            r is None ==> final(self)@ == old(self)@,
            r matches Some(v) ==> *v == old(self)@[*k] && final(self)@ == old(self)@.insert(
                *k,
                *final(v),
            ),
    {
        chunk_table_get_mut(self, k)
    }

    /// Whether a state is stored at `k`.
    pub fn contains_key(&self, k: &ChunkPos) -> (r: bool)
        ensures
            r == self@.contains_key(*k),
    {
        chunk_table_get(self, k).is_some()
    }

    /// Stores `v` at `k` and returns what `k` had before.
    pub fn insert(&mut self, k: ChunkPos, v: ChunkState) -> (r: Option<ChunkState>)
        ensures
            final(self)@ == old(self)@.insert(k, v),
            r == (if old(self)@.contains_key(k) {
                Some(old(self)@[k])
            } else {
                None
            }),
    {
        chunk_table_insert(self, k, v)
    }

    /// Takes `k` out and returns what it had.
    pub fn remove(&mut self, k: &ChunkPos) -> (r: Option<ChunkState>)
        ensures
            final(self)@ == old(self)@.remove(*k),
            r == (if old(self)@.contains_key(*k) {
                Some(old(self)@[*k])
            } else {
                None
            }),
    {
        chunk_table_remove(self, k)
    }

    /// Every position that has a state, once each, in no promised order.
    pub fn keys(&self) -> (r: Vec<ChunkPos>)
        ensures
            r@.no_duplicates(),
            r@.to_set() == self@.dom(),
    {
        chunk_table_keys(self)
    }
}

/// What a table of connections holds: the player that each connection steers.
pub uninterp spec fn link_table_contents(t: LinkTable) -> Map<ConnectionId, PlayerId>;

/// A hash table from connections to the players they steer.
///
/// The table is a `hashbrown::HashMap`. Verus does not look inside it: what is
/// known of a table is what the functions below state of
/// [`link_table_contents`].
#[verifier::external_body]
pub struct LinkTable {
    inner: hashbrown::HashMap<ConnectionId, PlayerId>,
}

/// Whether `order` names every connection of `links` once, each with its
/// player.
pub open spec fn lists_links(
    order: Seq<(ConnectionId, PlayerId)>,
    links: Map<ConnectionId, PlayerId>,
) -> bool {
    &&& forall|i: int|
        0 <= i < order.len() ==> links.contains_key((#[trigger] order[i]).0) && links[order[i].0]
            == order[i].1
    &&& forall|i: int, j: int|
        0 <= i < j < order.len() ==> (#[trigger] order[i]).0 != (#[trigger] order[j]).0
    &&& forall|id: ConnectionId| #[trigger]
        links.contains_key(id) ==> exists|i: int|
            0 <= i < order.len() && (#[trigger] order[i]).0 == id
}

/// Calls `hashbrown::HashMap::new`, which makes an empty map.
#[verifier::external_body]
fn link_table_new() -> (t: LinkTable)
    ensures
        link_table_contents(t) == (Map::<ConnectionId, PlayerId>::empty()),
{
    LinkTable { inner: hashbrown::HashMap::new() }
}

/// Calls `hashbrown::HashMap::get`, which returns the value stored under the key,
/// if there is one, and copies the player id out of the reference.
#[verifier::external_body]
fn link_table_get(t: &LinkTable, k: ConnectionId) -> (r: Option<PlayerId>)
    ensures
        r == (if link_table_contents(*t).dom().contains(k) {
            Some(link_table_contents(*t)[k])
        } else {
            None
        }),
{
    t.inner.get(&k).copied()
}

/// Calls `hashbrown::HashMap::insert`, which stores the value under the key and
/// returns the value that the key had before, if it had one. Other keys keep
/// their values.
#[verifier::external_body]
fn link_table_insert(t: &mut LinkTable, k: ConnectionId, v: PlayerId) -> (r: Option<PlayerId>)
    ensures
        link_table_contents(*final(t)) == link_table_contents(*old(t)).insert(k, v),
        r == (if link_table_contents(*old(t)).dom().contains(k) {
            Some(link_table_contents(*old(t))[k])
        } else {
            None
        }),
{
    t.inner.insert(k, v)
}

/// Calls `hashbrown::HashMap::remove`, which takes the key out of the map and
/// returns the value it had, if it had one. Other keys keep their values.
#[verifier::external_body]
fn link_table_remove(t: &mut LinkTable, k: ConnectionId) -> (r: Option<PlayerId>)
    ensures
        link_table_contents(*final(t)) == link_table_contents(*old(t)).remove(k),
        r == (if link_table_contents(*old(t)).dom().contains(k) {
            Some(link_table_contents(*old(t))[k])
        } else {
            None
        }),
{
    t.inner.remove(&k)
}

/// Calls `hashbrown::HashMap::iter` and collects what it yields: every key of
/// the map once, with its value, in an order that the map does not promise.
#[verifier::external_body]
fn link_table_entries(t: &LinkTable) -> (r: Vec<(ConnectionId, PlayerId)>)
    ensures
        lists_links(r@, link_table_contents(*t)),
{
    t.inner.iter().map(|(k, v)| (*k, *v)).collect()
}

impl View for LinkTable {
    type V = Map<ConnectionId, PlayerId>;

    open spec fn view(&self) -> Map<ConnectionId, PlayerId> {
        link_table_contents(*self)
    }
}

impl LinkTable {
    /// An empty table.
    pub fn new() -> (t: LinkTable)
        ensures
            t@ == Map::<ConnectionId, PlayerId>::empty(),
    {
        link_table_new()
    }

    /// The player that connection `k` steers.
    pub fn get(&self, k: ConnectionId) -> (r: Option<PlayerId>)
        ensures
            r == (if self@.contains_key(k) {
                Some(self@[k])
            } else {
                None
            }),
    {
        link_table_get(self, k)
    }

    /// Lets connection `k` steer player `v` and returns the player it steered
    /// before.
    pub fn insert(&mut self, k: ConnectionId, v: PlayerId) -> (r: Option<PlayerId>)
        ensures
            final(self)@ == old(self)@.insert(k, v),
            r == (if old(self)@.contains_key(k) {
                Some(old(self)@[k])
            } else {
                None
            }),
    {
        link_table_insert(self, k, v)
    }

    /// Takes connection `k` out and returns the player it steered.
    pub fn remove(&mut self, k: ConnectionId) -> (r: Option<PlayerId>)
        ensures
            final(self)@ == old(self)@.remove(k),
            r == (if old(self)@.contains_key(k) {
                Some(old(self)@[k])
            } else {
                None
            }),
    {
        link_table_remove(self, k)
    }

    /// Every connection once, with its player, in no promised order.
    pub fn entries(&self) -> (r: Vec<(ConnectionId, PlayerId)>)
        ensures
            lists_links(r@, self@),
    {
        link_table_entries(self)
    }
}

/// What a table of ledgers holds: for each player that has a ledger, by the
/// player's place, what the ledger holds.
pub uninterp spec fn ledger_table_contents(t: LedgerTable) -> Map<usize, Map<ChunkPos, u64>>;

/// A hash table from players, by their place, to their ledgers.
///
/// The table is a `hashbrown::HashMap` whose values are tables themselves.
/// Verus does not look inside it: what is known of a table is what the
/// functions below state of [`ledger_table_contents`].
#[verifier::external_body]
pub struct LedgerTable {
    inner: hashbrown::HashMap<usize, PosTable>,
}

/// Calls `hashbrown::HashMap::new`, which makes an empty map.
#[verifier::external_body]
fn ledger_table_new() -> (t: LedgerTable)
    ensures
        ledger_table_contents(t) == (Map::<usize, Map<ChunkPos, u64>>::empty()),
{
    LedgerTable { inner: hashbrown::HashMap::new() }
}

/// Calls `hashbrown::HashMap::get`, which returns a reference to the value
/// stored under the key, if there is one.
#[verifier::external_body]
fn ledger_table_get<'a>(t: &'a LedgerTable, k: usize) -> (r: Option<&'a PosTable>)
    ensures
        r is Some <==> ledger_table_contents(*t).dom().contains(k),
        r matches Some(v) ==> table_contents(*v) == ledger_table_contents(*t)[k],
{
    t.inner.get(&k)
}

/// Calls `hashbrown::HashMap::get_mut`, which returns a mutable reference to
/// the value stored under the key, if there is one. What is written through
/// the reference is the key's value from then on; nothing else changes.
#[verifier::external_body]
fn ledger_table_get_mut<'a>(t: &'a mut LedgerTable, k: usize) -> (r: Option<&'a mut PosTable>)
    ensures
        r is Some <==> ledger_table_contents(*old(t)).dom().contains(k),
        r is None ==> ledger_table_contents(*final(t)) == ledger_table_contents(*old(t)),
        r matches Some(v) ==> table_contents(*v) == ledger_table_contents(*old(t))[k]
            && ledger_table_contents(*final(t)) == ledger_table_contents(*old(t)).insert(
            k,
            table_contents(*final(v)),
        ),
{
    t.inner.get_mut(&k)
}

/// Calls `hashbrown::HashMap::insert`, which stores the value under the key and
/// returns the value that the key had before, if it had one. Other keys keep
/// their values.
#[verifier::external_body]
fn ledger_table_insert(t: &mut LedgerTable, k: usize, v: PosTable) -> (r: Option<PosTable>)
    ensures
        ledger_table_contents(*final(t)) == ledger_table_contents(*old(t)).insert(
            k,
            table_contents(v),
        ),
        r is Some <==> ledger_table_contents(*old(t)).dom().contains(k),
        r matches Some(o) ==> table_contents(o) == ledger_table_contents(*old(t))[k],
{
    t.inner.insert(k, v)
}

/// Calls `hashbrown::HashMap::remove`, which takes the key out of the map and
/// returns the value it had, if it had one. Other keys keep their values.
#[verifier::external_body]
fn ledger_table_remove(t: &mut LedgerTable, k: usize) -> (r: Option<PosTable>)
    ensures
        ledger_table_contents(*final(t)) == ledger_table_contents(*old(t)).remove(k),
        r is Some <==> ledger_table_contents(*old(t)).dom().contains(k),
        r matches Some(o) ==> table_contents(o) == ledger_table_contents(*old(t))[k],
{
    t.inner.remove(&k)
}

impl View for LedgerTable {
    type V = Map<usize, Map<ChunkPos, u64>>;

    open spec fn view(&self) -> Map<usize, Map<ChunkPos, u64>> {
        ledger_table_contents(*self)
    }
}

impl LedgerTable {
    /// An empty table.
    pub fn new() -> (t: LedgerTable)
        ensures
            t@ == Map::<usize, Map<ChunkPos, u64>>::empty(),
    {
        ledger_table_new()
    }

    /// The ledger of the player at place `k`.
    pub fn get(&self, k: usize) -> (r: Option<&PosTable>)
        ensures
            r is Some <==> self@.contains_key(k),
            r matches Some(v) ==> v@ == self@[k],
    {
        ledger_table_get(self, k)
    }

    /// The ledger of the player at place `k`, to be changed in place.
    pub fn get_mut(&mut self, k: usize) -> (r: Option<&mut PosTable>)
        ensures
            r is Some <==> old(self)@.contains_key(k),
            r is None ==> final(self)@ == old(self)@,
            r matches Some(v) ==> v@ == old(self)@[k] && final(self)@ == old(self)@.insert(
                k,
                final(v)@,
            ),
    {
        ledger_table_get_mut(self, k)
    }

    /// Gives the player at place `k` the ledger `v` and returns the ledger that
    /// the player had before.
    pub fn insert(&mut self, k: usize, v: PosTable) -> (r: Option<PosTable>)
        ensures
            final(self)@ == old(self)@.insert(k, v@),
            r is Some <==> old(self)@.contains_key(k),
            r matches Some(o) ==> o@ == old(self)@[k],
    {
        ledger_table_insert(self, k, v)
    }

    /// Takes the ledger of the player at place `k` out and returns it.
    pub fn remove(&mut self, k: usize) -> (r: Option<PosTable>)
        ensures
            final(self)@ == old(self)@.remove(k),
            r is Some <==> old(self)@.contains_key(k),
            r matches Some(o) ==> o@ == old(self)@[k],
    {
        ledger_table_remove(self, k)
    }
}

} // verus!
