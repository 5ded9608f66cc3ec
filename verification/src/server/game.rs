//! The game is the authority over the world. It takes in what players do and
//! what the world generator makes, serves every player in turn, and forgets
//! the chunks that nobody needs.

use crate::chunk::{Chunk, ChunkState};
use crate::map::ChunkMap;
use crate::messages::server::{ToGame, ToGamePlayer, ToNetwork, ToWorldgen};
use crate::network::ConnectionId;
use crate::player::{Player, PlayerId, PlayerSet};
use crate::pos::{can_hold_cube, cube_fits, in_reach, BlockPos, ChunkPos, SubIndex};
use crate::server::stream::{
    chunks_after_pass, ledger_after_pass, requests_of_pass, sends_of_pass,
    stream_to_player, version_in,
};
use crate::sim::{ticks_made, World};
use crate::table::{lists_links, LedgerTable, LinkTable, PosTable};
use vstd::prelude::*;

verus! {

/// The state of the game: the world's chunks, the players, the player that
/// each connection steers, and the ledger of each connected player: for each
/// chunk that the player was sent, the version sent.
pub struct GameImpl {
    world: World,
    connections: LinkTable,
    player_chunks: LedgerTable,
    spawn: BlockPos,
}

/// Whether one pass for the player on connection `conn`, who stands in chunk
/// `center` and is served up to distance `d`, leads from the chunks and the
/// ledger before to those after, and sends `msgs` and asks for `reqs`.
pub open spec fn pass_made(
    conn: ConnectionId,
    center: ChunkPos,
    d: int,
    chunks_before: Map<ChunkPos, ChunkState>,
    chunks_after: Map<ChunkPos, ChunkState>,
    ledger_before: Map<ChunkPos, u64>,
    ledger_after: Map<ChunkPos, u64>,
    msgs: Seq<ToNetwork>,
    reqs: Seq<ToWorldgen>,
) -> bool {
    &&& chunks_after_pass(chunks_before, chunks_after, center, d)
    &&& ledger_after_pass(ledger_before, ledger_after, chunks_before, center, d)
    &&& sends_of_pass(msgs, conn, ledger_before, chunks_before, center, d)
    &&& requests_of_pass(reqs, chunks_before, center, d)
}

/// Whether serving the connections of `before` one after the other, in the
/// order `order`, leads to `after` and sends `net` and asks for `gen`. `mids`
/// are the chunks before and after each pass, and `ncuts` and `wcuts` say where
/// in `net` and `gen` the messages of each pass begin and end.
pub open spec fn passes_made(
    before: GameImpl,
    after: GameImpl,
    order: Seq<(ConnectionId, PlayerId)>,
    net: Seq<ToNetwork>,
    gen: Seq<ToWorldgen>,
    mids: Seq<Map<ChunkPos, ChunkState>>,
    ncuts: Seq<int>,
    wcuts: Seq<int>,
) -> bool {
    let n = order.len() as int;
    &&& lists_links(order, before.links_spec())
    &&& mids.len() == n + 1
    &&& ncuts.len() == n + 1
    &&& wcuts.len() == n + 1
    &&& mids[0] == before.chunks_spec()
    &&& mids[n] == after.chunks_spec()
    &&& ncuts[0] == 0
    &&& ncuts[n] == net.len()
    &&& wcuts[0] == 0
    &&& wcuts[n] == gen.len()
    &&& forall|i: int|
        0 <= i < n ==> 0 <= #[trigger] ncuts[i] <= ncuts[i + 1] <= net.len() && 0 <= wcuts[i]
            <= wcuts[i + 1] <= gen.len() && pass_made(
            order[i].0,
            before.center_of(order[i].1),
            before.reach_of(order[i].1),
            mids[i],
            mids[i + 1],
            before.ledger_spec(order[i].1),
            after.ledger_spec(order[i].1),
            net.subrange(ncuts[i], ncuts[i + 1]),
            gen.subrange(wcuts[i], wcuts[i + 1]),
        )
}

impl GameImpl {
    /// The chunks of the world.
    pub closed spec fn chunks_spec(&self) -> Map<ChunkPos, ChunkState> {
        self.world.chunks@
    }

    /// The chunk map of the world.
    pub closed spec fn world_spec(&self) -> ChunkMap {
        self.world.chunks
    }

    /// The chunks edited since the last broadcast.
    pub closed spec fn hot_spec(&self) -> Set<ChunkPos> {
        self.world.chunks.hot_spec()
    }

    /// The players of the world.
    pub closed spec fn players_spec(&self) -> Seq<Player> {
        self.world.players@
    }

    /// The player that each connection steers.
    pub closed spec fn links_spec(&self) -> Map<ConnectionId, PlayerId> {
        self.connections@
    }

    /// The ledgers, by the place of the player.
    pub closed spec fn ledgers_spec(&self) -> Map<usize, Map<ChunkPos, u64>> {
        self.player_chunks@
    }

    /// Whether player `p` has a ledger.
    pub open spec fn has_ledger(&self, p: PlayerId) -> bool {
        self.ledgers_spec().contains_key(p.index_spec() as usize)
    }

    /// The ledger of player `p`.
    pub open spec fn ledger_spec(&self, p: PlayerId) -> Map<ChunkPos, u64> {
        self.ledgers_spec()[p.index_spec() as usize]
    }

    /// Where new players appear.
    pub closed spec fn spawn_spec(&self) -> BlockPos {
        self.spawn
    }

    /// Number of ticks so far.
    pub closed spec fn ticks_spec(&self) -> u64 {
        self.world.ticks
    }

    /// The chunk in which player `p` stands.
    pub open spec fn center_of(&self, p: PlayerId) -> ChunkPos {
        self.players_spec()[p.index_spec()].pos.high_spec()
    }

    /// The distance up to which player `p` is served: the player's render
    /// distance.
    pub open spec fn reach_of(&self, p: PlayerId) -> int {
        self.players_spec()[p.index_spec()].render_distance as int
    }

    /// Whether the chunks within reach of each connected player can be listed in
    /// a vector: their number, the cube of twice the render distance plus one,
    /// is a `usize`.
    pub open spec fn servable(&self) -> bool {
        forall|id: ConnectionId| #[trigger]
            self.links_spec().contains_key(id) ==> cube_fits(
                self.reach_of(self.links_spec()[id]),
            )
    }

    /// Whether connection `id` steers a player who has `p` within reach.
    pub open spec fn reaches(&self, id: ConnectionId, p: ChunkPos) -> bool {
        self.links_spec().contains_key(id) && in_reach(
            self.center_of(self.links_spec()[id]),
            p,
            self.reach_of(self.links_spec()[id]),
        )
    }

    /// Whether some connected player has `p` within reach.
    pub open spec fn needed(&self, p: ChunkPos) -> bool {
        exists|id: ConnectionId| #[trigger] self.reaches(id, p)
    }

    /// The chunk map is consistent, every connection steers a player of the
    /// world who has a ledger, and no two connections steer the same player.
    pub closed spec fn wf(&self) -> bool {
        &&& self.world.chunks.wf()
        &&& forall|id: ConnectionId| #[trigger]
            self.connections@.contains_key(id) ==> 0 <= self.connections@[id].index_spec()
                < self.world.players@.len() && self.player_chunks@.contains_key(
                self.connections@[id].index_spec() as usize,
            )
        &&& forall|a: ConnectionId, b: ConnectionId|
            a != b && #[trigger] self.connections@.contains_key(a)
                && #[trigger] self.connections@.contains_key(b)
                ==> self.connections@[a].index_spec() != self.connections@[b].index_spec()
    }

    /// What follows from [`GameImpl::wf`] for the connections.
    pub proof fn lemma_wf(&self)
        requires
            self.wf(),
        ensures
            forall|id: ConnectionId| #[trigger]
                self.links_spec().contains_key(id) ==> 0 <= self.links_spec()[id].index_spec()
                    < self.players_spec().len() && self.has_ledger(self.links_spec()[id]),
            forall|a: ConnectionId, b: ConnectionId|
                a != b && #[trigger] self.links_spec().contains_key(a)
                    && #[trigger] self.links_spec().contains_key(b) ==> self.links_spec()[a]
                    != self.links_spec()[b],
    {
        assert forall|a: ConnectionId, b: ConnectionId|
            a != b && #[trigger] self.links_spec().contains_key(a)
                && #[trigger] self.links_spec().contains_key(b) implies self.links_spec()[a]
            != self.links_spec()[b] by {
            assert(self.connections@[a].index_spec() != self.connections@[b].index_spec());
        }
    }

    /// A game without chunks, players or connections.
    pub fn new(spawn: BlockPos) -> (r: GameImpl)
        ensures
            r.wf(),
            r.chunks_spec() == Map::<ChunkPos, ChunkState>::empty(),
            r.hot_spec() == Set::<ChunkPos>::empty(),
            r.players_spec() == Seq::<Player>::empty(),
            r.links_spec() == Map::<ConnectionId, PlayerId>::empty(),
            r.ledgers_spec() == Map::<usize, Map<ChunkPos, u64>>::empty(),
            r.spawn_spec() == spawn,
            r.ticks_spec() == 0,
    {
        GameImpl {
            world: World::new(),
            connections: LinkTable::new(),
            player_chunks: LedgerTable::new(),
            spawn,
        }
    }

    /// The chunks of the world.
    pub fn chunks(&self) -> (r: &ChunkMap)
        ensures
            r@ == self.chunks_spec(),
            r.hot_spec() == self.hot_spec(),
            self.wf() ==> r.wf(),
    {
        &self.world.chunks
    }

    /// Number of ticks so far.
    pub fn ticks(&self) -> (r: u64)
        ensures
            r == self.ticks_spec(),
    {
        self.world.ticks
    }

    /// The players of the world.
    pub fn players(&self) -> (r: &PlayerSet)
        ensures
            r@ == self.players_spec(),
    {
        &self.world.players
    }

    /// The player that connection `id` steers.
    pub fn player_of(&self, id: ConnectionId) -> (r: Option<PlayerId>)
        ensures
            r == (if self.links_spec().contains_key(id) {
                Some(self.links_spec()[id])
            } else {
                None
            }),
    {
        self.connections.get(id)
    }

    /// Every connection once, with its player, in no promised order.
    pub fn connection_list(&self) -> (r: Vec<(ConnectionId, PlayerId)>)
        ensures
            lists_links(r@, self.links_spec()),
    {
        self.connections.entries()
    }

    /// The ledger of player `p`.
    pub fn ledger_of(&self, p: PlayerId) -> (r: Option<&PosTable>)
        ensures
            r is Some <==> self.has_ledger(p),
            r matches Some(t) ==> t@ == self.ledger_spec(p),
    {
        self.player_chunks.get(p.index())
    }

    /// Whether some connected player has `pos` within reach.
    pub fn is_needed(&self, pos: ChunkPos) -> (r: bool)
        requires
            self.wf(),
        ensures
            r == self.needed(pos),
    {
        let entries = self.connections.entries();
        let mut i: usize = 0;
        while i < entries.len()
            invariant
                self.wf(),
                lists_links(entries@, self.connections@),
                i <= entries.len(),
                forall|j: int|
                    0 <= j < i ==> !self.reaches((#[trigger] entries[j]).0, pos),
            decreases entries.len() - i,
        {
            let who = entries[i].1;
            assert(self.connections@.contains_key(entries@[i as int].0));
            let player = self.world.players.get(who);
            let center = player.chunk_pos();
            if center.in_range(pos, player.render_distance) {
                assert(self.reaches(entries@[i as int].0, pos));
                return true;
            }
            i = i + 1;
        }
        proof {
            assert forall|id: ConnectionId| !(#[trigger] self.reaches(id, pos)) by {
                if self.links_spec().contains_key(id) {
                    let j = choose|j: int| 0 <= j < entries.len() && (#[trigger] entries[j]).0 == id;
                    assert(!self.reaches(entries[j].0, pos));
                }
            }
        }
        false
    }

    /// Whether [`GameImpl::send_chunks`] can serve every connected player.
    pub fn is_servable(&self) -> (r: bool)
        requires
            self.wf(),
        ensures
            r == self.servable(),
    {
        let entries = self.connections.entries();
        let mut i: usize = 0;
        while i < entries.len()
            invariant
                self.wf(),
                lists_links(entries@, self.connections@),
                i <= entries.len(),
                forall|j: int| 0 <= j < i ==> cube_fits(self.reach_of((#[trigger] entries[j]).1)),
            decreases entries.len() - i,
        {
            let who = entries[i].1;
            assert(self.connections@.contains_key(entries@[i as int].0));
            let player = self.world.players.get(who);
            if !can_hold_cube(player.render_distance) {
                assert(!cube_fits(self.reach_of(self.links_spec()[entries@[i as int].0])));
                return false;
            }
            i = i + 1;
        }
        proof {
            assert forall|id: ConnectionId| #[trigger]
                self.links_spec().contains_key(id) implies cube_fits(
                self.reach_of(self.links_spec()[id]),
            ) by {
                let j = choose|j: int| 0 <= j < entries.len() && (#[trigger] entries[j]).0 == id;
                assert(cube_fits(self.reach_of(entries[j].1)));
            }
        }
        true
    }
}

impl GameImpl {
    /// Whether `after` differs from `before` in the chunks and in what the
    /// ledgers hold at most.
    pub open spec fn same_cast(before: GameImpl, after: GameImpl) -> bool {
        &&& after.players_spec() == before.players_spec()
        &&& after.links_spec() == before.links_spec()
        &&& after.ledgers_spec().dom() == before.ledgers_spec().dom()
        &&& after.spawn_spec() == before.spawn_spec()
        &&& after.ticks_spec() == before.ticks_spec()
    }

    /// Whether the ledger of every player that no connection steers is in
    /// `after` what it was in `before`.
    pub open spec fn idle_ledgers_kept(before: GameImpl, after: GameImpl) -> bool {
        forall|p: PlayerId|
            (forall|id: ConnectionId| #[trigger]
                before.links_spec().contains_key(id) ==> before.links_spec()[id] != p)
                ==> #[trigger] after.ledger_spec(p) == before.ledger_spec(p)
    }

    /// Send chunks to the players, eventually generating them.
    ///
    /// Serves every connection in turn, as [`stream_to_player`] says, in the
    /// order in which the table of connections hands them out. Returns the
    /// chunks to send and the chunks to ask the world generator for. With that
    /// every edit so far has been looked at, and no chunk is hot any more.
    ///
    /// The one bound on the render distances is that of the machine:
    /// [`GameImpl::servable`], which [`GameImpl::is_servable`] tests.
    pub fn send_chunks(&mut self) -> (r: (Vec<ToNetwork>, Vec<ToWorldgen>))
        requires
            old(self).wf(),
            old(self).servable(),
        ensures
            final(self).wf(),
            GameImpl::same_cast(*old(self), *final(self)),
            GameImpl::idle_ledgers_kept(*old(self), *final(self)),
            final(self).hot_spec() == Set::<ChunkPos>::empty(),
            exists|order: Seq<(ConnectionId, PlayerId)>, mids: Seq<Map<ChunkPos, ChunkState>>,
                ncuts: Seq<int>, wcuts: Seq<int>| #[trigger]
                passes_made(*old(self), *final(self), order, r.0@, r.1@, mids, ncuts, wcuts),
    {
        let mut to_network: Vec<ToNetwork> = Vec::new();
        let mut to_worldgen: Vec<ToWorldgen> = Vec::new();
        let ghost mut mids: Seq<Map<ChunkPos, ChunkState>> = seq![self.world.chunks@];
        let ghost mut ncuts: Seq<int> = seq![0int];
        let ghost mut wcuts: Seq<int> = seq![0int];
        let ghost mut served: Set<usize> = Set::empty();
        let entries = self.connections.entries();
        let n = entries.len();
        let mut i: usize = 0;
        while i < n
            invariant
                i <= n,
                n == entries.len(),
                old(self).wf(),
                old(self).servable(),
                self.wf(),
                lists_links(entries@, old(self).connections@),
                self.connections == old(self).connections,
                self.world.players == old(self).world.players,
                self.spawn == old(self).spawn,
                self.world.ticks == old(self).world.ticks,
                self.world.chunks.hot_spec() == old(self).world.chunks.hot_spec(),
                self.player_chunks@.dom() == old(self).player_chunks@.dom(),
                forall|k: usize|
                    !served.contains(k) ==> #[trigger] self.player_chunks@[k] == old(
                        self,
                    ).player_chunks@[k],
                forall|k: usize| #[trigger]
                    served.contains(k) ==> exists|j: int|
                        0 <= j < i && (#[trigger] entries[j]).1.index_spec() == k,
                mids.len() == i + 1,
                ncuts.len() == i + 1,
                wcuts.len() == i + 1,
                mids[0] == old(self).world.chunks@,
                mids[i as int] == self.world.chunks@,
                ncuts[0] == 0,
                ncuts[i as int] == to_network@.len(),
                wcuts[0] == 0,
                wcuts[i as int] == to_worldgen@.len(),
                forall|j: int|
                    0 <= j < i ==> 0 <= #[trigger] ncuts[j] <= ncuts[j + 1] <= to_network@.len()
                        && 0 <= wcuts[j] <= wcuts[j + 1] <= to_worldgen@.len() && pass_made(
                        entries[j].0,
                        old(self).center_of(entries[j].1),
                        old(self).reach_of(entries[j].1),
                        mids[j],
                        mids[j + 1],
                        old(self).ledger_spec(entries[j].1),
                        self.ledger_spec(entries[j].1),
                        to_network@.subrange(ncuts[j], ncuts[j + 1]),
                        to_worldgen@.subrange(wcuts[j], wcuts[j + 1]),
                    ),
            decreases n - i,
        {
            let conn = entries[i].0;
            let who = entries[i].1;
            proof {
                who.lemma_index_bound();
                assert(self.connections@.contains_key(entries@[i as int].0));
                assert(cube_fits(old(self).reach_of(old(self).links_spec()[conn])));
                // No pass so far was for this player.
                if served.contains(who.index_spec() as usize) {
                    let j = choose|j: int|
                        0 <= j < i && (#[trigger] entries[j]).1.index_spec() == who.index_spec();
                    assert(self.connections@.contains_key(entries@[j].0));
                    assert(entries@[j].0 != entries@[i as int].0);
                }
            }
            let player = self.world.players.get(who);
            let center = player.chunk_pos();
            let render_distance = player.render_distance;
            let ghost net_before = to_network@;
            let ghost gen_before = to_worldgen@;
            let ghost ledgers_before = self.player_chunks@;
            let ghost mids_before = mids;
            let ghost ncuts_before = ncuts;
            let ghost wcuts_before = wcuts;
            let ghost served_before = served;
            match self.player_chunks.get_mut(who.index()) {
                Some(ledger) => {
                    stream_to_player(
                        &mut self.world.chunks,
                        ledger,
                        conn,
                        center,
                        render_distance,
                        &mut to_network,
                        &mut to_worldgen,
                    );
                },
                None => {},
            }
            proof {
                served = served.insert(who.index_spec() as usize);
                mids = mids.push(self.world.chunks@);
                ncuts = ncuts.push(to_network@.len() as int);
                wcuts = wcuts.push(to_worldgen@.len() as int);
                assert(self.player_chunks@.dom() =~= old(self).player_chunks@.dom());
                assert forall|k: usize| #[trigger] served.contains(k) implies exists|j: int|
                    0 <= j < i + 1 && (#[trigger] entries[j]).1.index_spec() == k by {
                    if served_before.contains(k) {
                        let j = choose|j: int|
                            0 <= j < i && (#[trigger] entries[j]).1.index_spec() == k;
                        assert(entries[j].1.index_spec() == k);
                    } else {
                        assert(entries[i as int].1.index_spec() == k);
                    }
                }
                assert forall|j: int| 0 <= j < i + 1 implies 0 <= #[trigger] ncuts[j] <= ncuts[j
                    + 1] <= to_network@.len() && 0 <= wcuts[j] <= wcuts[j + 1]
                    <= to_worldgen@.len() && pass_made(
                    entries[j].0,
                    old(self).center_of(entries[j].1),
                    old(self).reach_of(entries[j].1),
                    mids[j],
                    mids[j + 1],
                    old(self).ledger_spec(entries[j].1),
                    self.ledger_spec(entries[j].1),
                    to_network@.subrange(ncuts[j], ncuts[j + 1]),
                    to_worldgen@.subrange(wcuts[j], wcuts[j + 1]),
                ) by {
                    if j < i {
                        assert(ncuts[j] == ncuts_before[j]);
                        assert(ncuts[j + 1] == ncuts_before[j + 1]);
                        assert(wcuts[j] == wcuts_before[j]);
                        assert(wcuts[j + 1] == wcuts_before[j + 1]);
                        assert(mids[j] == mids_before[j]);
                        assert(mids[j + 1] == mids_before[j + 1]);
                        // The pass was for another player.
                        entries@[j].1.lemma_index_bound();
                        assert(self.connections@.contains_key(entries@[j].0));
                        assert(entries@[j].0 != entries@[i as int].0);
                        assert(entries@[j].1.index_spec() != who.index_spec());
                        assert(self.ledger_spec(entries@[j].1) == ledgers_before[entries@[j].1.index_spec() as usize]);
                        assert forall|t: int| 0 <= t < net_before.len() implies to_network@[t]
                            == net_before[t] by {
                            assert(to_network@.subrange(0, net_before.len() as int)[t]
                                == to_network@[t]);
                        }
                        assert forall|t: int| 0 <= t < gen_before.len() implies to_worldgen@[t]
                            == gen_before[t] by {
                            assert(to_worldgen@.subrange(0, gen_before.len() as int)[t]
                                == to_worldgen@[t]);
                        }
                        assert(to_network@.subrange(ncuts[j], ncuts[j + 1])
                            =~= net_before.subrange(ncuts[j], ncuts[j + 1]));
                        assert(to_worldgen@.subrange(wcuts[j], wcuts[j + 1])
                            =~= gen_before.subrange(wcuts[j], wcuts[j + 1]));
                    } else {
                        assert(mids[j] == mids_before[j]);
                        assert(ledgers_before[who.index_spec() as usize] == old(
                            self,
                        ).player_chunks@[who.index_spec() as usize]);
                    }
                }
                assert forall|id: ConnectionId| #[trigger]
                    self.connections@.contains_key(id) implies 0
                    <= self.connections@[id].index_spec() < self.world.players@.len()
                    && self.player_chunks@.contains_key(
                    self.connections@[id].index_spec() as usize,
                ) by {
                    assert(old(self).player_chunks@.dom().contains(
                        self.connections@[id].index_spec() as usize,
                    ));
                }
            }
            i = i + 1;
        }
        // What was edited has been looked at: nothing is hot any more.
        self.world.chunks.cool_all();
        let r = (to_network, to_worldgen);
        proof {
            assert(passes_made(*old(self), *self, entries@, r.0@, r.1@, mids, ncuts, wcuts));
            assert forall|p: PlayerId|
                (forall|id: ConnectionId| #[trigger]
                    old(self).links_spec().contains_key(id) ==> old(self).links_spec()[id]
                        != p) implies #[trigger] self.ledger_spec(p) == old(self).ledger_spec(
                p,
            ) by {
                p.lemma_index_bound();
                let k = p.index_spec() as usize;
                if served.contains(k) {
                    let j = choose|j: int|
                        0 <= j < n && (#[trigger] entries[j]).1.index_spec() == k;
                    entries[j].1.lemma_index_names(p);
                    assert(old(self).links_spec().contains_key(entries[j].0));
                }
            }
        }
        r
    }

    /// Remove chunks that are far from all players.
    ///
    /// A chunk stays where it was edited, or where some connected player has it
    /// within reach. Every other chunk is forgotten. The chunks that stay are not
    /// touched.
    pub fn garbage_collect(&mut self)
        requires
            old(self).wf(),
        ensures
            final(self).wf(),
            GameImpl::same_cast(*old(self), *final(self)),
            final(self).hot_spec() == old(self).hot_spec(),
            final(self).ledgers_spec() == old(self).ledgers_spec(),
            forall|p: ChunkPos| #[trigger]
                final(self).chunks_spec().contains_key(p) <==> old(self).chunks_spec().contains_key(
                    p,
                ) && (version_in(old(self).chunks_spec()[p]) > 0 || old(self).needed(p)),
            forall|p: ChunkPos|
                final(self).chunks_spec().contains_key(p)
                    ==> #[trigger] final(self).chunks_spec()[p] == old(self).chunks_spec()[p],
            forall|p: ChunkPos|
                old(self).chunks_spec().contains_key(p) && version_in(old(self).chunks_spec()[p])
                    > 0 ==> #[trigger] final(self).chunks_spec().contains_key(p),
    {
        let keys = self.world.chunks.keys();
        proof {
            assert forall|j: int| 0 <= j < keys.len() implies self.world.chunks@.contains_key(
                #[trigger] keys[j],
            ) by {
                assert(keys@.contains(keys@[j]));
            }
        }
        let mut i: usize = 0;
        while i < keys.len()
            invariant
                i <= keys.len(),
                self.wf(),
                self.world.players == old(self).world.players,
                self.connections == old(self).connections,
                self.player_chunks == old(self).player_chunks,
                self.spawn == old(self).spawn,
                self.world.ticks == old(self).world.ticks,
                self.world.chunks.hot_spec() == old(self).world.chunks.hot_spec(),
                keys@.no_duplicates(),
                forall|p: ChunkPos| keys@.contains(p) <==> old(self).world.chunks@.contains_key(p),
                forall|p: ChunkPos| #[trigger]
                    self.world.chunks@.contains_key(p) ==> old(self).world.chunks@.contains_key(p)
                        && self.world.chunks@[p] == old(self).world.chunks@[p],
                forall|j: int|
                    0 <= j < i ==> (self.world.chunks@.contains_key(#[trigger] keys[j]) <==> version_in(
                        old(self).world.chunks@[keys[j]],
                    ) > 0 || old(self).needed(keys[j])),
                forall|j: int| i <= j < keys.len()
                    ==> self.world.chunks@.contains_key(#[trigger] keys[j]),
            decreases keys.len() - i,
        {
            let pos = keys[i];
            let modified = match self.world.chunks.get(&pos) {
                Some(state) => state.is_modified(),
                None => false,
            };
            let keep = modified || self.is_needed(pos);
            proof {
                assert(self.needed(pos) == old(self).needed(pos)) by {
                    if self.needed(pos) {
                        let c = choose|c: ConnectionId| #[trigger] self.reaches(c, pos);
                        assert(old(self).reaches(c, pos));
                    }
                    if old(self).needed(pos) {
                        let c = choose|c: ConnectionId| #[trigger] old(self).reaches(c, pos);
                        assert(self.reaches(c, pos));
                    }
                }
            }
            if !keep {
                self.world.chunks.remove(&pos);
            }
            i = i + 1;
        }
        proof {
            assert forall|p: ChunkPos| #[trigger]
                self.world.chunks@.contains_key(p) <==> old(self).world.chunks@.contains_key(p) && (version_in(
                    old(self).world.chunks@[p],
                ) > 0 || old(self).needed(p)) by {
                if old(self).world.chunks@.contains_key(p) {
                    assert(keys@.contains(p));
                    let j = choose|j: int| 0 <= j < keys.len() && keys[j] == p;
                    assert(self.world.chunks@.contains_key(keys[j]) <==> version_in(
                        old(self).world.chunks@[keys[j]],
                    ) > 0 || old(self).needed(keys[j]));
                }
            }
        }
    }

    /// One tick of the game: the tick is counted, and every active player who
    /// holds the `Hit` key breaks the block the player stands in.
    pub fn tick_game(&mut self)
        requires
            old(self).wf(),
        ensures
            final(self).wf(),
            final(self).players_spec() == old(self).players_spec(),
            final(self).links_spec() == old(self).links_spec(),
            final(self).ledgers_spec() == old(self).ledgers_spec(),
            final(self).spawn_spec() == old(self).spawn_spec(),
            final(self).ticks_spec() == (if old(self).ticks_spec() < u64::MAX {
                (old(self).ticks_spec() + 1) as u64
            } else {
                u64::MAX
            }),
            final(self).chunks_spec().dom() == old(self).chunks_spec().dom(),
            exists|worlds: Seq<ChunkMap>| #[trigger]
                ticks_made(old(self).players_spec(), worlds) && worlds[0] == old(self).world_spec()
                    && worlds.last() == final(self).world_spec(),
    {
        self.world.tick();
    }

    /// Ends a tick for one player who moved to `new_pos`: the move stands where
    /// the chunk that holds `new_pos` is there, and is undone otherwise.
    pub fn finalize_player(&mut self, id: PlayerId, new_pos: BlockPos)
        requires
            old(self).wf(),
            id.index_spec() < old(self).players_spec().len(),
        ensures
            final(self).wf(),
            final(self).chunks_spec() == old(self).chunks_spec(),
            final(self).hot_spec() == old(self).hot_spec(),
            final(self).links_spec() == old(self).links_spec(),
            final(self).ledgers_spec() == old(self).ledgers_spec(),
            final(self).players_spec().len() == old(self).players_spec().len(),
            forall|i: int|
                0 <= i < old(self).players_spec().len() && i != id.index_spec()
                    ==> #[trigger] final(self).players_spec()[i] == old(self).players_spec()[i],
            final(self).players_spec()[id.index_spec()] == (Player {
                pos: final(self).players_spec()[id.index_spec()].pos,
                old_pos: final(self).players_spec()[id.index_spec()].pos,
                ..old(self).players_spec()[id.index_spec()]
            }),
            final(self).players_spec()[id.index_spec()].pos == (if crate::player::can_enter(
                old(self).world_spec(),
                new_pos,
            ) {
                new_pos
            } else {
                old(self).players_spec()[id.index_spec()].old_pos
            }),
    {
        let mut player = self.world.players.player_at(id.index());
        player.finalize(new_pos, &self.world.chunks);
        self.world.players.set(id, player);
    }
}


/// Whether `after` has the connections and the ledgers of `before`, each as it
/// was.
pub open spec fn same_connections(before: GameImpl, after: GameImpl) -> bool {
    &&& after.links_spec() == before.links_spec()
    &&& after.ledgers_spec() == before.ledgers_spec()
}

/// Whether `after` has the players of `before`, but for the player at place `at`,
/// who is now `player`.
pub open spec fn player_replaced(before: GameImpl, after: GameImpl, at: int,
    player: Player) -> bool {
    after.players_spec() == before.players_spec().update(at, player)
}

/// Whether `after` is what a connecting client on connection `id` makes of
/// `before`. A new player appears at the spawn point, active and with nothing
/// sent yet, and the connection steers that player from now on. A player that
/// the connection steered before stays in the world, with its ledger. Where no
/// player id is left, nothing changes.
pub open spec fn connected(before: GameImpl, after: GameImpl, id: ConnectionId) -> bool {
    let np = before.players_spec().len() as int;
    if np >= u32::MAX {
        after.players_spec() == before.players_spec() && same_connections(before, after)
    } else {
        let who = after.players_spec().last().id;
        &&& after.players_spec().len() == np + 1
        &&& after.players_spec().drop_last() == before.players_spec()
        &&& after.players_spec().last().pos == before.spawn_spec()
        &&& after.players_spec().last().old_pos == before.spawn_spec()
        &&& after.players_spec().last().active
        &&& after.players_spec().last().render_distance == 0
        &&& who.index_spec() == np
        &&& forall|k: crate::player::PlayerKey| !after.players_spec().last().keys.has(k)
        &&& after.links_spec() == before.links_spec().insert(id, who)
        &&& after.ledgers_spec() == before.ledgers_spec().insert(
            np as usize,
            Map::<ChunkPos, u64>::empty(),
        )
    }
}

/// Whether `after` is what the loss of connection `id` makes of `before`: the
/// player of that connection is no longer active, and the connection and the
/// player's ledger are gone. Nothing changes where there is no such connection.
pub open spec fn disconnected(before: GameImpl, after: GameImpl, id: ConnectionId) -> bool {
    if before.links_spec().contains_key(id) {
        let who = before.links_spec()[id].index_spec();
        &&& after.players_spec().len() == before.players_spec().len()
        &&& forall|i: int|
            0 <= i < before.players_spec().len() && i != who
                ==> #[trigger] after.players_spec()[i] == before.players_spec()[i]
        &&& !after.players_spec()[who].active
        &&& after.players_spec()[who].pos == before.players_spec()[who].pos
        &&& after.players_spec()[who].old_pos == before.players_spec()[who].old_pos
        &&& after.players_spec()[who].render_distance
            == before.players_spec()[who].render_distance
        &&& after.players_spec()[who].keys == before.players_spec()[who].keys
        &&& after.players_spec()[who].id == before.players_spec()[who].id
        &&& after.links_spec() == before.links_spec().remove(id)
        &&& after.ledgers_spec() == before.ledgers_spec().remove(who as usize)
    } else {
        after.players_spec() == before.players_spec() && same_connections(before, after)
    }
}

/// Whether `after` is what new keys for the player of connection `id` make of
/// `before`. Nothing changes where there is no such connection.
pub open spec fn input_taken(
    before: GameImpl,
    after: GameImpl,
    id: ConnectionId,
    keys: crate::player::PlayerControls,
) -> bool {
    &&& same_connections(before, after)
    &&& if before.links_spec().contains_key(id) {
        let who = before.links_spec()[id].index_spec();
        player_replaced(before, after, who, Player { keys: keys, ..before.players_spec()[who] })
    } else {
        after.players_spec() == before.players_spec()
    }
}

/// Whether `after` is what a new render distance for the player of connection
/// `id` makes of `before`. Nothing changes where there is no such connection.
pub open spec fn render_distance_taken(
    before: GameImpl,
    after: GameImpl,
    id: ConnectionId,
    render_distance: u64,
) -> bool {
    &&& same_connections(before, after)
    &&& if before.links_spec().contains_key(id) {
        let who = before.links_spec()[id].index_spec();
        player_replaced(
            before,
            after,
            who,
            Player { render_distance: render_distance, ..before.players_spec()[who] },
        )
    } else {
        after.players_spec() == before.players_spec()
    }
}

/// Whether `after` is what `message` makes of `before`.
pub open spec fn message_applied(before: GameImpl, after: GameImpl, message: ToGame) -> bool {
    &&& after.spawn_spec() == before.spawn_spec()
    &&& after.ticks_spec() == before.ticks_spec()
    &&& after.hot_spec() == before.hot_spec()
    &&& match message {
        ToGame::NewChunk(pos, chunk, _) => {
            &&& after.players_spec() == before.players_spec()
            &&& same_connections(before, after)
            &&& after.chunks_spec() == (if before.chunks_spec().contains_key(pos)
                && before.chunks_spec()[pos] is Generated {
                before.chunks_spec()
            } else {
                before.chunks_spec().insert(pos, ChunkState::Generated(chunk))
            })
        },
        ToGame::PlayerEvent(id, ev) => {
            &&& after.chunks_spec() == before.chunks_spec()
            &&& match ev {
                ToGamePlayer::Connect => connected(before, after, id),
                ToGamePlayer::Disconnect => disconnected(before, after, id),
                ToGamePlayer::SetInput(keys) => input_taken(before, after, id, keys),
                ToGamePlayer::SetRenderDistance(render_distance) => render_distance_taken(
                    before,
                    after,
                    id,
                    render_distance,
                ),
            }
        },
    }
}

impl GameImpl {
    /// Whether `after` differs from `before` in the players and the connections
    /// at most.
    pub open spec fn same_world(before: GameImpl, after: GameImpl) -> bool {
        &&& after.spawn_spec() == before.spawn_spec()
        &&& after.ticks_spec() == before.ticks_spec()
        &&& after.hot_spec() == before.hot_spec()
        &&& after.chunks_spec() == before.chunks_spec()
    }

    /// A client connects on connection `id`.
    pub fn on_connect(&mut self, id: ConnectionId)
        requires
            old(self).wf(),
        ensures
            final(self).wf(),
            GameImpl::same_world(*old(self), *final(self)),
            connected(*old(self), *final(self), id),
    {
        match self.world.players.new_player(self.spawn, true) {
            None => {},
            Some(new_player) => {
                self.connections.insert(id, new_player);
                self.player_chunks.insert(new_player.index(), PosTable::new());
                proof {
                    new_player.lemma_index_bound();
                    assert(self.world.players@.last().id == new_player);
                    assert forall|c: ConnectionId| #[trigger]
                        self.connections@.contains_key(c) implies 0
                        <= self.connections@[c].index_spec() < self.world.players@.len()
                        && self.player_chunks@.contains_key(
                        self.connections@[c].index_spec() as usize,
                    ) by {
                        if c != id {
                            assert(old(self).connections@.contains_key(c));
                        }
                    }
                    assert forall|a: ConnectionId, b: ConnectionId|
                        a != b && #[trigger] self.connections@.contains_key(a)
                            && #[trigger] self.connections@.contains_key(b)
                            implies self.connections@[a].index_spec()
                        != self.connections@[b].index_spec() by {
                        if a != id {
                            assert(old(self).connections@.contains_key(a));
                        }
                        if b != id {
                            assert(old(self).connections@.contains_key(b));
                        }
                    }
                }
            },
        }
    }

    /// The client on connection `id` is gone.
    pub fn on_disconnect(&mut self, id: ConnectionId)
        requires
            old(self).wf(),
        ensures
            final(self).wf(),
            GameImpl::same_world(*old(self), *final(self)),
            disconnected(*old(self), *final(self), id),
    {
        match self.connections.remove(id) {
            Some(who) => {
                proof {
                    who.lemma_index_bound();
                    assert(old(self).connections@.contains_key(id));
                }
                let mut player = self.world.players.player_at(who.index());
                player.active = false;
                self.world.players.set(who, player);
                self.player_chunks.remove(who.index());
                proof {
                    assert forall|c: ConnectionId| #[trigger]
                        self.connections@.contains_key(c) implies 0
                        <= self.connections@[c].index_spec() < self.world.players@.len()
                        && self.player_chunks@.contains_key(
                        self.connections@[c].index_spec() as usize,
                    ) by {
                        assert(old(self).connections@.contains_key(c));
                        self.connections@[c].lemma_index_bound();
                    }
                    assert forall|a: ConnectionId, b: ConnectionId|
                        a != b && #[trigger] self.connections@.contains_key(a)
                            && #[trigger] self.connections@.contains_key(b)
                            implies self.connections@[a].index_spec()
                        != self.connections@[b].index_spec() by {
                        assert(old(self).connections@.contains_key(a));
                        assert(old(self).connections@.contains_key(b));
                    }
                }
            },
            None => {
                assert(self.connections@ =~= old(self).connections@);
            },
        }
    }

    /// The client on connection `id` holds the keys `keys`.
    pub fn on_input(&mut self, id: ConnectionId, keys: crate::player::PlayerControls)
        requires
            old(self).wf(),
        ensures
            final(self).wf(),
            GameImpl::same_world(*old(self), *final(self)),
            input_taken(*old(self), *final(self), id, keys),
    {
        if let Some(who) = self.connections.get(id) {
            assert(self.connections@.contains_key(id));
            let mut player = self.world.players.player_at(who.index());
            player.set_input(keys);
            self.world.players.set(who, player);
        }
    }

    /// The client on connection `id` asks for render distance `render_distance`.
    pub fn on_render_distance(&mut self, id: ConnectionId, render_distance: u64)
        requires
            old(self).wf(),
        ensures
            final(self).wf(),
            GameImpl::same_world(*old(self), *final(self)),
            render_distance_taken(*old(self), *final(self), id, render_distance),
    {
        if let Some(who) = self.connections.get(id) {
            assert(self.connections@.contains_key(id));
            let mut player = self.world.players.player_at(who.index());
            player.render_distance = render_distance;
            self.world.players.set(who, player);
        }
    }

    /// The world generator delivers the chunk at `pos`. The chunk is stored
    /// unless a chunk is there already.
    pub fn on_new_chunk(&mut self, pos: ChunkPos, chunk: Chunk)
        requires
            old(self).wf(),
        ensures
            final(self).wf(),
            final(self).spawn_spec() == old(self).spawn_spec(),
            final(self).ticks_spec() == old(self).ticks_spec(),
            final(self).hot_spec() == old(self).hot_spec(),
            final(self).players_spec() == old(self).players_spec(),
            same_connections(*old(self), *final(self)),
            final(self).chunks_spec() == (if old(self).chunks_spec().contains_key(pos)
                && old(self).chunks_spec()[pos] is Generated {
                old(self).chunks_spec()
            } else {
                old(self).chunks_spec().insert(pos, ChunkState::Generated(chunk))
            }),
    {
        self.world.chunks.update_worldgen(pos, chunk);
    }

    /// Takes in one message: a player connects, leaves, presses keys or asks for
    /// another render distance, or the world generator delivers a chunk. A
    /// message about a connection that is not there changes nothing.
    pub fn process_message(&mut self, message: ToGame)
        requires
            old(self).wf(),
        ensures
            final(self).wf(),
            message_applied(*old(self), *final(self), message),
    {
        match message {
            ToGame::PlayerEvent(id, ev) => match ev {
                ToGamePlayer::Connect => self.on_connect(id),
                ToGamePlayer::Disconnect => self.on_disconnect(id),
                ToGamePlayer::SetInput(keys) => self.on_input(id, keys),
                ToGamePlayer::SetRenderDistance(render_distance) => self.on_render_distance(
                    id,
                    render_distance,
                ),
            },
            ToGame::NewChunk(pos, s, _) => self.on_new_chunk(pos, s),
        }
    }
}

} // verus!
