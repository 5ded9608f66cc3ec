//! The client's map of chunks: takes in what the server streams, tells chunks
//! what their neighbours let through, and hands finished chunks to meshing.

use crate::block::BlockRegistry;
use crate::chunk::{ChunkArray, ChunkFragment};
use crate::client::chunk::{
    contributed, fragment_delivered, info_delivered, layer_of, meshing_started, ChunkData,
    ChunkInfo, ChunkState, Delivery, MeshHandle, OpenLayer,
};
use crate::messages::client::{ToInput, ToMeshing};
use crate::pos::{
    cube_fits, cube_offsets, diff, in_reach, lemma_cube_fits, ChunkPos, FragmentPos,
};
use crate::pos_map::PosMap;
use crate::util::{lemma_flip, Face};
use std::collections::VecDeque;
use vstd::prelude::*;

verus! {

/// The margin, in chunks, that the client keeps around what it is served, so
/// that chunks at the edge find their neighbours.
pub const INTEREST_MARGIN: u64 = 2;

/// The distance up to which a client with render distance `rd` keeps chunks.
pub open spec fn interest_distance(rd: u64) -> int {
    rd + INTEREST_MARGIN
}

/// Game-related state
pub struct ClientGameState {
    chunks: PosMap<ChunkData>,
}

impl View for ClientGameState {
    type V = Map<ChunkPos, ChunkData>;

    closed spec fn view(&self) -> Map<ChunkPos, ChunkData> {
        self.chunks@
    }
}

/// No two faces of a chunk lead to the same neighbour, and none leads back to
/// the chunk itself.
pub proof fn lemma_neighbors_distinct(pos: ChunkPos, f: Face, g: Face)
    ensures
        pos.neighbor_spec(f) != Some(pos),
        pos.neighbor_spec(f) is Some && pos.neighbor_spec(f) == pos.neighbor_spec(g) ==> f == g,
{
}

/// Whether `q` is the chunk behind face `f` of the chunk at `pos`.
pub open spec fn is_neighbor(pos: ChunkPos, f: Face, q: ChunkPos) -> bool {
    pos.neighbor_spec(f) == Some(q)
}

/// Whether `after` is what the completion of the chunk at `pos`, with the blocks
/// `blocks`, makes of the chunks `before`: each of the six neighbours that is
/// there is told what the chunk lets through towards it, and nothing else
/// changes. `modified` says whether the chunk was changed after it had been
/// complete before.
pub open spec fn finalized(
    before: Map<ChunkPos, ChunkData>,
    after: Map<ChunkPos, ChunkData>,
    pos: ChunkPos,
    blocks: ChunkArray,
    registry: BlockRegistry,
    modified: bool,
) -> bool {
    &&& after.dom() == before.dom()
    &&& forall|q: ChunkPos|
        before.contains_key(q) && (forall|f: Face| !is_neighbor(pos, f, q)) ==> #[trigger] after[q]
            == before[q]
    &&& forall|f: Face, q: ChunkPos|
        #[trigger] is_neighbor(pos, f, q) && before.contains_key(q) ==> if before[q].adj_spec(
            f.flip_spec(),
        ) {
            after[q] == before[q]
        } else {
            exists|open: OpenLayer|
                layer_of(open, blocks, f, registry) && #[trigger] contributed(
                    before[q],
                    after[q],
                    f.flip_spec(),
                    open,
                    modified,
                )
        }
}

impl ClientGameState {
    /// The map's storage is consistent, and so is every chunk in it.
    pub closed spec fn wf(&self) -> bool {
        &&& self.chunks.wf()
        &&& forall|p: ChunkPos| #[trigger] self.chunks@.contains_key(p) ==> self.chunks@[p].wf()
    }

    /// The positions of the map in the order in which they are gone through.
    pub closed spec fn order(&self) -> Seq<ChunkPos> {
        self.chunks.order()
    }

    /// What follows from [`ClientGameState::wf`]: every chunk is consistent, and
    /// the order names every position of the map once.
    pub proof fn lemma_wf(&self)
        requires
            self.wf(),
        ensures
            forall|p: ChunkPos| #[trigger] self@.contains_key(p) ==> self@[p].wf(),
            self.order().no_duplicates(),
            forall|p: ChunkPos| self.order().contains(p) <==> self@.contains_key(p),
    {
        self.chunks.lemma_order();
    }

    /// No chunks.
    pub fn new() -> (r: ClientGameState)
        ensures
            r.wf(),
            r@ == Map::<ChunkPos, ChunkData>::empty(),
    {
        ClientGameState { chunks: PosMap::new() }
    }

    /// What is known of the chunk at `pos`.
    pub fn get(&self, pos: &ChunkPos) -> (r: Option<&ChunkData>)
        requires
            self.wf(),
        ensures
            r is Some <==> self@.contains_key(*pos),
            r matches Some(d) ==> *d == self@[*pos] && d.wf(),
    {
        self.chunks.get(pos)
    }

    /// Number of chunks.
    pub fn len(&self) -> (r: usize)
        ensures
            r == self.order().len(),
    {
        self.chunks.len()
    }

    /// The positions of all chunks.
    pub fn keys(&self) -> (r: Vec<ChunkPos>)
        ensures
            r@ == self.order(),
    {
        self.chunks.keys()
    }

    /// Check if the given chunk has been fully received, and update the adjacent chunk's sides if so
    ///
    /// Where the chunk at `pos` has all its columns, tells each neighbour of it
    /// that is there what the chunk lets through towards it. A neighbour that
    /// was told before is left alone. Where columns are still missing, nothing
    /// changes.
    pub fn check_finalize_chunk(&mut self, pos: ChunkPos, registry: &BlockRegistry, modified: bool)
        requires
            old(self).wf(),
            old(self)@.contains_key(pos),
        ensures
            final(self).wf(),
            final(self)@[pos] == old(self)@[pos],
            final(self).order() == old(self).order(),
            !old(self)@[pos].complete_spec() ==> final(self)@ == old(self)@,
            old(self)@[pos].complete_spec() ==> finalized(
                old(self)@,
                final(self)@,
                pos,
                old(self)@[pos].blocks_spec(),
                *registry,
                modified,
            ),
    {
        let complete = match self.chunks.get(&pos) {
            Some(data) => data.is_complete(),
            None => false,
        };
        if !complete {
            return ;
        }
        let all = Face::all();
        let ghost blocks = self@[pos].blocks_spec();
        let ghost mut layers: Seq<OpenLayer> = Seq::empty();
        let mut i: usize = 0;
        while i < 6
            invariant
                i <= 6,
                self.wf(),
                self@.dom() == old(self)@.dom(),
                self@.contains_key(pos),
                self@[pos] == old(self)@[pos],
                self.order() == old(self).order(),
                blocks == old(self)@[pos].blocks_spec(),
                forall|k: int| 0 <= k < 6 ==> Face::from_index_spec(k) == Some(#[trigger] all[k]),
                layers.len() == i,
                forall|q: ChunkPos|
                    old(self)@.contains_key(q) && (forall|f: Face|
                        f.index_spec() < i ==> !is_neighbor(pos, f, q)) ==> #[trigger] self@[q]
                        == old(self)@[q],
                forall|f: Face, q: ChunkPos|
                    f.index_spec() < i && #[trigger] is_neighbor(pos, f, q)
                        && old(self)@.contains_key(q)
                        ==> (if old(self)@[q].adj_spec(f.flip_spec()) {
                        self@[q] == old(self)@[q]
                    } else {
                        layer_of(layers[f.index_spec()], blocks, f, *registry) && contributed(
                            old(self)@[q],
                            self@[q],
                            f.flip_spec(),
                            layers[f.index_spec()],
                            modified,
                        )
                    }),
            decreases 6 - i,
        {
            let face = all[i];
            let ghost before = self@;
            let ghost layers_before = layers;
            let ghost mut layer: OpenLayer = arbitrary();
            proof {
                lemma_flip(face);
                assert(Face::from_index_spec(i as int) == Some(face));
            }
            match pos.neighbor(face) {
                None => {},
                Some(next) => {
                    proof {
                        lemma_neighbors_distinct(pos, face, face);
                    }
                    let told = match self.chunks.get(&next) {
                        None => true,
                        Some(data) => data.has_adjacent(face.flip()),
                    };
                    if !told {
                        let open = match self.chunks.get(&pos) {
                            Some(data) => data.chunk().open_boundary(face, registry),
                            None => Box::new([[false;32];32]),
                        };
                        match self.chunks.get_mut(&next) {
                            None => {},
                            Some(data) => {
                                data.contribute(face.flip(), &*open, modified);
                            },
                        }
                        proof {
                            layer = *open;
                        }
                    } else {
                        proof {
                            if self@.contains_key(next) {
                                assert(self@[next].adj_spec(face.flip_spec()));
                            }
                        }
                    }
                },
            }
            proof {
                layers = layers.push(layer);
                assert(self@.dom() =~= old(self)@.dom());
                assert forall|q: ChunkPos|
                    old(self)@.contains_key(q) && (forall|f: Face|
                        f.index_spec() < i + 1 ==> !is_neighbor(
                            pos,
                            f,
                            q,
                        )) implies #[trigger] self@[q] == old(self)@[q] by {
                    assert(!is_neighbor(pos, face, q));
                    assert forall|f: Face| f.index_spec() < i implies !is_neighbor(pos, f, q) by {}
                    assert(before[q] == old(self)@[q]);
                }
                assert forall|f: Face, q: ChunkPos|
                    f.index_spec() < i + 1 && #[trigger] is_neighbor(pos, f, q)
                        && old(self)@.contains_key(q)
                        implies (if old(self)@[q].adj_spec(f.flip_spec()) {
                    self@[q] == old(self)@[q]
                } else {
                    layer_of(layers[f.index_spec()], blocks, f, *registry) && contributed(
                        old(self)@[q],
                        self@[q],
                        f.flip_spec(),
                        layers[f.index_spec()],
                        modified,
                    )
                }) by {
                    lemma_flip(f);
                    if f.index_spec() < i {
                        assert(layers[f.index_spec()] == layers_before[f.index_spec()]);
                        lemma_neighbors_distinct(pos, f, face);
                        assert(self@[q] == before[q]);
                    } else {
                        assert(f == face);
                        assert forall|g: Face| g.index_spec() < i implies !is_neighbor(
                            pos,
                            g,
                            q,
                        ) by {
                            lemma_neighbors_distinct(pos, g, face);
                        }
                        assert(before[q] == old(self)@[q]);
                    }
                }
                assert forall|p: ChunkPos| #[trigger] self@.contains_key(p) implies self@[p].wf()
                    by {
                    assert(before.contains_key(p));
                }
            }
            i = i + 1;
        }
        proof {
            assert forall|q: ChunkPos|
                old(self)@.contains_key(q) && (forall|f: Face| !is_neighbor(pos, f, q))
                    implies #[trigger] self@[q] == old(self)@[q] by {
                assert forall|f: Face| f.index_spec() < 6 implies !is_neighbor(pos, f, q) by {}
            }
        }
    }
}

/// Whether `after` is what the delivery of a piece of the chunk at `pos` makes
/// of the chunks around it: nothing, unless the delivery completed the chunk;
/// then the neighbours are told what the chunk lets through.
pub open spec fn neighbors_told(
    before: Map<ChunkPos, ChunkData>,
    after: Map<ChunkPos, ChunkData>,
    pos: ChunkPos,
    registry: BlockRegistry,
    r: Delivery,
) -> bool {
    &&& after.dom() == before.dom()
    &&& if r == Delivery::Completed {
        finalized(
            before.insert(pos, after[pos]),
            after,
            pos,
            after[pos].blocks_spec(),
            registry,
            after[pos].hot_spec(),
        )
    } else {
        forall|q: ChunkPos| q != pos && before.contains_key(q) ==> #[trigger] after[q] == before[q]
    }
}

/// Whether `after` is what the delivery of column `fpos` of the chunk at `pos`
/// makes of the chunks `before`.
pub open spec fn fragment_taken(
    before: Map<ChunkPos, ChunkData>,
    after: Map<ChunkPos, ChunkData>,
    pos: ChunkPos,
    fpos: FragmentPos,
    frag: ChunkFragment,
    version: u64,
    registry: BlockRegistry,
    r: Delivery,
) -> bool {
    if before.contains_key(pos) {
        &&& fragment_delivered(before[pos], after[pos], fpos, frag, version, r)
        &&& neighbors_told(before, after, pos, registry, r)
    } else {
        r == Delivery::Ignored && after == before
    }
}

/// Whether `after` is what the delivery of the empty columns of the chunk at
/// `pos` makes of the chunks `before`.
pub open spec fn info_taken(
    before: Map<ChunkPos, ChunkData>,
    after: Map<ChunkPos, ChunkData>,
    pos: ChunkPos,
    info: ChunkInfo,
    version: u64,
    registry: BlockRegistry,
    r: Delivery,
) -> bool {
    if before.contains_key(pos) {
        &&& info_delivered(before[pos], after[pos], info, version, r)
        &&& neighbors_told(before, after, pos, registry, r)
    } else {
        r == Delivery::Ignored && after == before
    }
}

/// Whether `after` is what the arrival of the mesh `handle` of the chunk at `pos`
/// makes of the chunks `before`; `kept` says whether the chunk is there.
pub open spec fn mesh_taken(
    before: Map<ChunkPos, ChunkData>,
    after: Map<ChunkPos, ChunkData>,
    pos: ChunkPos,
    handle: MeshHandle,
    kept: bool,
) -> bool {
    &&& kept == before.contains_key(pos)
    &&& after.dom() == before.dom()
    &&& forall|q: ChunkPos| q != pos && before.contains_key(q) ==> #[trigger] after[q] == before[q]
    &&& kept ==> {
        &&& after[pos].state_spec() == ChunkState::Meshed(handle)
        &&& after[pos].displayed_spec() == Some(handle)
        &&& after[pos].blocks_spec() == before[pos].blocks_spec()
        &&& after[pos].sides_spec() == before[pos].sides_spec()
        &&& after[pos].epoch() == before[pos].epoch()
        &&& after[pos].fragments_spec() == before[pos].fragments_spec()
        &&& forall|f: Face| after[pos].adj_spec(f) == before[pos].adj_spec(f)
        &&& after[pos].hot_spec() == before[pos].hot_spec()
        &&& after[pos].settled_spec() == before[pos].settled_spec()
    }
}

/// Whether `after` is what `message` makes of the chunks `before`, and `r` is
/// what became of it.
pub open spec fn message_taken(
    before: Map<ChunkPos, ChunkData>,
    after: Map<ChunkPos, ChunkData>,
    message: ToInput,
    registry: BlockRegistry,
    r: Delivery,
) -> bool {
    match message {
        ToInput::NewChunkFragment(pos, fpos, frag, version) => fragment_taken(
            before,
            after,
            pos,
            fpos,
            *frag,
            version,
            registry,
            r,
        ),
        ToInput::NewChunkInfo(pos, info, version) => info_taken(
            before,
            after,
            pos,
            info,
            version,
            registry,
            r,
        ),
        ToInput::NewChunkBuffer(pos, handle) => mesh_taken(
            before,
            after,
            pos,
            handle,
            r == Delivery::Accepted,
        ) && r != Delivery::Completed,
    }
}

/// Whether `states` are the chunks before and after each of `messages`, taken
/// in one after the other, and `results` what became of each.
pub open spec fn messages_taken(
    states: Seq<Map<ChunkPos, ChunkData>>,
    messages: Seq<ToInput>,
    registry: BlockRegistry,
    results: Seq<Delivery>,
) -> bool {
    &&& states.len() == messages.len() + 1
    &&& results.len() == messages.len()
    &&& forall|i: int|
        0 <= i < messages.len() ==> message_taken(
            #[trigger] states[i],
            states[i + 1],
            messages[i],
            registry,
            results[i],
        )
}

/// Whether `msgs` hand to meshing exactly the chunks of `before` within `d` of
/// `center` that are due for it, each once and as it was.
pub open spec fn dispatched(
    msgs: Seq<ToMeshing>,
    before: Map<ChunkPos, ChunkData>,
    center: ChunkPos,
    d: int,
) -> bool {
    &&& forall|i: int|
        0 <= i < msgs.len() ==> {
            let m = #[trigger] msgs[i];
            &&& before.contains_key(m.pos())
            &&& in_reach(center, m.pos(), d)
            &&& before[m.pos()].ready_spec()
            &&& *m.chunk().blocks == before[m.pos()].blocks_spec()
            &&& *m.chunk().sides == before[m.pos()].sides_spec()
        }
    &&& forall|i: int, j: int|
        0 <= i < j < msgs.len() ==> (#[trigger] msgs[i]).pos() != (#[trigger] msgs[j]).pos()
    &&& forall|p: ChunkPos|
        #[trigger] before.contains_key(p) && in_reach(center, p, d) && before[p].ready_spec()
            ==> exists|i: int| 0 <= i < msgs.len() && (#[trigger] msgs[i]).pos() == p
}

/// Whether `after` holds exactly the chunks within `d` of `center`: those of
/// `before`, of which the ones due for meshing have been handed to it, and
/// fresh ones where `before` had none.
pub open spec fn chunks_fetched(
    before: Map<ChunkPos, ChunkData>,
    after: Map<ChunkPos, ChunkData>,
    center: ChunkPos,
    d: int,
) -> bool {
    &&& forall|p: ChunkPos| #[trigger] after.contains_key(p) <==> in_reach(center, p, d)
    &&& forall|p: ChunkPos|
        #[trigger] after.contains_key(p) && before.contains_key(p) ==> if before[p].ready_spec() {
            meshing_started(before[p], after[p])
        } else {
            after[p] == before[p]
        }
    &&& forall|p: ChunkPos|
        #[trigger] after.contains_key(p) && !before.contains_key(p) ==> after[p].is_fresh()
}

impl ClientGameState {
    /// Takes in column `fpos` of the chunk at `pos` at version `version`. Where
    /// that makes the chunk complete, its neighbours are told what it lets
    /// through. A column of a chunk that the client does not keep is dropped.
    pub fn on_fragment(
        &mut self,
        pos: ChunkPos,
        fpos: FragmentPos,
        frag: &ChunkFragment,
        version: u64,
        registry: &BlockRegistry,
    ) -> (r: Delivery)
        requires
            old(self).wf(),
        ensures
            final(self).wf(),
            final(self).order() == old(self).order(),
            fragment_taken(old(self)@, final(self)@, pos, fpos, *frag, version, *registry, r),
    {
        let (r, hot) = match self.chunks.get_mut(&pos) {
            None => (Delivery::Ignored, false),
            Some(data) => {
                let r = data.on_fragment(fpos, frag, version);
                (r, data.is_hot())
            },
        };
        proof {
            assert(self@.dom() =~= old(self)@.dom());
            assert forall|p: ChunkPos| #[trigger] self.chunks@.contains_key(p)
                implies self.chunks@[p].wf() by {
                assert(old(self).chunks@.contains_key(p));
            }
        }
        if r == Delivery::Completed {
            self.check_finalize_chunk(pos, registry, hot);
        }
        r
    }

    /// Takes in the columns of the chunk at `pos` that hold nothing but air at
    /// version `version`. Where that makes the chunk complete, its neighbours are
    /// told what it lets through. An info for a chunk that the client does not
    /// keep is dropped.
    pub fn on_info(
        &mut self,
        pos: ChunkPos,
        info: &ChunkInfo,
        version: u64,
        registry: &BlockRegistry,
    ) -> (r: Delivery)
        requires
            old(self).wf(),
        ensures
            final(self).wf(),
            final(self).order() == old(self).order(),
            info_taken(old(self)@, final(self)@, pos, *info, version, *registry, r),
    {
        let (r, hot) = match self.chunks.get_mut(&pos) {
            None => (Delivery::Ignored, false),
            Some(data) => {
                let r = data.on_info(info, version);
                (r, data.is_hot())
            },
        };
        proof {
            assert(self@.dom() =~= old(self)@.dom());
            assert forall|p: ChunkPos| #[trigger] self.chunks@.contains_key(p)
                implies self.chunks@[p].wf() by {
                assert(old(self).chunks@.contains_key(p));
            }
        }
        if r == Delivery::Completed {
            self.check_finalize_chunk(pos, registry, hot);
        }
        r
    }

    /// Takes in the mesh that was made of the chunk at `pos`. Returns whether
    /// the client keeps that chunk; a mesh for a chunk that it does not keep is
    /// dropped.
    pub fn on_mesh(&mut self, pos: ChunkPos, handle: MeshHandle) -> (r: bool)
        requires
            old(self).wf(),
        ensures
            final(self).wf(),
            final(self).order() == old(self).order(),
            mesh_taken(old(self)@, final(self)@, pos, handle, r),
    {
        let r = match self.chunks.get_mut(&pos) {
            None => false,
            Some(data) => {
                data.on_mesh(handle);
                true
            },
        };
        proof {
            assert(self@.dom() =~= old(self)@.dom());
            assert forall|p: ChunkPos| #[trigger] self.chunks@.contains_key(p)
                implies self.chunks@[p].wf() by {
                assert(old(self).chunks@.contains_key(p));
            }
        }
        r
    }

    /// Process one queued chunk message.
    pub fn process_chunk_message(&mut self, message: ToInput, registry: &BlockRegistry) -> (r:
        Delivery)
        requires
            old(self).wf(),
        ensures
            final(self).wf(),
            final(self).order() == old(self).order(),
            message_taken(old(self)@, final(self)@, message, *registry, r),
    {
        match message {
            ToInput::NewChunkFragment(pos, fpos, frag, version) => {
                self.on_fragment(pos, fpos, &*frag, version, registry)
            },
            ToInput::NewChunkInfo(pos, info, version) => {
                self.on_info(pos, &info, version, registry)
            },
            ToInput::NewChunkBuffer(pos, handle) => {
                if self.on_mesh(pos, handle) {
                    Delivery::Accepted
                } else {
                    Delivery::Ignored
                }
            },
        }
    }
}

proof fn lemma_interest_offsets(center: ChunkPos, p: ChunkPos, d: int)
    requires
        0 <= d <= i64::MAX,
    ensures
        in_reach(center, p, d) ==> crate::pos::within(diff(center, p), d)
            && center.offset_spec(
            diff(center, p).0 as int,
            diff(center, p).1 as int,
            diff(center, p).2 as int,
        ) == Some(p),
        forall|o: (i64, i64, i64)|
            crate::pos::within(o, d) ==> (#[trigger] center.offset_spec(
                o.0 as int,
                o.1 as int,
                o.2 as int,
            ) matches Some(q) ==> in_reach(center, q, d)),
{
}

impl ClientGameState {
    /// Makes room for every chunk within `d` of `center`: where the client
    /// keeps nothing yet, it keeps a fresh chunk from now on.
    ///
    /// The positions are listed in a vector, so their number has to be a
    /// `usize`: that is the one bound on `d`.
    pub fn load_around(&mut self, center: ChunkPos, d: u64)
        requires
            old(self).wf(),
            cube_fits(d as int),
        ensures
            final(self).wf(),
            forall|p: ChunkPos| #[trigger]
                final(self)@.contains_key(p) <==> old(self)@.contains_key(p) || in_reach(
                    center,
                    p,
                    d as int,
                ),
            forall|p: ChunkPos|
                old(self)@.contains_key(p) ==> #[trigger] final(self)@[p] == old(self)@[p],
            forall|p: ChunkPos|
                #[trigger] final(self)@.contains_key(p) && !old(self)@.contains_key(p)
                    ==> final(self)@[p].is_fresh(),
    {
        let offsets = cube_offsets(d);
        let ghost mut done: Set<ChunkPos> = Set::empty();
        let mut k: usize = 0;
        proof {
            lemma_cube_fits(d as int, 0);
        }
        while k < offsets.len()
            invariant
                k <= offsets.len(),
                d < crate::pos::CUBE_EDGE_LIMIT,
                self.wf(),
                forall|o: (i64, i64, i64)| offsets@.contains(o)
                    <==> crate::pos::within(o, d as int),
                forall|p: ChunkPos| #[trigger]
                    self@.contains_key(p) <==> old(self)@.contains_key(p) || done.contains(p),
                forall|p: ChunkPos|
                    old(self)@.contains_key(p) ==> #[trigger] self@[p] == old(self)@[p],
                forall|p: ChunkPos|
                    #[trigger] done.contains(p) && !old(self)@.contains_key(p)
                        ==> self@[p].is_fresh(),
                forall|p: ChunkPos| #[trigger] done.contains(p)
                    ==> in_reach(center, p, d as int),
                forall|j: int|
                    0 <= j < k ==> (center.offset_spec(
                        (#[trigger] offsets[j]).0 as int,
                        offsets[j].1 as int,
                        offsets[j].2 as int,
                    ) matches Some(p) ==> done.contains(p)),
            decreases offsets.len() - k,
        {
            let o = offsets[k];
            proof {
                assert(offsets@.contains(offsets@[k as int]));
                lemma_interest_offsets(center, center, d as int);
            }
            match center.checked_offset(o.0, o.1, o.2) {
                None => {},
                Some(pos) => {
                    if !self.chunks.contains_key(&pos) {
                        let ghost before = self@;
                        self.chunks.insert(pos, ChunkData::new());
                        proof {
                            assert forall|p: ChunkPos| #[trigger]
                                self.chunks@.contains_key(p) implies self.chunks@[p].wf() by {
                                if p != pos {
                                    assert(before.contains_key(p));
                                }
                            }
                        }
                    }
                    proof {
                        done = done.insert(pos);
                    }
                },
            }
            k = k + 1;
        }
        proof {
            assert forall|p: ChunkPos| in_reach(center, p, d as int) implies done.contains(p)
                by {
                lemma_interest_offsets(center, p, d as int);
                let o = diff(center, p);
                assert(offsets@.contains(o));
                let j = choose|j: int| 0 <= j < offsets.len() && offsets@[j] == o;
                assert(center.offset_spec(
                    offsets[j].0 as int,
                    offsets[j].1 as int,
                    offsets[j].2 as int,
                ) == Some(p));
            }
        }
    }

    /// Trash far chunks: forgets every chunk that lies farther than `d` from
    /// `center`. The others are not touched.
    pub fn drop_far(&mut self, center: ChunkPos, d: u64)
        requires
            old(self).wf(),
        ensures
            final(self).wf(),
            forall|p: ChunkPos| #[trigger]
                final(self)@.contains_key(p) <==> old(self)@.contains_key(p) && in_reach(
                    center,
                    p,
                    d as int,
                ),
            forall|p: ChunkPos|
                #[trigger] final(self)@.contains_key(p) ==> final(self)@[p] == old(self)@[p],
    {
        let keys = self.chunks.keys();
        proof {
            self.chunks.lemma_order();
            assert forall|j: int| 0 <= j < keys.len() implies self@.contains_key(
                #[trigger] keys[j],
            ) by {
                assert(keys@.contains(keys@[j]));
            }
        }
        let mut i: usize = 0;
        while i < keys.len()
            invariant
                i <= keys.len(),
                self.wf(),
                keys@.no_duplicates(),
                forall|p: ChunkPos| keys@.contains(p) <==> old(self)@.contains_key(p),
                forall|p: ChunkPos| #[trigger]
                    self@.contains_key(p) ==> old(self)@.contains_key(p) && self@[p]
                        == old(self)@[p],
                forall|j: int|
                    0 <= j < i ==> (self@.contains_key(#[trigger] keys[j]) <==> in_reach(
                        center,
                        keys[j],
                        d as int,
                    )),
                forall|j: int| i <= j < keys.len() ==> self@.contains_key(#[trigger] keys[j]),
            decreases keys.len() - i,
        {
            let pos = keys[i];
            if !center.in_range(pos, d) {
                let ghost before = self@;
                self.chunks.remove(&pos);
                proof {
                    assert forall|p: ChunkPos| #[trigger] self.chunks@.contains_key(p)
                        implies self.chunks@[p].wf() by {
                        assert(before.contains_key(p));
                    }
                }
            }
            i = i + 1;
        }
        proof {
            assert forall|p: ChunkPos| #[trigger]
                self@.contains_key(p) <==> old(self)@.contains_key(p) && in_reach(
                    center,
                    p,
                    d as int,
                ) by {
                if old(self)@.contains_key(p) {
                    assert(keys@.contains(p));
                    let j = choose|j: int| 0 <= j < keys.len() && keys[j] == p;
                    assert(self@.contains_key(keys[j]) <==> in_reach(center, keys[j], d as int));
                }
            }
        }
    }

    /// Start meshing for new chunks: hands every chunk that is due for meshing
    /// to it. The other chunks are not touched.
    pub fn dispatch_ready(&mut self) -> (r: Vec<ToMeshing>)
        requires
            old(self).wf(),
        ensures
            final(self).wf(),
            final(self).order() == old(self).order(),
            final(self)@.dom() == old(self)@.dom(),
            forall|p: ChunkPos|
                #[trigger] old(self)@.contains_key(p) ==> if old(self)@[p].ready_spec() {
                    meshing_started(old(self)@[p], final(self)@[p])
                } else {
                    final(self)@[p] == old(self)@[p]
                },
            forall|i: int|
                0 <= i < r@.len() ==> {
                    let m = #[trigger] r@[i];
                    &&& old(self)@.contains_key(m.pos())
                    &&& old(self)@[m.pos()].ready_spec()
                    &&& *m.chunk().blocks == old(self)@[m.pos()].blocks_spec()
                    &&& *m.chunk().sides == old(self)@[m.pos()].sides_spec()
                },
            forall|i: int, j: int|
                0 <= i < j < r@.len() ==> (#[trigger] r@[i]).pos() != (#[trigger] r@[j]).pos(),
            forall|p: ChunkPos|
                #[trigger] old(self)@.contains_key(p) && old(self)@[p].ready_spec() ==> exists|
                    i: int,
                | 0 <= i < r@.len() && (#[trigger] r@[i]).pos() == p,
    {
        let keys = self.chunks.keys();
        let mut out: Vec<ToMeshing> = Vec::new();
        let ghost mut sent_at: Map<ChunkPos, int> = Map::empty();
        proof {
            self.chunks.lemma_order();
            assert forall|j: int| 0 <= j < keys.len() implies self@.contains_key(
                #[trigger] keys[j],
            ) by {
                assert(keys@.contains(keys@[j]));
            }
        }
        let mut i: usize = 0;
        while i < keys.len()
            invariant
                i <= keys.len(),
                self.wf(),
                self.order() == old(self).order(),
                self@.dom() == old(self)@.dom(),
                keys@.no_duplicates(),
                forall|p: ChunkPos| keys@.contains(p) <==> old(self)@.contains_key(p),
                forall|j: int| 0 <= j < keys.len() ==> old(self)@.contains_key(#[trigger] keys[j]),
                forall|j: int|
                    0 <= j < i ==> if old(self)@[#[trigger] keys[j]].ready_spec() {
                        meshing_started(old(self)@[keys[j]], self@[keys[j]])
                    } else {
                        self@[keys[j]] == old(self)@[keys[j]]
                    },
                forall|j: int|
                    i <= j < keys.len() ==> self@[#[trigger] keys[j]] == old(self)@[keys[j]],
                forall|t: int|
                    0 <= t < out@.len() ==> {
                        let m = #[trigger] out@[t];
                        &&& old(self)@.contains_key(m.pos())
                        &&& old(self)@[m.pos()].ready_spec()
                        &&& *m.chunk().blocks == old(self)@[m.pos()].blocks_spec()
                        &&& *m.chunk().sides == old(self)@[m.pos()].sides_spec()
                        &&& exists|j: int| 0 <= j < i && #[trigger] keys[j] == m.pos()
                    },
                forall|a: int, b: int|
                    0 <= a < b < out@.len() ==> (#[trigger] out@[a]).pos() != (
                    #[trigger] out@[b]).pos(),
                forall|j: int|
                    0 <= j < i && old(self)@[#[trigger] keys[j]].ready_spec()
                        ==> sent_at.contains_key(keys[j]) && 0 <= sent_at[keys[j]] < out@.len()
                        && out@[sent_at[keys[j]]].pos() == keys[j],
            decreases keys.len() - i,
        {
            let pos = keys[i];
            let ghost before = self@;
            let ghost out_before = out@;
            let ready = match self.chunks.get(&pos) {
                Some(data) => data.is_ready(),
                None => false,
            };
            if ready {
                match self.chunks.get_mut(&pos) {
                    Some(data) => {
                        let chunk = data.start_meshing();
                        out.push(ToMeshing::ComputeChunkMesh(pos, chunk));
                    },
                    None => {},
                }
                proof {
                    sent_at = sent_at.insert(pos, out_before.len() as int);
                    assert(self@.dom() =~= old(self)@.dom());
                    assert forall|p: ChunkPos| #[trigger] self.chunks@.contains_key(p)
                        implies self.chunks@[p].wf() by {
                        assert(before.contains_key(p));
                    }
                    assert forall|a: int, b: int| 0 <= a < b < out@.len() implies (
                    #[trigger] out@[a]).pos() != (#[trigger] out@[b]).pos() by {
                        if b == out_before.len() {
                            assert(out@[a] == out_before[a]);
                            let j = choose|j: int| 0 <= j < i && #[trigger] keys[j]
                                == out_before[a].pos();
                            assert(keys@[j] != keys@[i as int]);
                        } else {
                            assert(out@[a] == out_before[a]);
                            assert(out@[b] == out_before[b]);
                        }
                    }
                }
            }
            proof {
                assert forall|j: int| 0 <= j < i + 1
                    implies (if old(self)@[#[trigger] keys[j]].ready_spec() {
                    meshing_started(old(self)@[keys[j]], self@[keys[j]])
                } else {
                    self@[keys[j]] == old(self)@[keys[j]]
                }) by {
                    if j < i {
                        assert(keys@[j] != keys@[i as int]);
                        assert(self@[keys[j]] == before[keys[j]]);
                    }
                }
                assert forall|j: int| i + 1 <= j < keys.len() implies self@[#[trigger] keys[j]]
                    == old(self)@[keys[j]] by {
                    assert(keys@[j] != keys@[i as int]);
                    assert(self@[keys[j]] == before[keys[j]]);
                }
                assert forall|t: int| 0 <= t < out@.len() implies {
                    let m = #[trigger] out@[t];
                    &&& old(self)@.contains_key(m.pos())
                    &&& old(self)@[m.pos()].ready_spec()
                    &&& *m.chunk().blocks == old(self)@[m.pos()].blocks_spec()
                    &&& *m.chunk().sides == old(self)@[m.pos()].sides_spec()
                    &&& exists|j: int| 0 <= j < i + 1 && #[trigger] keys[j] == m.pos()
                } by {
                    if t < out_before.len() {
                        assert(out@[t] == out_before[t]);
                        let j = choose|j: int| 0 <= j < i && #[trigger] keys[j]
                            == out_before[t].pos();
                        assert(0 <= j < i + 1 && keys[j] == out@[t].pos());
                    } else {
                        assert(keys[i as int] == out@[t].pos());
                    }
                }
                assert forall|j: int|
                    0 <= j < i + 1 && old(self)@[#[trigger] keys[j]].ready_spec()
                        implies sent_at.contains_key(keys[j]) && 0 <= sent_at[keys[j]] < out@.len()
                    && out@[sent_at[keys[j]]].pos() == keys[j] by {
                    if j < i {
                        assert(keys@[j] != keys@[i as int]);
                        if ready {
                            assert(out@[sent_at[keys[j]]] == out_before[sent_at[keys[j]]]);
                        }
                    }
                }
            }
            i = i + 1;
        }
        proof {
            assert forall|p: ChunkPos| #[trigger] old(self)@.contains_key(p)
                implies (if old(self)@[p].ready_spec() {
                meshing_started(old(self)@[p], self@[p])
            } else {
                self@[p] == old(self)@[p]
            }) by {
                assert(keys@.contains(p));
                let j = choose|j: int| 0 <= j < keys.len() && keys[j] == p;
                assert(keys[j] == p);
            }
            assert forall|p: ChunkPos|
                #[trigger] old(self)@.contains_key(p) && old(self)@[p].ready_spec() implies exists|
                t: int,
            | 0 <= t < out@.len() && (#[trigger] out@[t]).pos() == p by {
                assert(keys@.contains(p));
                let j = choose|j: int| 0 <= j < keys.len() && keys[j] == p;
                assert(sent_at.contains_key(keys[j]));
                assert(out@[sent_at[p]].pos() == p);
            }
        }
        out
    }

    /// Add close chunks, drop far chunks, mesh ready chunks
    ///
    /// The client keeps the chunks within its render distance of the chunk the
    /// player stands in, and a margin of [`INTEREST_MARGIN`] around them.
    /// Returns the chunks to mesh. The one bound on the render distance is that
    /// of the machine: the number of chunks to keep has to be a `usize`.
    pub fn fetch_close_chunks(&mut self, player_chunk: ChunkPos, render_distance: u64) -> (r: Vec<
        ToMeshing,
    >)
        requires
            old(self).wf(),
            cube_fits(interest_distance(render_distance)),
        ensures
            final(self).wf(),
            chunks_fetched(
                old(self)@,
                final(self)@,
                player_chunk,
                interest_distance(render_distance),
            ),
            dispatched(r@, old(self)@, player_chunk, interest_distance(render_distance)),
    {
        proof {
            lemma_cube_fits(interest_distance(render_distance), 0);
        }
        let render_dist: u64 = render_distance + INTEREST_MARGIN;
        // Fetch new close chunks
        self.load_around(player_chunk, render_dist);
        let ghost loaded = self@;
        // Trash far chunks
        self.drop_far(player_chunk, render_dist);
        let ghost kept = self@;
        // Start meshing for new chunks
        let out = self.dispatch_ready();
        proof {
            let d = render_dist as int;
            assert forall|p: ChunkPos| #[trigger] self@.contains_key(p) <==> in_reach(
                player_chunk,
                p,
                d,
            ) by {
                assert(self@.contains_key(p) == kept.contains_key(p));
                assert(kept.contains_key(p) <==> loaded.contains_key(p) && in_reach(
                    player_chunk,
                    p,
                    d,
                ));
            }
            assert forall|p: ChunkPos|
                #[trigger] self@.contains_key(p) && old(self)@.contains_key(p)
                    implies (if old(self)@[p].ready_spec() {
                meshing_started(old(self)@[p], self@[p])
            } else {
                self@[p] == old(self)@[p]
            }) by {
                assert(kept.contains_key(p));
                assert(kept[p] == loaded[p]);
                assert(loaded[p] == old(self)@[p]);
            }
            assert forall|p: ChunkPos|
                #[trigger] self@.contains_key(p) && !old(self)@.contains_key(
                    p,
                ) implies self@[p].is_fresh() by {
                assert(kept.contains_key(p));
                assert(loaded.contains_key(p));
                assert(kept[p] == loaded[p]);
                assert(loaded[p].is_fresh());
                loaded[p].lemma_fresh_not_ready();
            }
            assert forall|i: int| 0 <= i < out@.len() implies {
                let m = #[trigger] out@[i];
                &&& old(self)@.contains_key(m.pos())
                &&& in_reach(player_chunk, m.pos(), d)
                &&& old(self)@[m.pos()].ready_spec()
                &&& *m.chunk().blocks == old(self)@[m.pos()].blocks_spec()
                &&& *m.chunk().sides == old(self)@[m.pos()].sides_spec()
            } by {
                let p = out@[i].pos();
                assert(kept.contains_key(p));
                assert(loaded.contains_key(p));
                assert(kept[p] == loaded[p]);
                if !old(self)@.contains_key(p) {
                    assert(loaded[p].is_fresh());
                    loaded[p].lemma_fresh_not_ready();
                }
            }
            assert forall|p: ChunkPos|
                #[trigger] old(self)@.contains_key(p) && in_reach(player_chunk, p, d)
                    && old(self)@[p].ready_spec() implies exists|i: int|
                0 <= i < out@.len() && (#[trigger] out@[i]).pos() == p by {
                assert(loaded.contains_key(p));
                assert(kept.contains_key(p));
                assert(kept[p] == loaded[p]);
            }
        }
        out
    }
}

impl ClientGameState {
    /// Process queued chunk messages: takes the messages out of the queue, oldest
    /// first, and takes each of them in. Returns what became of each.
    pub fn process_chunk_messages(
        &mut self,
        pending_messages: &mut VecDeque<ToInput>,
        registry: &BlockRegistry,
    ) -> (r: Vec<Delivery>)
        requires
            old(self).wf(),
        ensures
            final(self).wf(),
            final(self).order() == old(self).order(),
            final(pending_messages)@.len() == 0,
            exists|states: Seq<Map<ChunkPos, ChunkData>>| #[trigger]
                messages_taken(states, old(pending_messages)@, *registry, r@) && states[0] == old(self)@ && states.last() == final(self)@,
    {
        let mut out: Vec<Delivery> = Vec::new();
        let ghost all = pending_messages@;
        let ghost mut states: Seq<Map<ChunkPos, ChunkData>> = seq![self@];
        loop
            invariant
                self.wf(),
                self.order() == old(self).order(),
                all == old(pending_messages)@,
                out@.len() + pending_messages@.len() == all.len(),
                pending_messages@ == all.subrange(out@.len() as int, all.len() as int),
                states.len() == out@.len() + 1,
                states[0] == old(self)@,
                states.last() == self@,
                forall|i: int|
                    0 <= i < out@.len() ==> message_taken(
                        #[trigger] states[i],
                        states[i + 1],
                        all[i],
                        *registry,
                        out@[i],
                    ),
            ensures
                pending_messages@.len() == 0,
            decreases pending_messages@.len(),
        {
            let ghost before = states;
            let ghost done = out@;
            match pending_messages.pop_front() {
                None => {
                    break ;
                },
                Some(message) => {
                    proof {
                        assert(message == all[done.len() as int]);
                    }
                    let r = self.process_chunk_message(message, registry);
                    out.push(r);
                    proof {
                        states = states.push(self@);
                        assert(pending_messages@ =~= all.subrange(
                            out@.len() as int,
                            all.len() as int,
                        ));
                        assert forall|i: int| 0 <= i < out@.len() implies message_taken(
                            #[trigger] states[i],
                            states[i + 1],
                            all[i],
                            *registry,
                            out@[i],
                        ) by {
                            if i < done.len() {
                                assert(states[i] == before[i]);
                                assert(states[i + 1] == before[i + 1]);
                                assert(out@[i] == done[i]);
                            } else {
                                assert(states[i] == before[i]);
                            }
                        }
                    }
                },
            }
        }
        proof {
            assert(messages_taken(states, old(pending_messages)@, *registry, out@));
        }
        out
    }
}

} // verus!
