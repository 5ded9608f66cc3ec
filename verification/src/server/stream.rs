//! Serving one player: which chunks to send, which to ask for, and in which
//! order.

use crate::chunk::{ChunkContents, ChunkState};
use crate::map::ChunkMap;
use crate::messages::server::{ToNetwork, ToWorldgen};
use crate::network::ConnectionId;
use crate::pos::{
    chebyshev, cube_fits, cube_offsets, diff, in_reach, lemma_cube_fits, lemma_reach_offsets, within, ChunkPos,
};
use crate::table::PosTable;
use vstd::prelude::*;

verus! {

/// Squared Euclidean length of `o`.
pub open spec fn sq_dist_spec(o: (i64, i64, i64)) -> int {
    o.0 * o.0 + o.1 * o.1 + o.2 * o.2
}

/// Squared Euclidean distance between two chunk positions.
pub open spec fn sq_dist_between(a: ChunkPos, b: ChunkPos) -> int {
    (b.x - a.x) * (b.x - a.x) + (b.y - a.y) * (b.y - a.y) + (b.z - a.z) * (b.z - a.z)
}

/// Whether the offsets come nearest first.
pub open spec fn sorted_by_distance(s: Seq<(i64, i64, i64)>) -> bool {
    forall|i: int, j: int| 0 <= i <= j < s.len() ==> sq_dist_spec(s[i]) <= sq_dist_spec(s[j])
}

proof fn lemma_square_bound(v: int)
    by (nonlinear_arith)
    requires
        -0x8000_0000_0000_0000 <= v <= 0x8000_0000_0000_0000,
    ensures
        0 <= v * v <= 0x4000_0000_0000_0000_0000_0000_0000_0000,
{
}

/// Squared Euclidean length of an offset. Three squares of 64-bit numbers add up
/// to less than 128 bits, so every offset has one.
pub fn sq_dist(o: (i64, i64, i64)) -> (r: u128)
    ensures
        r == sq_dist_spec(o),
{
    proof {
        lemma_square_bound(o.0 as int);
        lemma_square_bound(o.1 as int);
        lemma_square_bound(o.2 as int);
    }
    let x = o.0 as i128;
    let y = o.1 as i128;
    let z = o.2 as i128;
    (x * x) as u128 + (y * y) as u128 + (z * z) as u128
}

/// Sorts offsets by their distance from the origin, nearest first.
///
/// Calls `sort_unstable_by_key` of slices with [`sq_dist`] as the key. The
/// result holds the same offsets as before, each as often as before, in
/// ascending order of the key. How offsets with equal keys come to lie is left
/// open.
#[verifier::external_body]
fn sort_by_distance(v: &mut Vec<(i64, i64, i64)>)
    ensures
        final(v)@.to_multiset() == old(v)@.to_multiset(),
        sorted_by_distance(final(v)@),
{
    v.sort_unstable_by_key(|o| sq_dist(*o))
}

/// All offsets within `d` of the origin on every axis, nearest first.
///
/// There are `(2 * d + 1)` cubed of them. Their number has to be a `usize` for a
/// vector to hold them: that is the one bound on `d`.
pub fn nearby_offsets(d: u64) -> (r: Vec<(i64, i64, i64)>)
    requires
        cube_fits(d as int),
    ensures
        r@.no_duplicates(),
        forall|o: (i64, i64, i64)| r@.contains(o) <==> within(o, d as int),
        sorted_by_distance(r@),
{
    let mut nearby = cube_offsets(d);
    let ghost d = d as int;
    let ghost unsorted = nearby@;
    sort_by_distance(&mut nearby);
    proof {
        unsorted.lemma_multiset_has_no_duplicates();
        nearby@.lemma_multiset_has_no_duplicates_conv();
        assert forall|o: (i64, i64, i64)| nearby@.contains(o) <==> within(o, d as int) by {
            vstd::seq_lib::to_multiset_contains(nearby@, o);
            vstd::seq_lib::to_multiset_contains(unsorted, o);
            if unsorted.contains(o) {
                let i = choose|i: int| 0 <= i < unsorted.len() && unsorted[i] == o;
                assert(within(unsorted[i], d as int));
            }
        }
    }
    nearby
}

/// What to do about one chunk for one player.
#[derive(Clone, Copy, Debug, PartialEq, Eq, Structural)]
pub enum Decision {
    /// The player has the chunk as it is now.
    Skip,
    /// The chunk is being generated: nothing to do yet.
    Wait,
    /// Nobody has asked for the chunk yet: ask the world generator.
    Generate,
    /// The player lacks the chunk, or has an older version: send it.
    Send,
}

/// What to do about a chunk of which the player was last sent version `known`
/// (`None`: never sent) and the server holds `state` (`None`: nothing).
pub open spec fn decide_spec(known: Option<u64>, state: Option<ChunkState>) -> Decision {
    match state {
        None => Decision::Generate,
        Some(ChunkState::Generating) => Decision::Wait,
        Some(ChunkState::Generated(c)) => match known {
            None => Decision::Send,
            Some(v) => if v < c.version_spec() {
                Decision::Send
            } else {
                Decision::Skip
            },
        },
    }
}

/// What to do about a chunk of which the player was last sent version `known`
/// and the server holds `state`.
pub fn decide(known: Option<u64>, state: Option<&ChunkState>) -> (r: Decision)
    ensures
        r == decide_spec(
            known,
            match state {
                Some(s) => Some(*s),
                None => None,
            },
        ),
{
    match state {
        None => Decision::Generate,
        Some(ChunkState::Generating) => Decision::Wait,
        Some(ChunkState::Generated(c)) => match known {
            None => Decision::Send,
            Some(v) => if v < c.get_version() {
                Decision::Send
            } else {
                Decision::Skip
            },
        },
    }
}

/// What to do about the chunk at `p`, given a player's ledger and the server's
/// chunks.
pub open spec fn decision_at(
    ledger: Map<ChunkPos, u64>,
    chunks: Map<ChunkPos, ChunkState>,
    p: ChunkPos,
) -> Decision {
    decide_spec(
        if ledger.contains_key(p) {
            Some(ledger[p])
        } else {
            None
        },
        if chunks.contains_key(p) {
            Some(chunks[p])
        } else {
            None
        },
    )
}

/// Whether `contents` is a copy of the chunk that `state` holds.
pub open spec fn carries(contents: ChunkContents, state: ChunkState) -> bool {
    &&& state matches ChunkState::Generated(c)
    &&& *contents.0 == c.blocks_spec()
    &&& contents.1 == c.version_spec()
}

/// The version of the chunk that `state` holds; 0 where it holds none.
pub open spec fn version_in(state: ChunkState) -> u64 {
    match state {
        ChunkState::Generated(c) => c.version_spec(),
        ChunkState::Generating => 0,
    }
}

/// What one pass for a player at `center` makes of the server's chunks: every
/// position in reach that had nothing now waits for the generator, and nothing
/// else changes.
pub open spec fn chunks_after_pass(
    before: Map<ChunkPos, ChunkState>,
    after: Map<ChunkPos, ChunkState>,
    center: ChunkPos,
    d: int,
) -> bool {
    &&& forall|p: ChunkPos| #[trigger]
        after.contains_key(p) <==> before.contains_key(p) || in_reach(center, p, d)
    &&& forall|p: ChunkPos| before.contains_key(p) ==> #[trigger] after[p] == before[p]
    &&& forall|p: ChunkPos|
        !before.contains_key(p) && in_reach(center, p, d) ==> #[trigger] after[p]
            == ChunkState::Generating
}

/// What one pass makes of the player's ledger: a chunk that was sent is noted
/// with the version sent, a chunk out of reach is forgotten, and the other
/// entries stay.
pub open spec fn ledger_after_pass(
    before: Map<ChunkPos, u64>,
    after: Map<ChunkPos, u64>,
    chunks: Map<ChunkPos, ChunkState>,
    center: ChunkPos,
    d: int,
) -> bool {
    &&& forall|p: ChunkPos| #[trigger]
        after.contains_key(p) <==> in_reach(center, p, d) && (before.contains_key(p)
            || decision_at(before, chunks, p) == Decision::Send)
    &&& forall|p: ChunkPos| #[trigger]
        after.contains_key(p) ==> after[p] == (if decision_at(before, chunks, p)
            == Decision::Send {
            version_in(chunks[p])
        } else {
            before[p]
        })
}

/// What one pass sends to the player on connection `conn`: every chunk in reach
/// that the player lacks or has an older version of, once, as it is now, and the
/// nearer chunk before the farther.
pub open spec fn sends_of_pass(
    msgs: Seq<ToNetwork>,
    conn: ConnectionId,
    ledger: Map<ChunkPos, u64>,
    chunks: Map<ChunkPos, ChunkState>,
    center: ChunkPos,
    d: int,
) -> bool {
    &&& forall|i: int|
        0 <= i < msgs.len() ==> {
            let m = #[trigger] msgs[i];
            &&& m.connection() == conn
            &&& in_reach(center, m.pos(), d)
            &&& decision_at(ledger, chunks, m.pos()) == Decision::Send
            &&& carries(m.contents(), chunks[m.pos()])
        }
    &&& forall|i: int, j: int|
        0 <= i < j < msgs.len() ==> (#[trigger] msgs[i]).pos() != (#[trigger] msgs[j]).pos()
            && sq_dist_between(center, msgs[i].pos()) <= sq_dist_between(center, msgs[j].pos())
    &&& forall|p: ChunkPos|
        in_reach(center, p, d) && #[trigger] decision_at(ledger, chunks, p) == Decision::Send
            ==> exists|i: int| 0 <= i < msgs.len() && (#[trigger] msgs[i]).pos() == p
}

/// What one pass asks of the world generator: every chunk in reach of which the
/// server has nothing, once, and the nearer chunk before the farther.
pub open spec fn requests_of_pass(
    reqs: Seq<ToWorldgen>,
    chunks: Map<ChunkPos, ChunkState>,
    center: ChunkPos,
    d: int,
) -> bool {
    &&& forall|i: int|
        0 <= i < reqs.len() ==> {
            let m = #[trigger] reqs[i];
            &&& in_reach(center, m.pos(), d)
            &&& !chunks.contains_key(m.pos())
        }
    &&& forall|i: int, j: int|
        0 <= i < j < reqs.len() ==> (#[trigger] reqs[i]).pos() != (#[trigger] reqs[j]).pos()
            && sq_dist_between(center, reqs[i].pos()) <= sq_dist_between(center, reqs[j].pos())
    &&& forall|p: ChunkPos|
        in_reach(center, p, d) && !(#[trigger] chunks.contains_key(p)) ==> exists|i: int|
            0 <= i < reqs.len() && (#[trigger] reqs[i]).pos() == p
}

proof fn lemma_offset_reach(center: ChunkPos, o: (i64, i64, i64), d: int)
    requires
        0 <= d,
        within(o, d),
    ensures
        center.offset_spec(o.0 as int, o.1 as int, o.2 as int) matches Some(p) ==> in_reach(
            center,
            p,
            d,
        ) && diff(center, p) == o && sq_dist_between(center, p) == sq_dist_spec(o),
        sq_dist_spec(o) >= 0,
{
    lemma_square_bound(o.0 as int);
    lemma_square_bound(o.1 as int);
    lemma_square_bound(o.2 as int);
}

/// Serves one player with one chunk: sends the chunk at `pos` where the player
/// lacks it or has an older version of it, and notes the version sent; asks the
/// world generator for it where the server has nothing at `pos`, and notes
/// that the chunk is being generated; and does nothing otherwise. Returns what
/// was decided.
pub fn serve_chunk(
    chunks: &mut ChunkMap,
    ledger: &mut PosTable,
    conn: ConnectionId,
    pos: ChunkPos,
    to_network: &mut Vec<ToNetwork>,
    to_worldgen: &mut Vec<ToWorldgen>,
) -> (r: Decision)
    requires
        old(chunks).wf(),
    ensures
        final(chunks).wf(),
        final(chunks).hot_spec() == old(chunks).hot_spec(),
        r == decision_at(old(ledger)@, old(chunks)@, pos),
        final(chunks)@ == (if r == Decision::Generate {
            old(chunks)@.insert(pos, ChunkState::Generating)
        } else {
            old(chunks)@
        }),
        final(ledger)@ == (if r == Decision::Send {
            old(ledger)@.insert(pos, version_in(old(chunks)@[pos]))
        } else {
            old(ledger)@
        }),
        r != Decision::Send ==> final(to_network)@ == old(to_network)@,
        r == Decision::Send ==> final(to_network)@.len() == old(to_network)@.len() + 1,
        r == Decision::Send ==> final(to_network)@.drop_last() == old(to_network)@,
        r == Decision::Send ==> final(to_network)@.last().connection() == conn,
        r == Decision::Send ==> final(to_network)@.last().pos() == pos,
        r == Decision::Send ==> carries(final(to_network)@.last().contents(), old(chunks)@[pos]),
        final(to_worldgen)@ == (if r == Decision::Generate {
            old(to_worldgen)@.push(ToWorldgen::GenerateChunk(pos))
        } else {
            old(to_worldgen)@
        }),
{
    let known = ledger.get(&pos);
    let state = chunks.get(&pos);
    let decision = decide(known, state);
    match decision {
        Decision::Send => {
            if let Some(ChunkState::Generated(c)) = state {
                let version = c.get_version();
                let contents = c.clone_contents();
                ledger.insert(pos, version);
                to_network.push(ToNetwork::NewChunk(conn, pos, contents));
                assert(to_network@.drop_last() =~= old(to_network)@);
            }
        },
        Decision::Generate => {
            chunks.insert(pos, ChunkState::Generating);
            to_worldgen.push(ToWorldgen::GenerateChunk(pos));
        },
        _ => {},
    }
    decision
}

/// Serves one player: goes through the chunks within the player's reach,
/// nearest first, sends those that the player lacks or has an older version of,
/// and asks the world generator for those of which the server has nothing. Then
/// forgets what the player was sent of chunks that are out of reach.
///
/// `to_network` and `to_worldgen` get the messages appended. The chunks in
/// reach are listed in a vector, so their number has to be a `usize`: that is
/// the one bound on the render distance.
#[verifier::rlimit(60)]
pub fn stream_to_player(
    chunks: &mut ChunkMap,
    ledger: &mut PosTable,
    conn: ConnectionId,
    center: ChunkPos,
    render_distance: u64,
    to_network: &mut Vec<ToNetwork>,
    to_worldgen: &mut Vec<ToWorldgen>,
)
    requires
        old(chunks).wf(),
        cube_fits(render_distance as int),
    ensures
        final(chunks).wf(),
        final(chunks).hot_spec() == old(chunks).hot_spec(),
        chunks_after_pass(
            old(chunks)@,
            final(chunks)@,
            center,
            render_distance as int,
        ),
        ledger_after_pass(
            old(ledger)@,
            final(ledger)@,
            old(chunks)@,
            center,
            render_distance as int,
        ),
        final(to_network)@.len() >= old(to_network)@.len(),
        final(to_network)@.subrange(0, old(to_network)@.len() as int) == old(to_network)@,
        sends_of_pass(
            final(to_network)@.subrange(
                old(to_network)@.len() as int,
                final(to_network)@.len() as int,
            ),
            conn,
            old(ledger)@,
            old(chunks)@,
            center,
            render_distance as int,
        ),
        final(to_worldgen)@.len() >= old(to_worldgen)@.len(),
        final(to_worldgen)@.subrange(0, old(to_worldgen)@.len() as int) == old(to_worldgen)@,
        requests_of_pass(
            final(to_worldgen)@.subrange(
                old(to_worldgen)@.len() as int,
                final(to_worldgen)@.len() as int,
            ),
            old(chunks)@,
            center,
            render_distance as int,
        ),
{
    let reach: u64 = render_distance;
    let ghost d = reach as int;
    let ghost c0 = old(chunks)@;
    let ghost l0 = old(ledger)@;
    let ghost n0 = old(to_network)@.len() as int;
    let ghost w0 = old(to_worldgen)@.len() as int;
    let offsets = nearby_offsets(reach);
    let ghost mut done: Set<ChunkPos> = Set::empty();
    let ghost mut sent_at: Map<ChunkPos, int> = Map::empty();
    let ghost mut asked_at: Map<ChunkPos, int> = Map::empty();
    let ghost mut bound: int = 0;
    let mut k: usize = 0;
    proof {
        assert(to_network@.subrange(0, n0) =~= old(to_network)@);
        assert(to_worldgen@.subrange(0, w0) =~= old(to_worldgen)@);
        assert forall|j: int| 0 <= j < offsets.len() implies bound <= sq_dist_spec(
            #[trigger] offsets[j],
        ) by {
            assert(offsets@.contains(offsets@[j]));
            lemma_offset_reach(center, offsets[j], d);
        }
    }
    while k < offsets.len()
        invariant
            cube_fits(d),
            d == render_distance as int,
            c0 == old(chunks)@,
            l0 == old(ledger)@,
            n0 == old(to_network)@.len(),
            w0 == old(to_worldgen)@.len(),
            k <= offsets.len(),
            offsets@.no_duplicates(),
            forall|o: (i64, i64, i64)| offsets@.contains(o) <==> within(o, d),
            sorted_by_distance(offsets@),
            chunks.wf(),
            chunks.hot_spec() == old(chunks).hot_spec(),
            forall|p: ChunkPos| #[trigger]
                chunks@.contains_key(p) <==> c0.contains_key(p) || done.contains(p),
            forall|p: ChunkPos| c0.contains_key(p) ==> #[trigger] chunks@[p] == c0[p],
            forall|p: ChunkPos|
                done.contains(p) && !c0.contains_key(p) ==> #[trigger] chunks@[p]
                    == ChunkState::Generating,
            forall|p: ChunkPos| #[trigger]
                done.contains(p) ==> in_reach(center, p, d) && exists|j: int|
                    0 <= j < k && #[trigger] offsets[j] == diff(center, p),
            forall|j: int|
                0 <= j < k ==> (center.offset_spec(
                    (#[trigger] offsets[j]).0 as int,
                    offsets[j].1 as int,
                    offsets[j].2 as int,
                ) matches Some(p) ==> done.contains(p)),
            forall|p: ChunkPos|
                !done.contains(p) ==> (#[trigger] ledger@.contains_key(p) <==> l0.contains_key(p)),
            forall|p: ChunkPos|
                !done.contains(p) && l0.contains_key(p) ==> #[trigger] ledger@[p] == l0[p],
            forall|p: ChunkPos|
                done.contains(p) ==> (#[trigger] ledger@.contains_key(p) <==> l0.contains_key(p)
                    || decision_at(l0, c0, p) == Decision::Send),
            forall|p: ChunkPos|
                done.contains(p) && ledger@.contains_key(p) ==> #[trigger] ledger@[p] == (
                if decision_at(l0, c0, p) == Decision::Send {
                    version_in(c0[p])
                } else {
                    l0[p]
                }),
            to_network@.len() >= n0,
            to_network@.subrange(0, n0) == old(to_network)@,
            forall|i: int|
                n0 <= i < to_network@.len() ==> {
                    let m = #[trigger] to_network@[i];
                    &&& m.connection() == conn
                    &&& done.contains(m.pos())
                    &&& decision_at(l0, c0, m.pos()) == Decision::Send
                    &&& carries(m.contents(), c0[m.pos()])
                    &&& sq_dist_between(center, m.pos()) <= bound
                },
            forall|i: int, j: int|
                n0 <= i < j < to_network@.len() ==> (#[trigger] to_network@[i]).pos() != (
                #[trigger] to_network@[j]).pos() && sq_dist_between(center, to_network@[i].pos())
                    <= sq_dist_between(center, to_network@[j].pos()),
            forall|p: ChunkPos|
                #[trigger] done.contains(p) && decision_at(l0, c0, p) == Decision::Send
                    ==> sent_at.contains_key(p) && n0 <= sent_at[p] < to_network@.len()
                    && to_network@[sent_at[p]].pos() == p,
            to_worldgen@.len() >= w0,
            to_worldgen@.subrange(0, w0) == old(to_worldgen)@,
            forall|i: int|
                w0 <= i < to_worldgen@.len() ==> {
                    let m = #[trigger] to_worldgen@[i];
                    &&& done.contains(m.pos())
                    &&& !c0.contains_key(m.pos())
                    &&& sq_dist_between(center, m.pos()) <= bound
                },
            forall|i: int, j: int|
                w0 <= i < j < to_worldgen@.len() ==> (#[trigger] to_worldgen@[i]).pos() != (
                #[trigger] to_worldgen@[j]).pos() && sq_dist_between(
                    center,
                    to_worldgen@[i].pos(),
                ) <= sq_dist_between(center, to_worldgen@[j].pos()),
            forall|p: ChunkPos|
                #[trigger] done.contains(p) && !c0.contains_key(p) ==> asked_at.contains_key(p)
                    && w0 <= asked_at[p] < to_worldgen@.len() && to_worldgen@[asked_at[p]].pos()
                    == p,
            forall|j: int| k <= j < offsets.len() ==> bound <= sq_dist_spec(#[trigger] offsets[j]),
        decreases offsets.len() - k,
    {
        let o = offsets[k];
        proof {
            assert(offsets@.contains(offsets@[k as int]));
            lemma_offset_reach(center, o, d);
        }
        let ghost old_bound = bound;
        proof {
            bound = sq_dist_spec(o);
            assert forall|j: int| k + 1 <= j < offsets.len() implies bound <= sq_dist_spec(
                #[trigger] offsets[j],
            ) by {}
        }
        match center.checked_offset(o.0, o.1, o.2) {
            None => {},
            Some(pos) => {
                proof {
                    if done.contains(pos) {
                        let j = choose|j: int| 0 <= j < k && #[trigger] offsets[j]
                            == diff(center, pos);
                        assert(offsets@[j] == offsets@[k as int]);
                        assert(false);
                    }
                }
                let ghost net_before = to_network@;
                let ghost gen_before = to_worldgen@;
                let decision = serve_chunk(chunks, ledger, conn, pos, to_network, to_worldgen);
                proof {
                    if decision == Decision::Send {
                        sent_at = sent_at.insert(pos, net_before.len() as int);
                        assert(to_network@.drop_last() == net_before);
                        assert forall|i: int| 0 <= i < net_before.len() implies to_network@[i]
                            == net_before[i] by {
                            assert(to_network@.drop_last()[i] == to_network@[i]);
                        }
                        assert(to_network@.subrange(0, n0) =~= net_before.subrange(0, n0));
                        assert(to_network@[net_before.len() as int] == to_network@.last());
                        assert(sq_dist_between(center, pos) == bound);
                        assert forall|i: int, j: int|
                            n0 <= i < j < to_network@.len()
                                implies (#[trigger] to_network@[i]).pos()
                            != (#[trigger] to_network@[j]).pos() && sq_dist_between(
                            center,
                            to_network@[i].pos(),
                        ) <= sq_dist_between(center, to_network@[j].pos()) by {
                            assert(to_network@[i] == net_before[i]);
                            assert(done.contains(net_before[i].pos()));
                            assert(sq_dist_between(center, net_before[i].pos()) <= old_bound);
                            if j < net_before.len() {
                                assert(to_network@[j] == net_before[j]);
                            }
                        }
                    }
                    if decision == Decision::Generate {
                        asked_at = asked_at.insert(pos, gen_before.len() as int);
                        assert(to_worldgen@.subrange(0, w0) =~= gen_before.subrange(0, w0));
                    }
                }
                proof {
                    done = done.insert(pos);
                }
            },
        }
        k = k + 1;
    }
    proof {
        lemma_cube_fits(d, 0);
        assert forall|p: ChunkPos| in_reach(center, p, d) implies done.contains(p) by {
            lemma_reach_offsets(center, p, d);
            assert(offsets@.contains(diff(center, p)));
            let j = choose|j: int| 0 <= j < offsets.len() && offsets@[j] == diff(center, p);
            assert(center.offset_spec(
                offsets[j].0 as int,
                offsets[j].1 as int,
                offsets[j].2 as int,
            ) == Some(p));
        }
    }
    let ghost ledger_mid = ledger@;
    let keep = |p: &ChunkPos, v: u64| -> (r: bool)
        ensures
            r == (chebyshev(center, *p) <= reach),
        {
            center.in_range(*p, reach)
        };
    ledger.retain(keep);
    proof {
        let msgs = to_network@.subrange(n0, to_network@.len() as int);
        let reqs = to_worldgen@.subrange(w0, to_worldgen@.len() as int);
        assert forall|i: int| 0 <= i < msgs.len() implies {
            let m = #[trigger] msgs[i];
            &&& m.connection() == conn
            &&& in_reach(center, m.pos(), d)
            &&& decision_at(l0, c0, m.pos()) == Decision::Send
            &&& carries(m.contents(), c0[m.pos()])
        } by {
            assert(msgs[i] == to_network@[n0 + i]);
        }
        assert forall|i: int, j: int| 0 <= i < j < msgs.len() implies (#[trigger] msgs[i]).pos()
            != (
        #[trigger] msgs[j]).pos() && sq_dist_between(center, msgs[i].pos()) <= sq_dist_between(
            center,
            msgs[j].pos(),
        ) by {
            assert(msgs[i] == to_network@[n0 + i]);
            assert(msgs[j] == to_network@[n0 + j]);
        }
        assert forall|p: ChunkPos|
            in_reach(center, p, d) && #[trigger] decision_at(l0, c0, p)
                == Decision::Send implies exists|i: int|
            0 <= i < msgs.len() && (#[trigger] msgs[i]).pos() == p by {
            assert(done.contains(p));
            assert(sent_at.contains_key(p));
            assert(msgs[sent_at[p] - n0] == to_network@[sent_at[p]]);
        }
        assert forall|i: int| 0 <= i < reqs.len() implies {
            let m = #[trigger] reqs[i];
            &&& in_reach(center, m.pos(), d)
            &&& !c0.contains_key(m.pos())
        } by {
            assert(reqs[i] == to_worldgen@[w0 + i]);
        }
        assert forall|i: int, j: int| 0 <= i < j < reqs.len() implies (#[trigger] reqs[i]).pos()
            != (
        #[trigger] reqs[j]).pos() && sq_dist_between(center, reqs[i].pos()) <= sq_dist_between(
            center,
            reqs[j].pos(),
        ) by {
            assert(reqs[i] == to_worldgen@[w0 + i]);
            assert(reqs[j] == to_worldgen@[w0 + j]);
        }
        assert forall|p: ChunkPos|
            in_reach(center, p, d) && !(#[trigger] c0.contains_key(p)) implies exists|i: int|
            0 <= i < reqs.len() && (#[trigger] reqs[i]).pos() == p by {
            assert(done.contains(p));
            assert(asked_at.contains_key(p));
            assert(reqs[asked_at[p] - w0] == to_worldgen@[asked_at[p]]);
        }
        assert forall|p: ChunkPos| #[trigger]
            ledger@.contains_key(p) <==> in_reach(center, p, d) && (l0.contains_key(p)
                || decision_at(l0, c0, p) == Decision::Send) by {
            if ledger@.contains_key(p) {
                assert(ledger_mid.contains_key(p));
            }
            if in_reach(center, p, d) && ledger_mid.contains_key(p) {
                assert(done.contains(p));
                if !ledger@.contains_key(p) {
                    assert(call_ensures(keep, (&p, ledger_mid[p]), false));
                }
            }
            if !in_reach(center, p, d) && ledger@.contains_key(p) {
                assert(call_ensures(keep, (&p, ledger_mid[p]), true));
            }
        }
        assert forall|p: ChunkPos| #[trigger] ledger@.contains_key(p) implies ledger@[p] == (
        if decision_at(l0, c0, p) == Decision::Send {
            version_in(c0[p])
        } else {
            l0[p]
        }) by {
            assert(ledger_mid.contains_key(p));
            assert(call_ensures(keep, (&p, ledger_mid[p]), true));
            assert(done.contains(p));
        }
    }
}

/// Nothing is sent twice. Let a player be served twice in a row, from the same
/// place and with the same reach, with no edit and no new chunk in between.
/// Then the second pass sends nothing and asks for nothing: what the player was
/// sent is up to date, and what was asked for is on its way.
pub proof fn lemma_second_pass_is_silent(
    conn: ConnectionId,
    center: ChunkPos,
    d: int,
    chunks_before: Map<ChunkPos, ChunkState>,
    chunks_after: Map<ChunkPos, ChunkState>,
    ledger_before: Map<ChunkPos, u64>,
    ledger_after: Map<ChunkPos, u64>,
    msgs: Seq<ToNetwork>,
    reqs: Seq<ToWorldgen>,
)
    requires
        chunks_after_pass(chunks_before, chunks_after, center, d),
        ledger_after_pass(ledger_before, ledger_after, chunks_before, center, d),
        sends_of_pass(msgs, conn, ledger_after, chunks_after, center, d),
        requests_of_pass(reqs, chunks_after, center, d),
    ensures
        msgs.len() == 0,
        reqs.len() == 0,
{
    if msgs.len() > 0 {
        let p = msgs[0].pos();
        assert(in_reach(center, p, d));
        assert(decision_at(ledger_after, chunks_after, p) == Decision::Send);
        assert(chunks_after.contains_key(p));
        if chunks_before.contains_key(p) {
            assert(chunks_after[p] == chunks_before[p]);
            assert(ledger_after.contains_key(p));
        } else {
            assert(chunks_after[p] == ChunkState::Generating);
        }
    }
    if reqs.len() > 0 {
        let p = reqs[0].pos();
        assert(in_reach(center, p, d));
        assert(chunks_after.contains_key(p));
    }
}

} // verus!
