//! The whole way of a chunk: what the server cuts into messages, a client that
//! knew nothing of the chunk puts together again.

use crate::block::BlockId;
use crate::chunk::{column_empty, ChunkArray, ChunkFragment};
use crate::client::chunk::{
    deliver, fragment_delivered, info_bit, info_delivered, marked, newly_marked, ChunkData,
    ChunkInfo, Delivery, Epoch,
};
use crate::messages::network::ToClientView;
use crate::network::{decode, encode, fragment_of, lemma_fragment_round_trip, representable};
use crate::pos::{ChunkPos, FragmentPos};
use crate::server::network::{chunk_messages, column_message, fragments_upto, info_marks_empty};
use vstd::prelude::*;

verus! {

/// Whether `after` is what a chunk on the client is once it has taken in
/// `message`, the bytes of a column decoded, when it was `before`.
pub open spec fn taken(before: ChunkData, after: ChunkData, message: ToClientView) -> bool {
    match message {
        ToClientView::Fragment(_, fpos, bytes, version) => decode(bytes) is Some && exists|
            frag: ChunkFragment,
            r: Delivery,
        |
            frag@ == fragment_of(decode(bytes)->0) && #[trigger] fragment_delivered(
                before,
                after,
                fpos,
                frag,
                version,
                r,
            ),
        ToClientView::Info(_, info, version) => exists|r: Delivery| #[trigger]
            info_delivered(before, after, info, version, r),
    }
}

/// The columns below `n` that hold more than air.
pub open spec fn filled_below(blocks: ChunkArray, n: int) -> Set<int> {
    Set::new(|i: int| 0 <= i < n && !column_empty(blocks[i / 32][i % 32]))
}

/// Whether `data` is a chunk that knew nothing and has since taken in the
/// fragments of the first `n` columns of `blocks`: it holds those columns and
/// air elsewhere, and has received them and nothing else.
spec fn assembled_upto(
    data: ChunkData,
    blocks: ChunkArray,
    version: u64,
    n: int,
    sent: int,
) -> bool {
    &&& data.epoch().received == filled_below(blocks, n)
    &&& data.fragments_spec() == data.epoch().received.len()
    &&& if sent > 0 {
        data.epoch().version == version
    } else {
        data.epoch().version == 0
    }
    &&& forall|i: int|
        0 <= i < 1024 ==> #[trigger] data.blocks_spec()[i / 32][i % 32]@ == (if i < n {
            blocks[i / 32][i % 32]@
        } else {
            Seq::new(32, |z: int| BlockId(0))
        })
}

proof fn lemma_fragments_grow(blocks: ChunkArray, pos: ChunkPos, version: u64, n: nat, m: nat)
    requires
        n <= m,
    ensures
        fragments_upto(blocks, pos, version, n).len() <= fragments_upto(
            blocks,
            pos,
            version,
            m,
        ).len(),
        forall|j: int|
            0 <= j < fragments_upto(blocks, pos, version, n).len() ==> fragments_upto(
                blocks,
                pos,
                version,
                n,
            )[j] == #[trigger] fragments_upto(blocks, pos, version, m)[j],
    decreases m - n,
{
    if n < m {
        lemma_fragments_grow(blocks, pos, version, n, (m - 1) as nat);
    }
}

proof fn lemma_empty_column(col: ChunkFragment)
    requires
        column_empty(col),
    ensures
        col@ == Seq::new(32, |z: int| BlockId(0)),
{
    assert(col@ =~= Seq::new(32, |z: int| BlockId(0)));
}

proof fn lemma_assembled(
    states: Seq<ChunkData>,
    msgs: Seq<ToClientView>,
    pos: ChunkPos,
    blocks: ChunkArray,
    version: u64,
    n: nat,
)
    requires
        n <= 1024,
        chunk_messages(msgs, pos, blocks, version),
        states.len() == msgs.len() + 1,
        states[0].is_fresh(),
        forall|i: int| 0 <= i < msgs.len() ==> taken(#[trigger] states[i], states[i + 1], msgs[i]),
        forall|x: int, y: int|
            0 <= x < 32 && 0 <= y < 32 ==> representable(#[trigger] blocks[x][y]@),
    ensures
        assembled_upto(
            states[fragments_upto(blocks, pos, version, n).len() as int],
            blocks,
            version,
            n as int,
            fragments_upto(blocks, pos, version, n).len() as int,
        ),
    decreases n,
{
    let all = fragments_upto(blocks, pos, version, 1024);
    lemma_fragments_grow(blocks, pos, version, n, 1024);
    assert(all.len() == msgs.len() - 1);
    if n == 0 {
        let data = states[0];
        assert(data.epoch().received =~= filled_below(blocks, 0));
        assert forall|i: int| 0 <= i < 1024 implies #[trigger] data.blocks_spec()[i / 32][i
            % 32]@ == Seq::new(32, |z: int| BlockId(0)) by {
            assert(column_empty(data.blocks_spec()[i / 32][i % 32]));
            lemma_empty_column(data.blocks_spec()[i / 32][i % 32]);
        }
    } else {
        let c = (n - 1) as int;
        let x = c / 32;
        let y = c % 32;
        lemma_assembled(states, msgs, pos, blocks, version, (n - 1) as nat);
        let sent = fragments_upto(blocks, pos, version, (n - 1) as nat).len() as int;
        let before = states[sent];
        if column_empty(blocks[x][y]) {
            assert(filled_below(blocks, n as int) =~= filled_below(blocks, c));
            lemma_empty_column(blocks[x][y]);
            assert forall|i: int| 0 <= i < 1024 implies #[trigger] before.blocks_spec()[i / 32][i
                % 32]@ == (if i < n {
                blocks[i / 32][i % 32]@
            } else {
                Seq::new(32, |z: int| BlockId(0))
            }) by {}
        } else {
            let upto = fragments_upto(blocks, pos, version, n);
            let message = column_message(blocks, pos, version, x, y);
            assert(upto[sent] == message);
            assert(all[sent] == message);
            assert(msgs.drop_last()[sent] == msgs[sent]);
            assert(taken(states[sent], states[sent + 1], msgs[sent]));
            let after = states[sent + 1];
            let fpos = FragmentPos { x: x as usize, y: y as usize };
            let bytes = encode(blocks[x][y]@);
            lemma_fragment_round_trip(blocks[x][y]@);
            let (frag, r) = choose|frag: ChunkFragment, r: Delivery|
                frag@ == fragment_of(decode(bytes)->0) && #[trigger] fragment_delivered(
                    before,
                    after,
                    fpos,
                    frag,
                    version,
                    r,
                );
            assert(fpos.wf());
            assert(fpos.index_spec() == c);
            assert(after.epoch() == deliver(before.epoch(), c, version));
            assert(after.epoch().received =~= filled_below(blocks, n as int)) by {
                assert(filled_below(blocks, n as int) =~= filled_below(blocks, c).insert(c));
                if sent == 0 {
                    assert(filled_below(blocks, c) =~= Set::<int>::empty()) by {
                        assert(before.epoch().received == filled_below(blocks, c));
                        assert(before.fragments_spec() == before.epoch().received.len());
                        lemma_nothing_sent(blocks, pos, version, c as nat);
                    }
                }
            }
            assert forall|i: int| 0 <= i < 1024 implies #[trigger] after.blocks_spec()[i / 32][i
                % 32]@ == (if i < n {
                blocks[i / 32][i % 32]@
            } else {
                Seq::new(32, |z: int| BlockId(0))
            }) by {
                if i == c {
                    assert(after.blocks_spec()[x][y] == frag);
                } else {
                    assert(!(i / 32 == x && i % 32 == y));
                    assert(after.blocks_spec()[i / 32][i % 32] == before.blocks_spec()[i / 32][i
                        % 32]);
                    assert(before.blocks_spec()[i / 32][i % 32]@ == (if i < c {
                        blocks[i / 32][i % 32]@
                    } else {
                        Seq::new(32, |z: int| BlockId(0))
                    }));
                }
            }
        }
    }
}

/// Where no fragment was cut for the first `n` columns, all of them hold
/// nothing but air.
proof fn lemma_nothing_sent(blocks: ChunkArray, pos: ChunkPos, version: u64, n: nat)
    requires
        fragments_upto(blocks, pos, version, n).len() == 0,
    ensures
        filled_below(blocks, n as int) == Set::<int>::empty(),
    decreases n,
{
    if n > 0 {
        lemma_fragments_grow(blocks, pos, version, (n - 1) as nat, n);
        lemma_nothing_sent(blocks, pos, version, (n - 1) as nat);
        let c = (n - 1) as int;
        assert(column_empty(blocks[c / 32][c % 32]));
        assert(filled_below(blocks, n as int) =~= filled_below(blocks, c));
    } else {
        assert(filled_below(blocks, 0) =~= Set::<int>::empty());
    }
}

/// A chunk survives the stream. Let a client that knows nothing of a chunk take
/// in, one after the other, the messages that the server cuts the chunk into.
/// Then the client has all columns of the chunk at the server's version, and
/// holds the very blocks that the server holds.
///
/// This is stated for chunks whose columns a reader of the run-length code can
/// tell apart, see [`representable`].
pub proof fn lemma_stream_assembles(
    states: Seq<ChunkData>,
    msgs: Seq<ToClientView>,
    pos: ChunkPos,
    blocks: ChunkArray,
    version: u64,
)
    requires
        chunk_messages(msgs, pos, blocks, version),
        states.len() == msgs.len() + 1,
        states[0].is_fresh(),
        forall|i: int| 0 <= i < msgs.len() ==> taken(#[trigger] states[i], states[i + 1], msgs[i]),
        forall|x: int, y: int|
            0 <= x < 32 && 0 <= y < 32 ==> representable(#[trigger] blocks[x][y]@),
    ensures
        states.last().complete_spec(),
        states.last().epoch().version == version,
        forall|x: int, y: int|
            0 <= x < 32 && 0 <= y < 32 ==> #[trigger] states.last().blocks_spec()[x][y]@
                == blocks[x][y]@,
{
    lemma_assembled(states, msgs, pos, blocks, version, 1024);
    let sent = fragments_upto(blocks, pos, version, 1024).len() as int;
    assert(sent == msgs.len() - 1);
    let before = states[sent];
    let after = states[sent + 1];
    assert(after == states.last());
    assert(taken(states[sent], states[sent + 1], msgs[sent]));
    assert(msgs[sent] == msgs.last());
    let info = msgs.last()->Info_1;
    let r = choose|r: Delivery| #[trigger] info_delivered(before, after, info, version, r);
    let all = vstd::set_lib::set_int_range(0, 1024);
    vstd::set_lib::lemma_int_range(0, 1024);
    assert forall|i: int| 0 <= i < 1024 implies (marked(info).contains(i) <==> column_empty(
        blocks[i / 32][i % 32],
    )) by {
        assert(info_bit(info, i / 32, i % 32) == column_empty(blocks[i / 32][i % 32]));
    }
    assert(before.epoch().received == filled_below(blocks, 1024));
    assert(after.epoch() == crate::client::chunk::deliver_info(
        before.epoch(),
        marked(info),
        version,
    ));
    if sent == 0 {
        lemma_nothing_sent(blocks, pos, version, 1024);
        assert forall|i: int| 0 <= i < 1024 implies marked(info).contains(i) by {
            assert(!filled_below(blocks, 1024).contains(i));
        }
        assert(marked(info) =~= all);
    } else {
        assert forall|i: int| 0 <= i < 1024 implies before.epoch().received.union(
            marked(info),
        ).contains(i) by {
            if !marked(info).contains(i) {
                assert(filled_below(blocks, 1024).contains(i));
            }
        }
        assert(before.epoch().received.union(marked(info)) =~= all);
    }
    assert(after.epoch().received =~= all);
    assert(after.epoch().version == version);
    assert forall|x: int, y: int| 0 <= x < 32 && 0 <= y < 32 implies #[trigger] after.blocks_spec()[x][y]@
        == blocks[x][y]@ by {
        let i = 32 * x + y;
        assert(i / 32 == x && i % 32 == y);
        assert(after.blocks_spec()[i / 32][i % 32]@ == (if newly_marked(
            crate::client::chunk::epoch_entered(before.epoch(), version),
            info,
            i,
        ) {
            Seq::new(32, |z: int| BlockId(0))
        } else {
            before.blocks_spec()[i / 32][i % 32]@
        }));
        assert(before.blocks_spec()[i / 32][i % 32]@ == blocks[i / 32][i % 32]@);
        if marked(info).contains(i) {
            lemma_empty_column(blocks[x][y]);
        }
    }
}

} // verus!
