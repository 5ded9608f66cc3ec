//! The network side of the server: cuts chunks into messages and paces what
//! each client is sent.

use crate::chunk::{column_empty, fragment_is_empty, ChunkArray, ChunkContents};
use crate::client::chunk::{info_bit, info_empty, info_set, ChunkInfo};
use crate::messages::network::{ToClient, ToClientView, ToServer};
use crate::messages::server::{ToGamePlayer, ToNetwork};
use crate::network::{encode, serialize_fragment, ConnectionId, ServerEvent};
use crate::pos::{ChunkPos, FragmentPos};
use std::collections::VecDeque;
use vstd::prelude::*;

verus! {

/// Whether `info` marks exactly the columns of `blocks` that hold nothing but
/// air.
pub open spec fn info_marks_empty(info: ChunkInfo, blocks: ChunkArray) -> bool {
    forall|x: int, y: int|
        0 <= x < 32 && 0 <= y < 32 ==> #[trigger] info_bit(info, x, y) == column_empty(blocks[x][y])
}

/// The message that carries column `(x, y)` of a chunk.
pub open spec fn column_message(
    blocks: ChunkArray,
    pos: ChunkPos,
    version: u64,
    x: int,
    y: int,
) -> ToClientView {
    ToClientView::Fragment(
        pos,
        FragmentPos { x: x as usize, y: y as usize },
        encode(blocks[x][y]@),
        version,
    )
}

/// The messages for the first `n` columns of a chunk, counted with `y`
/// fastest: one for each column that holds more than air.
pub open spec fn fragments_upto(
    blocks: ChunkArray,
    pos: ChunkPos,
    version: u64,
    n: nat,
) -> Seq<ToClientView>
    decreases n,
{
    if n == 0 {
        Seq::empty()
    } else {
        let i = (n - 1) as int;
        let before = fragments_upto(blocks, pos, version, (n - 1) as nat);
        if column_empty(blocks[i / 32][i % 32]) {
            before
        } else {
            before.push(column_message(blocks, pos, version, i / 32, i % 32))
        }
    }
}

/// Whether `msgs` are the messages that stream a chunk: one fragment for each
/// column that holds more than air, in order, and then one info message that
/// marks the other columns.
pub open spec fn chunk_messages(
    msgs: Seq<ToClientView>,
    pos: ChunkPos,
    blocks: ChunkArray,
    version: u64,
) -> bool {
    &&& msgs.len() >= 1
    &&& msgs.drop_last() == fragments_upto(blocks, pos, version, 1024)
    &&& msgs.last() matches ToClientView::Info(p, info, v)
    &&& p == pos
    &&& v == version
    &&& info_marks_empty(info, blocks)
}

/// One message on its way to one client.
pub struct Outgoing {
    pub connection: ConnectionId,
    pub message: ToClient,
}

/// The messages of `out` as values, without their addresses.
pub open spec fn views(out: Seq<Outgoing>) -> Seq<ToClientView> {
    out.map_values(|o: Outgoing| o.message@)
}

/// Cuts a chunk into the messages that stream it to the client on connection
/// `connection`.
pub fn fragment_chunk(connection: ConnectionId, pos: ChunkPos, contents: &ChunkContents) -> (r: Vec<
    Outgoing,
>)
    ensures
        forall|i: int| 0 <= i < r@.len() ==> (#[trigger] r@[i]).connection == connection,
        chunk_messages(views(r@), pos, *contents.0, contents.1),
{
    let mut out: Vec<Outgoing> = Vec::new();
    let mut info: ChunkInfo = info_empty();
    let version = contents.get_version();
    let ghost blocks = *contents.0;
    let mut i: usize = 0;
    proof {
        assert(views(out@) =~= fragments_upto(blocks, pos, version, 0));
    }
    while i < 1024
        invariant
            i <= 1024,
            blocks == *contents.0,
            version == contents.1,
            views(out@) == fragments_upto(blocks, pos, version, i as nat),
            forall|t: int| 0 <= t < out@.len() ==> (#[trigger] out@[t]).connection == connection,
            forall|a: int, b: int|
                0 <= a < 32 && 0 <= b < 32 ==> #[trigger] info_bit(info, a, b) == (32 * a + b < i
                    && column_empty(blocks[a][b])),
        decreases 1024 - i,
    {
        let x = i / 32;
        let y = i % 32;
        let ghost before = out@;
        let ghost info_before = info;
        if fragment_is_empty(&contents.0[x][y]) {
            info_set(&mut info, x, y);
        } else {
            let bytes = serialize_fragment(&contents.0[x][y]);
            out.push(
                Outgoing {
                    connection,
                    message: ToClient::NewChunkFragment(pos, FragmentPos { x, y }, bytes, version),
                },
            );
            proof {
                assert(views(out@) =~= views(before).push(
                    column_message(blocks, pos, version, x as int, y as int),
                ));
            }
        }
        i = i + 1;
    }
    let ghost before = out@;
    out.push(Outgoing { connection, message: ToClient::NewChunkInfo(pos, info, version) });
    proof {
        assert(views(out@).drop_last() =~= views(before));
    }
    out
}

/// One chunk that waits to be streamed.
pub struct QueuedChunk {
    pub pos: ChunkPos,
    pub contents: ChunkContents,
}

/// The chunks that wait to be streamed to one client, oldest first.
pub struct ConnectionQueue {
    pub id: ConnectionId,
    pub queue: VecDeque<QueuedChunk>,
}

/// The queues of the chunks that wait to be streamed, one queue for each
/// client that was ever sent a chunk.
pub struct ServerImpl {
    queues: Vec<ConnectionQueue>,
}

/// Whether `out` is what one turn sends to the client `id` whose queue is
/// `queue`: nothing where the queue is empty, and else the messages that stream
/// the oldest chunk of the queue.
pub open spec fn turn_sent(out: Seq<Outgoing>, id: ConnectionId, queue: Seq<QueuedChunk>) -> bool {
    if queue.len() == 0 {
        out.len() == 0
    } else {
        &&& forall|i: int| 0 <= i < out.len() ==> (#[trigger] out[i]).connection == id
        &&& chunk_messages(
            views(out),
            queue[0].pos,
            *queue[0].contents.0,
            queue[0].contents.1,
        )
    }
}

impl ServerImpl {
    /// Number of queues.
    pub closed spec fn queue_count(&self) -> nat {
        self.queues@.len()
    }

    /// The client of queue number `i`.
    pub closed spec fn queue_id(&self, i: int) -> ConnectionId {
        self.queues@[i].id
    }

    /// The chunks in queue number `i`, oldest first.
    pub closed spec fn queue_spec(&self, i: int) -> Seq<QueuedChunk> {
        self.queues@[i].queue@
    }

    /// No two queues are for the same client.
    pub closed spec fn wf(&self) -> bool {
        forall|i: int, j: int|
            0 <= i < j < self.queues@.len() ==> (#[trigger] self.queues@[i]).id != (
            #[trigger] self.queues@[j]).id
    }

    /// What follows from [`ServerImpl::wf`]: no two queues serve one client.
    pub proof fn lemma_wf(&self)
        requires
            self.wf(),
        ensures
            forall|i: int, j: int|
                0 <= i < self.queue_count() && 0 <= j < self.queue_count() && i != j
                    ==> #[trigger] self.queue_id(i) != #[trigger] self.queue_id(j),
    {
        assert forall|i: int, j: int|
            0 <= i < self.queue_count() && 0 <= j < self.queue_count() && i
                != j implies #[trigger] self.queue_id(i) != #[trigger] self.queue_id(j) by {
            if i < j {
                assert(self.queues@[i].id != self.queues@[j].id);
            } else {
                assert(self.queues@[j].id != self.queues@[i].id);
            }
        }
    }

    /// Whether some queue is for client `id`.
    pub open spec fn has_queue(&self, id: ConnectionId) -> bool {
        exists|i: int| 0 <= i < self.queue_count() && #[trigger] self.queue_id(i) == id
    }

    /// No queues.
    pub fn new() -> (r: ServerImpl)
        ensures
            r.wf(),
            r.queue_count() == 0,
    {
        ServerImpl { queues: Vec::new() }
    }

    /// The number of the queue for client `id`.
    pub fn find_queue(&self, id: ConnectionId) -> (r: Option<usize>)
        ensures
            r matches Some(i) ==> i < self.queue_count() && self.queue_id(i as int) == id,
            r is None ==> !self.has_queue(id),
    {
        let mut i: usize = 0;
        while i < self.queues.len()
            invariant
                i <= self.queues.len(),
                forall|j: int| 0 <= j < i ==> (#[trigger] self.queues@[j]).id != id,
            decreases self.queues.len() - i,
        {
            if self.queues[i].id == id {
                return Some(i);
            }
            i = i + 1;
        }
        assert forall|j: int| 0 <= j < self.queue_count() implies #[trigger] self.queue_id(j)
            != id by {
            assert(self.queues@[j].id != id);
        }
        None
    }

    /// Number of chunks that wait for client `id`.
    pub fn pending(&self, id: ConnectionId) -> (r: usize)
        requires
            self.wf(),
        ensures
            !self.has_queue(id) ==> r == 0,
            forall|i: int|
                0 <= i < self.queue_count() && #[trigger] self.queue_id(i) == id ==> r
                    == self.queue_spec(i).len(),
    {
        match self.find_queue(id) {
            Some(i) => {
                proof {
                    assert forall|j: int|
                        0 <= j < self.queue_count() && #[trigger] self.queue_id(j) == id implies j
                        == i by {
                        if j < i {
                            assert(self.queues@[j].id != self.queues@[i as int].id);
                        }
                        if i < j {
                            assert(self.queues@[i as int].id != self.queues@[j].id);
                        }
                    }
                }
                self.queues[i].queue.len()
            },
            None => 0,
        }
    }

    /// Takes in a chunk for a client: the chunk goes to the end of the client's
    /// queue. A client that has no queue yet gets one, behind the others.
    pub fn enqueue(&mut self, message: ToNetwork)
        requires
            old(self).wf(),
        ensures
            final(self).wf(),
            enqueued(*old(self), *final(self), message),
    {
        match message {
            ToNetwork::NewChunk(id, pos, contents) => {
                let item = QueuedChunk { pos, contents };
                match self.find_queue(id) {
                    Some(i) => {
                        self.queues[i].queue.push_back(item);
                        proof {
                            assert forall|a: int, b: int|
                                0 <= a < b < self.queues@.len() implies (
                            #[trigger] self.queues@[a]).id != (#[trigger] self.queues@[b]).id by {
                                assert(old(self).queues@[a].id != old(self).queues@[b].id);
                            }
                        }
                    },
                    None => {
                        let mut queue: VecDeque<QueuedChunk> = VecDeque::new();
                        queue.push_back(item);
                        self.queues.push(ConnectionQueue { id, queue });
                        proof {
                            assert(queue@ =~= seq![item]);
                            assert forall|a: int, b: int|
                                0 <= a < b < self.queues@.len() implies (
                            #[trigger] self.queues@[a]).id != (#[trigger] self.queues@[b]).id by {
                                if b < old(self).queues@.len() {
                                    assert(old(self).queues@[a].id != old(self).queues@[b].id);
                                } else {
                                    assert(old(self).queue_id(a) != id);
                                }
                            }
                        }
                    },
                }
            },
        }
    }

    /// One turn: every client that has a chunk waiting is sent its oldest one,
    /// cut into messages. The clients come in the order of their queues.
    pub fn process_messages(&mut self) -> (r: Vec<Outgoing>)
        requires
            old(self).wf(),
        ensures
            final(self).wf(),
            final(self).queue_count() == old(self).queue_count(),
            forall|i: int|
                0 <= i < old(self).queue_count() ==> #[trigger] final(self).queue_id(i)
                    == old(self).queue_id(i) && final(self).queue_spec(i)
                    == (if old(self).queue_spec(i).len()
                    > 0 {
                    old(self).queue_spec(i).drop_first()
                } else {
                    old(self).queue_spec(i)
                }),
            exists|cuts: Seq<int>| #[trigger] turns_sent(*old(self), r@, cuts),
    {
        let mut out: Vec<Outgoing> = Vec::new();
        let ghost mut cuts: Seq<int> = seq![0int];
        let n = self.queues.len();
        let mut i: usize = 0;
        while i < n
            invariant
                i <= n,
                n == old(self).queues@.len(),
                self.queues@.len() == n,
                forall|j: int|
                    0 <= j < n ==> (#[trigger] self.queues@[j]).id == old(self).queues@[j].id,
                forall|j: int|
                    i <= j < n ==> (#[trigger] self.queues@[j]).queue@
                        == old(self).queues@[j].queue@,
                forall|j: int|
                    0 <= j < i ==> (#[trigger] self.queues@[j]).queue@
                        == (if old(self).queues@[j].queue@.len() > 0 {
                        old(self).queues@[j].queue@.drop_first()
                    } else {
                        old(self).queues@[j].queue@
                    }),
                cuts.len() == i + 1,
                cuts[0] == 0,
                cuts[i as int] == out@.len(),
                forall|j: int|
                    0 <= j < i ==> 0 <= #[trigger] cuts[j] <= cuts[j + 1] <= out@.len()
                        && turn_sent(
                        out@.subrange(cuts[j], cuts[j + 1]),
                        old(self).queue_id(j),
                        old(self).queue_spec(j),
                    ),
            decreases n - i,
        {
            let id = self.queues[i].id;
            let ghost out_before = out@;
            let ghost cuts_before = cuts;
            let ghost queues_before = self.queues@;
            // Reply to 1 message
            match self.queues[i].queue.pop_front() {
                None => {},
                Some(item) => {
                    let mut msgs = fragment_chunk(id, item.pos, &item.contents);
                    let ghost sent = msgs@;
                    out.append(&mut msgs);
                    proof {
                        assert(out@.subrange(out_before.len() as int, out@.len() as int) =~= sent);
                        assert(out@.subrange(0, out_before.len() as int) =~= out_before);
                    }
                },
            }
            proof {
                cuts = cuts.push(out@.len() as int);
                assert forall|t: int| 0 <= t < out_before.len() implies out@[t]
                    == out_before[t] by {
                    if out@.len() > out_before.len() {
                        assert(out@.subrange(0, out_before.len() as int)[t] == out@[t]);
                    }
                }
                assert forall|j: int| 0 <= j < i + 1 implies 0 <= #[trigger] cuts[j] <= cuts[j
                    + 1] <= out@.len() && turn_sent(
                    out@.subrange(cuts[j], cuts[j + 1]),
                    old(self).queue_id(j),
                    old(self).queue_spec(j),
                ) by {
                    if j < i {
                        assert(cuts[j] == cuts_before[j]);
                        assert(cuts[j + 1] == cuts_before[j + 1]);
                        assert(out@.subrange(cuts[j], cuts[j + 1]) =~= out_before.subrange(
                            cuts[j],
                            cuts[j + 1],
                        ));
                    } else {
                        assert(cuts[j] == cuts_before[j]);
                        assert(queues_before[j].queue@ == old(self).queues@[j].queue@);
                    }
                }
                assert forall|j: int| 0 <= j < n implies (#[trigger] self.queues@[j]).id
                    == old(self).queues@[j].id by {
                    assert(queues_before[j].id == old(self).queues@[j].id);
                }
                assert forall|j: int| i + 1 <= j < n implies (#[trigger] self.queues@[j]).queue@
                    == old(self).queues@[j].queue@ by {
                    assert(queues_before[j].queue@ == old(self).queues@[j].queue@);
                }
                assert forall|j: int| 0 <= j < i + 1 implies (#[trigger] self.queues@[j]).queue@
                    == (
                if old(self).queues@[j].queue@.len() > 0 {
                    old(self).queues@[j].queue@.drop_first()
                } else {
                    old(self).queues@[j].queue@
                }) by {
                    if j < i {
                        assert(self.queues@[j] == queues_before[j]);
                    } else {
                        assert(queues_before[j].queue@ == old(self).queues@[j].queue@);
                    }
                }
            }
            i = i + 1;
        }
        proof {
            assert(turns_sent(*old(self), out@, cuts));
            assert forall|a: int, b: int| 0 <= a < b < self.queues@.len() implies (
            #[trigger] self.queues@[a]).id != (#[trigger] self.queues@[b]).id by {
                assert(old(self).queues@[a].id != old(self).queues@[b].id);
            }
        }
        out
    }
}

/// Whether `after` is `before` with the chunk of `message` at the end of the
/// queue of its client.
pub open spec fn enqueued(before: ServerImpl, after: ServerImpl, message: ToNetwork) -> bool {
    let id = message.connection();
    let item = QueuedChunk { pos: message.pos(), contents: message.contents() };
    let n = before.queue_count() as int;
    if before.has_queue(id) {
        &&& after.queue_count() == n
        &&& forall|i: int|
            0 <= i < n ==> #[trigger] after.queue_id(i) == before.queue_id(i) && after.queue_spec(i)
                == (if before.queue_id(i) == id {
                before.queue_spec(i).push(item)
            } else {
                before.queue_spec(i)
            })
    } else {
        &&& after.queue_count() == n + 1
        &&& forall|i: int|
            0 <= i < n ==> #[trigger] after.queue_id(i) == before.queue_id(i) && after.queue_spec(i)
                == before.queue_spec(i)
        &&& after.queue_id(n) == id
        &&& after.queue_spec(n) == seq![item]
    }
}

/// Whether `out` is what one turn sends for the queues of `before`, the messages
/// for queue number `i` between `cuts[i]` and `cuts[i + 1]`.
pub open spec fn turns_sent(before: ServerImpl, out: Seq<Outgoing>, cuts: Seq<int>) -> bool {
    let n = before.queue_count() as int;
    &&& cuts.len() == n + 1
    &&& cuts[0] == 0
    &&& cuts[n] == out.len()
    &&& forall|i: int|
        0 <= i < n ==> 0 <= #[trigger] cuts[i] <= cuts[i + 1] <= out.len() && turn_sent(
            out.subrange(cuts[i], cuts[i + 1]),
            before.queue_id(i),
            before.queue_spec(i),
        )
}

/// What the game is told of a network event that needs no decoding: that a
/// client came or went. A message from a client has to be decoded first.
pub fn connection_event(event: &ServerEvent) -> (r: Option<(ConnectionId, ToGamePlayer)>)
    ensures
        match *event {
            ServerEvent::Connection(id) => r matches Some((c, ToGamePlayer::Connect)) && c == id,
            ServerEvent::ConnectionClosed(id) => r matches Some((c, ToGamePlayer::Disconnect)) && c
                == id,
            ServerEvent::Message(_, _) => r is None,
        },
{
    match event {
        ServerEvent::Connection(id) => Some((*id, ToGamePlayer::Connect)),
        ServerEvent::ConnectionClosed(id) => Some((*id, ToGamePlayer::Disconnect)),
        ServerEvent::Message(_, _) => None,
    }
}

/// What the game is told of a decoded message from a client.
pub fn player_event(message: ToServer) -> (r: ToGamePlayer)
    ensures
        match message {
            ToServer::SetInput(keys) => r matches ToGamePlayer::SetInput(k) && k == keys,
            ToServer::SetRenderDistance(d) => r matches ToGamePlayer::SetRenderDistance(e) && e
                == d,
        },
{
    match message {
        ToServer::SetInput(input) => ToGamePlayer::SetInput(input),
        ToServer::SetRenderDistance(render_distance) => ToGamePlayer::SetRenderDistance(
            render_distance,
        ),
    }
}

} // verus!
