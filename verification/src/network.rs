//! What crosses the wire: network events and the run-length code for columns.
//!
//! A column is sent as a sequence of runs. A run of one block is its 16-bit id,
//! high byte first. A longer run is a count byte with the top bit set, then the
//! id. A reader tells the two apart by the top bit of the first byte.

use crate::block::BlockId;
use crate::chunk::ChunkFragment;
use vstd::prelude::*;

verus! {

/// A client-side network event.
pub enum ClientEvent {
    /// Connection with the server established.
    Connection,
    /// Connection with the server closed or lost.
    ConnectionClosed,
    /// Message received from the server.
    Message(Vec<u8>),
}

pub type ConnectionId = usize;

/// A server-side network event.
pub enum ServerEvent {
    /// Connection with a new client established.
    Connection(ConnectionId),
    /// Connection with a client closed or lost.
    ConnectionClosed(ConnectionId),
    /// Message received from a client.
    Message(ConnectionId, Vec<u8>),
}

/// The server's end of a transport.
pub trait Server {
    /// Next event.
    fn next_event(&mut self) -> Option<ServerEvent>;

    /// Send a message.
    fn send_message(&mut self, connection: ConnectionId, message: Vec<u8>);
}

/// The client's end of a transport.
pub trait Client {
    /// Next event.
    fn next_event(&mut self) -> Option<ClientEvent>;

    /// Send a message.
    fn send_message(&mut self, message: Vec<u8>);
}

/// High byte of a block id.
pub open spec fn hi_byte(id: BlockId) -> u8 {
    (id.0 / 256) as u8
}

/// Low byte of a block id.
pub open spec fn lo_byte(id: BlockId) -> u8 {
    (id.0 % 256) as u8
}

/// The block id with the given high and low byte.
pub open spec fn join_bytes(hi: u8, lo: u8) -> BlockId {
    BlockId((hi as int * 256 + lo as int) as u16)
}

/// The count byte for a run of `n` blocks: `n` with the top bit set.
pub open spec fn count_byte(n: nat) -> u8 {
    0x80u8 | (n as u8)
}

/// Whether a byte at the start of a run is a count byte.
pub open spec fn is_count_byte(b: u8) -> bool {
    b & 0x80u8 != 0
}

/// The run length that a count byte announces: its low seven bits.
pub open spec fn count_of(b: u8) -> nat {
    (b & 0x7fu8) as nat
}

/// How far the run of `s[0]` reaches when at least `n` elements belong to it.
pub open spec fn run_extend(s: Seq<BlockId>, n: nat) -> nat
    decreases s.len() - n,
{
    if n < s.len() && n < 255 && s[n as int] == s[0] {
        run_extend(s, n + 1)
    } else {
        n
    }
}

/// Length of the first run of `s`: how many leading elements equal `s[0]`, but
/// 255 at most. Zero for the empty sequence.
pub open spec fn run_len(s: Seq<BlockId>) -> nat {
    if s.len() == 0 {
        0
    } else {
        run_extend(s, 1)
    }
}

/// The bytes of one run of `n` blocks `id`.
pub open spec fn encode_run(id: BlockId, n: nat) -> Seq<u8> {
    if n == 1 {
        seq![hi_byte(id), lo_byte(id)]
    } else {
        seq![count_byte(n), hi_byte(id), lo_byte(id)]
    }
}

/// The bytes of a sequence of blocks: its runs, one after the other.
pub open spec fn encode(s: Seq<BlockId>) -> Seq<u8>
    decreases s.len(),
{
    if s.len() == 0 {
        Seq::empty()
    } else {
        let n = run_len(s);
        if 1 <= n <= s.len() {
            encode_run(s[0], n) + encode(s.skip(n as int))
        } else {
            Seq::empty()
        }
    }
}

/// The blocks that a byte stream stands for, or `None` where the stream ends in
/// the middle of a run.
pub open spec fn decode(b: Seq<u8>) -> Option<Seq<BlockId>>
    decreases b.len(),
{
    if b.len() == 0 {
        Some(Seq::empty())
    } else if is_count_byte(b[0]) {
        if b.len() < 3 {
            None
        } else {
            match decode(b.skip(3)) {
                Some(rest) => Some(Seq::new(count_of(b[0]), |i: int| join_bytes(b[1], b[2]))
                    + rest),
                None => None,
            }
        }
    } else {
        if b.len() < 2 {
            None
        } else {
            match decode(b.skip(2)) {
                Some(rest) => Some(seq![join_bytes(b[0], b[1])] + rest),
                None => None,
            }
        }
    }
}

/// Whether a reader can tell every run of `s` apart: no run is longer than the
/// seven bits of a count byte hold, and no single block has an id whose high byte
/// looks like a count byte.
pub open spec fn representable(s: Seq<BlockId>) -> bool
    decreases s.len(),
{
    if s.len() == 0 {
        true
    } else {
        let n = run_len(s);
        &&& 1 <= n <= s.len()
        &&& n < 128
        &&& n == 1 ==> s[0].0 < 0x8000
        &&& representable(s.skip(n as int))
    }
}

/// The column that a decoded sequence fills: its first 32 blocks, and air where
/// it is shorter.
pub open spec fn fragment_of(blocks: Seq<BlockId>) -> Seq<BlockId> {
    Seq::new(
        32,
        |i: int|
            if i < blocks.len() {
                blocks[i]
            } else {
                BlockId(0)
            },
    )
}

proof fn lemma_count_bits(b: u8)
    by (bit_vector)
    ensures
        (b & 0x80u8 != 0) == (b >= 128),
        b >= 128 ==> (b & 0x7fu8) == b - 128,
        b < 128 ==> (0x80u8 | b) == b + 128,
        b >= 128 ==> (0x80u8 | b) == b,
{
}

proof fn lemma_bytes_join(v: u16)
    ensures
        join_bytes(hi_byte(BlockId(v)), lo_byte(BlockId(v))) == BlockId(v),
        v < 0x8000 <==> hi_byte(BlockId(v)) < 128,
{
}

/// The first run is never empty, never longer than 255 or than the sequence,
/// holds only copies of the first element, and ends where the sequence ends, the
/// cap is reached or another block follows.
pub proof fn lemma_run_len(s: Seq<BlockId>)
    requires
        s.len() > 0,
    ensures
        1 <= run_len(s) <= s.len(),
        run_len(s) <= 255,
        forall|i: int| 0 <= i < run_len(s) ==> #[trigger] s[i] == s[0],
        run_len(s) == s.len() || run_len(s) == 255 || s[run_len(s) as int] != s[0],
{
    lemma_run_extend(s, 1);
}

proof fn lemma_run_extend(s: Seq<BlockId>, n: nat)
    requires
        1 <= n <= s.len(),
        n <= 255,
        forall|i: int| 0 <= i < n ==> #[trigger] s[i] == s[0],
    ensures
        n <= run_extend(s, n) <= s.len(),
        run_extend(s, n) <= 255,
        forall|i: int| 0 <= i < run_extend(s, n) ==> #[trigger] s[i] == s[0],
        run_extend(s, n) == s.len() || run_extend(s, n) == 255 || s[run_extend(s, n) as int]
            != s[0],
    decreases s.len() - n,
{
    if n < s.len() && n < 255 && s[n as int] == s[0] {
        lemma_run_extend(s, n + 1);
    }
}

/// A block of `n` equal elements that ends at the end of the sequence, at the
/// cap or before a different block is the first run.
proof fn lemma_run_len_is(s: Seq<BlockId>, n: nat)
    requires
        1 <= n <= s.len(),
        n <= 255,
        forall|i: int| 0 <= i < n ==> #[trigger] s[i] == s[0],
        n == s.len() || n == 255 || s[n as int] != s[0],
    ensures
        run_len(s) == n,
{
    lemma_run_reaches(s, 1, n);
}

proof fn lemma_run_reaches(s: Seq<BlockId>, k: nat, n: nat)
    requires
        1 <= k <= n <= s.len(),
        n <= 255,
        forall|i: int| 0 <= i < n ==> #[trigger] s[i] == s[0],
        n == s.len() || n == 255 || s[n as int] != s[0],
    ensures
        run_extend(s, k) == n,
    decreases n - k,
{
    if k < n {
        lemma_run_reaches(s, k + 1, n);
    }
}

/// Decoding what was encoded gives the blocks back, for every sequence whose runs
/// a reader can tell apart.
pub proof fn lemma_round_trip(s: Seq<BlockId>)
    requires
        representable(s),
    ensures
        decode(encode(s)) == Some(s),
    decreases s.len(),
{
    if s.len() > 0 {
        lemma_run_len(s);
        let n = run_len(s);
        let rest = s.skip(n as int);
        let head = encode_run(s[0], n);
        let b = head + encode(rest);
        lemma_round_trip(rest);
        lemma_bytes_join(s[0].0);
        lemma_count_bits(n as u8);
        lemma_count_bits(hi_byte(s[0]));
        if n == 1 {
            assert(b[0] == hi_byte(s[0]));
            assert(b[1] == lo_byte(s[0]));
            assert(b.skip(2) =~= encode(rest));
            assert(seq![s[0]] + rest =~= s);
        } else {
            assert(b[0] == count_byte(n));
            lemma_count_bits(b[0]);
            assert(b[1] == hi_byte(s[0]));
            assert(b[2] == lo_byte(s[0]));
            assert(b.skip(3) =~= encode(rest));
            assert(count_of(b[0]) == n);
            assert(Seq::new(n, |i: int| s[0]) + rest =~= s);
        }
    } else {
        assert(encode(s) =~= Seq::<u8>::empty());
    }
}

/// Every sequence of fewer than 128 blocks with ids below `0x8000` has runs that
/// a reader can tell apart.
pub proof fn lemma_small_ids_representable(s: Seq<BlockId>)
    requires
        s.len() < 128,
        forall|i: int| 0 <= i < s.len() ==> (#[trigger] s[i]).0 < 0x8000,
    ensures
        representable(s),
    decreases s.len(),
{
    if s.len() > 0 {
        lemma_run_len(s);
        lemma_small_ids_representable(s.skip(run_len(s) as int));
    }
}

/// A column survives the wire: encoding a column and filling a fresh column
/// from the decoded bytes gives the same 32 blocks.
pub proof fn lemma_fragment_round_trip(col: Seq<BlockId>)
    requires
        col.len() == 32,
        representable(col),
    ensures
        decode(encode(col)) == Some(col),
        fragment_of(decode(encode(col))->0) == col,
{
    lemma_round_trip(col);
    assert(fragment_of(col) =~= col);
}

/// Appends the bytes of one run. A run of no blocks adds nothing.
fn encode_one(out: &mut Vec<u8>, current_block: BlockId, count: u8)
    ensures
        count == 0 ==> final(out)@ == old(out)@,
        count > 0 ==> final(out)@ == old(out)@ + encode_run(current_block, count as nat),
{
    if count == 0 {
        return ;
    }
    let first_half = (current_block.0 / 256) as u8;
    let second_half = (current_block.0 % 256) as u8;
    let ghost before = out@;
    if count > 1 {
        out.push(0x80u8 | count);
    }
    out.push(first_half);
    out.push(second_half);
    assert(out@ =~= before + encode_run(current_block, count as nat));
}

/// Run-length encodes `blocks`.
pub fn serialize_blocks(blocks: &[BlockId]) -> (out: Vec<u8>)
    ensures
        out@ == encode(blocks@),
{
    let mut out: Vec<u8> = Vec::new();
    if blocks.len() == 0 {
        return out;
    }
    let ghost s = blocks@;
    let mut current_block = blocks[0];
    let mut count: u8 = 1;
    let mut i: usize = 1;
    assert(s.skip(0) =~= s);
    while i < blocks.len()
        invariant
            s == blocks@,
            1 <= i <= s.len(),
            1 <= count <= i,
            current_block == s[i - count],
            forall|j: int| i - count <= j < i ==> #[trigger] s[j] == current_block,
            out@ + encode(s.skip(i - count)) == encode(s),
        decreases s.len() - i,
    {
        let id = blocks[i];
        if id == current_block && count < 255 {
            count = count + 1;
        } else {
            proof {
                let start = i - count;
                let tail = s.skip(start);
                lemma_run_len_is(tail, count as nat);
                assert(tail.skip(count as int) =~= s.skip(i as int));
                assert(out@ + (encode_run(current_block, count as nat) + encode(s.skip(i as int)))
                    =~= (out@ + encode_run(current_block, count as nat))
                        + encode(s.skip(i as int)));
            }
            encode_one(&mut out, current_block, count);
            current_block = id;
            count = 1;
        }
        i = i + 1;
    }
    proof {
        let start = i - count;
        let tail = s.skip(start);
        lemma_run_len_is(tail, count as nat);
        assert(tail.skip(count as int) =~= Seq::<BlockId>::empty());
        assert(encode(Seq::<BlockId>::empty()) =~= Seq::<u8>::empty());
        assert(encode_run(current_block, count as nat) + Seq::<u8>::empty() =~= encode_run(
            current_block,
            count as nat,
        ));
    }
    encode_one(&mut out, current_block, count);
    out
}

/// Decodes a run-length encoded byte stream, or returns `None` where the stream
/// ends in the middle of a run.
pub fn try_deserialize_blocks(bytes: &[u8]) -> (r: Option<Vec<BlockId>>)
    ensures
        r is Some <==> decode(bytes@) is Some,
        r matches Some(v) ==> decode(bytes@) == Some(v@),
{
    let mut out: Vec<BlockId> = Vec::new();
    let mut i: usize = 0;
    let ghost b = bytes@;
    assert(b.skip(0) =~= b);
    while i < bytes.len()
        invariant
            b == bytes@,
            i <= b.len(),
            decode(b) == (match decode(b.skip(i as int)) {
                Some(rest) => Some(out@ + rest),
                None => None,
            }),
        decreases b.len() - i,
    {
        let first = bytes[i];
        let ghost tail = b.skip(i as int);
        proof {
            lemma_count_bits(first);
        }
        if first & 0x80u8 != 0 {
            if bytes.len() - i < 3 {
                return None;
            }
            let count = first & 0x7fu8;
            let id = BlockId(bytes[i + 1] as u16 * 256 + bytes[i + 2] as u16);
            let ghost before = out@;
            let mut k: u8 = 0;
            while k < count
                invariant
                    k <= count,
                    out@ == before + Seq::new(k as nat, |j: int| id),
                decreases count - k,
            {
                out.push(id);
                k = k + 1;
                assert(out@ =~= before + Seq::new(k as nat, |j: int| id));
            }
            proof {
                assert(tail.skip(3) =~= b.skip(i + 3));
                assert(id == join_bytes(tail[1], tail[2]));
                let run = Seq::new(count_of(tail[0]), |j: int| join_bytes(tail[1], tail[2]));
                assert(run =~= Seq::new(count as nat, |j: int| id));
                if let Some(rest) = decode(b.skip(i + 3)) {
                    assert(before + (run + rest) =~= (before + run) + rest);
                }
            }
            i = i + 3;
        } else {
            if bytes.len() - i < 2 {
                return None;
            }
            let id = BlockId(first as u16 * 256 + bytes[i + 1] as u16);
            let ghost before = out@;
            out.push(id);
            proof {
                assert(tail.skip(2) =~= b.skip(i + 2));
                assert(id == join_bytes(tail[0], tail[1]));
                assert(out@ =~= before + seq![id]);
                if let Some(rest) = decode(b.skip(i + 2)) {
                    assert(before + (seq![id] + rest) =~= (before + seq![id]) + rest);
                }
            }
            i = i + 2;
        }
    }
    proof {
        assert(b.skip(i as int) =~= Seq::<u8>::empty());
        assert(out@ + Seq::<BlockId>::empty() =~= out@);
    }
    Some(out)
}

/// Decodes a run-length encoded byte stream that is complete.
pub fn deserialize_blocks(bytes: &[u8]) -> (out: Vec<BlockId>)
    requires
        decode(bytes@) is Some,
    ensures
        decode(bytes@) == Some(out@),
{
    match try_deserialize_blocks(bytes) {
        Some(v) => v,
        None => Vec::new(),
    }
}

/// Encodes one column for the wire.
pub fn serialize_fragment(frag: &ChunkFragment) -> (out: Vec<u8>)
    ensures
        out@ == encode(frag@),
{
    serialize_blocks(frag.as_slice())
}

/// Fills a column from decoded blocks: the first 32 of them, air behind.
fn fill_fragment(blocks: &Vec<BlockId>) -> (frag: Box<ChunkFragment>)
    ensures
        frag@ == fragment_of(blocks@),
{
    let mut frag: ChunkFragment = [BlockId(0);32];
    let mut i: usize = 0;
    while i < 32 && i < blocks.len()
        invariant
            i <= 32,
            i <= blocks.len(),
            forall|j: int| 0 <= j < i ==> frag[j] == blocks[j],
            forall|j: int| i <= j < 32 ==> frag[j] == BlockId(0),
        decreases 32 - i,
    {
        frag[i] = blocks[i];
        i = i + 1;
    }
    assert(frag@ =~= fragment_of(blocks@));
    Box::new(frag)
}

/// Decodes one column from the wire. Blocks beyond the 32nd are dropped, and a
/// stream of fewer than 32 blocks leaves air in the rest.
pub fn deserialize_fragment(bytes: &[u8]) -> (frag: Box<ChunkFragment>)
    requires
        decode(bytes@) is Some,
    ensures
        frag@ == fragment_of(decode(bytes@)->0),
{
    let blocks = deserialize_blocks(bytes);
    fill_fragment(&blocks)
}

/// Decodes one column from the wire, or returns `None` where the stream ends in
/// the middle of a run.
pub fn try_deserialize_fragment(bytes: &[u8]) -> (r: Option<Box<ChunkFragment>>)
    ensures
        r is Some <==> decode(bytes@) is Some,
        r matches Some(frag) ==> frag@ == fragment_of(decode(bytes@)->0),
{
    match try_deserialize_blocks(bytes) {
        Some(blocks) => Some(fill_fragment(&blocks)),
        None => None,
    }
}

} // verus!
