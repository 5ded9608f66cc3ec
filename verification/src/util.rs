//! Faces of a block, small sets of them, and a pacer for work that is due at a
//! fixed rate.

use vstd::prelude::*;

verus! {

/// One of the six faces of a cube.
#[derive(Clone, Copy, Debug, PartialEq, Eq, Hash, Structural)]
pub enum Face {
    Back,
    Front,
    Right,
    Left,
    Top,
    Bottom,
}

impl Face {
    /// Position of the face in the canonical order (`Back` is 0, `Bottom` is 5).
    pub open spec fn index_spec(self) -> int {
        match self {
            Face::Back => 0,
            Face::Front => 1,
            Face::Right => 2,
            Face::Left => 3,
            Face::Top => 4,
            Face::Bottom => 5,
        }
    }

    /// The face on the opposite side of the cube.
    pub open spec fn flip_spec(self) -> Face {
        match self {
            Face::Back => Face::Front,
            Face::Front => Face::Back,
            Face::Right => Face::Left,
            Face::Left => Face::Right,
            Face::Top => Face::Bottom,
            Face::Bottom => Face::Top,
        }
    }

    /// Unit step, as `(dx, dy, dz)`, that leaves a cube through this face.
    pub open spec fn offset_spec(self) -> (int, int, int) {
        match self {
            Face::Back => (0, 0, -1),
            Face::Front => (0, 0, 1),
            Face::Right => (1, 0, 0),
            Face::Left => (-1, 0, 0),
            Face::Top => (0, 1, 0),
            Face::Bottom => (0, -1, 0),
        }
    }

    /// The face at position `i` of the canonical order.
    pub open spec fn from_index_spec(i: int) -> Option<Face> {
        if i == 0 {
            Some(Face::Back)
        } else if i == 1 {
            Some(Face::Front)
        } else if i == 2 {
            Some(Face::Right)
        } else if i == 3 {
            Some(Face::Left)
        } else if i == 4 {
            Some(Face::Top)
        } else if i == 5 {
            Some(Face::Bottom)
        } else {
            None
        }
    }

    pub fn index(self) -> (r: u8)
        ensures
            r == self.index_spec(),
            r < 6,
    {
        match self {
            Face::Back => 0,
            Face::Front => 1,
            Face::Right => 2,
            Face::Left => 3,
            Face::Top => 4,
            Face::Bottom => 5,
        }
    }

    pub fn from_index(i: u8) -> (r: Option<Face>)
        ensures
            r == Face::from_index_spec(i as int),
    {
        match i {
            0 => Some(Face::Back),
            1 => Some(Face::Front),
            2 => Some(Face::Right),
            3 => Some(Face::Left),
            4 => Some(Face::Top),
            5 => Some(Face::Bottom),
            _ => None,
        }
    }

    /// The opposite face.
    pub fn flip(self) -> (r: Face)
        ensures
            r == self.flip_spec(),
    {
        match self {
            Face::Back => Face::Front,
            Face::Front => Face::Back,
            Face::Right => Face::Left,
            Face::Left => Face::Right,
            Face::Top => Face::Bottom,
            Face::Bottom => Face::Top,
        }
    }

    /// Unit step through this face.
    pub fn offset(self) -> (r: (i64, i64, i64))
        ensures
            (r.0 as int, r.1 as int, r.2 as int) == self.offset_spec(),
    {
        match self {
            Face::Back => (0, 0, -1),
            Face::Front => (0, 0, 1),
            Face::Right => (1, 0, 0),
            Face::Left => (-1, 0, 0),
            Face::Top => (0, 1, 0),
            Face::Bottom => (0, -1, 0),
        }
    }

    /// The six faces in canonical order.
    pub fn all() -> (r: [Face; 6])
        ensures
            forall|i: int| 0 <= i < 6 ==> Face::from_index_spec(i) == Some(#[trigger] r[i]),
    {
        [Face::Back, Face::Front, Face::Right, Face::Left, Face::Top, Face::Bottom]
    }
}

/// Flipping twice gives the face back, flipping toggles the lowest bit of the
/// index, and the opposite face steps the opposite way.
pub proof fn lemma_flip(f: Face)
    ensures
        f.flip_spec().flip_spec() == f,
        f.flip_spec() != f,
        f.flip_spec().index_spec() == (if f.index_spec() % 2 == 0 {
            f.index_spec() + 1
        } else {
            f.index_spec() - 1
        }),
        f.flip_spec().offset_spec().0 == -f.offset_spec().0,
        f.flip_spec().offset_spec().1 == -f.offset_spec().1,
        f.flip_spec().offset_spec().2 == -f.offset_spec().2,
        Face::from_index_spec(f.index_spec()) == Some(f),
{
}

/// A set of faces, kept as six bits.
#[derive(Clone, Copy, Debug, PartialEq, Eq, Structural)]
pub struct Faces {
    bits: u8,
}

/// Whether bit `i` of `bits` is set.
pub open spec fn bit_of(bits: u8, i: int) -> bool
    recommends
        0 <= i < 8,
{
    bits & (1u8 << (i as u8)) != 0
}

proof fn lemma_bit_or(b: u8, c: u8, i: u8)
    by (bit_vector)
    requires
        i < 8,
    ensures
        ((b | c) & (1u8 << i) != 0) == ((b & (1u8 << i) != 0) || (c & (1u8 << i) != 0)),
{
}

proof fn lemma_bit_single(i: u8, j: u8)
    by (bit_vector)
    requires
        i < 8,
        j < 8,
    ensures
        ((1u8 << i) & (1u8 << j) != 0) == (i == j),
{
}

proof fn lemma_bit_consts(i: u8)
    by (bit_vector)
    requires
        i < 6,
    ensures
        0u8 & (1u8 << i) == 0,
        63u8 & (1u8 << i) != 0,
{
}

proof fn lemma_bits_below(b: u8, c: u8)
    by (bit_vector)
    requires
        b < 64,
        c < 64,
    ensures
        (b | c) < 64,
{
}

proof fn lemma_single_below(i: u8)
    by (bit_vector)
    requires
        i < 6,
    ensures
        (1u8 << i) < 64,
{
}

proof fn lemma_bits_extensional(b: u8, c: u8)
    by (bit_vector)
    requires
        b < 64,
        c < 64,
        (b & (1u8 << 0u8) != 0) == (c & (1u8 << 0u8) != 0),
        (b & (1u8 << 1u8) != 0) == (c & (1u8 << 1u8) != 0),
        (b & (1u8 << 2u8) != 0) == (c & (1u8 << 2u8) != 0),
        (b & (1u8 << 3u8) != 0) == (c & (1u8 << 3u8) != 0),
        (b & (1u8 << 4u8) != 0) == (c & (1u8 << 4u8) != 0),
        (b & (1u8 << 5u8) != 0) == (c & (1u8 << 5u8) != 0),
    ensures
        b == c,
{
}

impl Faces {
    /// Only the six low bits are ever set.
    #[verifier::type_invariant]
    pub closed spec fn wf(self) -> bool {
        self.bits < 64
    }

    /// Whether `f` is a member.
    pub closed spec fn has(self, f: Face) -> bool {
        bit_of(self.bits, f.index_spec())
    }

    /// The empty set.
    pub fn new() -> (r: Faces)
        ensures
            r.wf(),
            forall|f: Face| !r.has(f),
    {
        proof {
            assert forall|f: Face| !bit_of(0u8, f.index_spec()) by {
                lemma_bit_consts(f.index_spec() as u8);
            }
        }
        Faces { bits: 0 }
    }

    /// All six faces.
    pub fn all() -> (r: Faces)
        ensures
            r.wf(),
            forall|f: Face| r.has(f),
    {
        proof {
            assert forall|f: Face| bit_of(63u8, f.index_spec()) by {
                lemma_bit_consts(f.index_spec() as u8);
            }
        }
        Faces { bits: 63 }
    }

    /// The set that holds `f` alone.
    pub fn only(f: Face) -> (r: Faces)
        ensures
            r.wf(),
            forall|g: Face| r.has(g) == (g == f),
    {
        let i = f.index();
        proof {
            lemma_single_below(i);
            assert forall|g: Face| bit_of(1u8 << i, g.index_spec()) == (g == f) by {
                lemma_bit_single(i, g.index_spec() as u8);
            }
        }
        Faces { bits: 1u8 << i }
    }

    pub fn contains(&self, f: Face) -> (r: bool)
        ensures
            r == self.has(f),
    {
        let i = f.index();
        self.bits & (1u8 << i) != 0
    }

    /// Adds `f`; the other members stay.
    pub fn insert(&mut self, f: Face)
        ensures
            final(self).wf(),
            forall|g: Face| final(self).has(g) == (old(self).has(g) || g == f),
    {
        let i = f.index();
        proof {
            use_type_invariant(&*self);
            lemma_single_below(i);
            lemma_bits_below(self.bits, 1u8 << i);
            assert forall|g: Face|
                bit_of(self.bits | (1u8 << i), g.index_spec()) == (bit_of(
                    self.bits,
                    g.index_spec(),
                ) || g == f) by {
                lemma_bit_or(self.bits, 1u8 << i, g.index_spec() as u8);
                lemma_bit_single(i, g.index_spec() as u8);
            }
        }
        self.bits = self.bits | (1u8 << i);
    }

    /// Members of either set.
    pub fn union(self, other: Faces) -> (r: Faces)
        ensures
            r.wf(),
            forall|g: Face| r.has(g) == (self.has(g) || other.has(g)),
    {
        proof {
            use_type_invariant(&self);
            use_type_invariant(&other);
            lemma_bits_below(self.bits, other.bits);
            assert forall|g: Face|
                bit_of(self.bits | other.bits, g.index_spec()) == (bit_of(
                    self.bits,
                    g.index_spec(),
                ) || bit_of(other.bits, g.index_spec())) by {
                lemma_bit_or(self.bits, other.bits, g.index_spec() as u8);
            }
        }
        Faces { bits: self.bits | other.bits }
    }

    pub fn is_empty(&self) -> (r: bool)
        ensures
            r == (forall|f: Face| !self.has(f)),
    {
        proof {
            use_type_invariant(self);
            if self.bits == 0 {
                assert forall|f: Face| !self.has(f) by {
                    lemma_bit_consts(f.index_spec() as u8);
                }
            } else {
                if forall|f: Face| !self.has(f) {
                    assert(!self.has(Face::Back) && !self.has(Face::Front) && !self.has(Face::Right)
                        && !self.has(Face::Left) && !self.has(Face::Top) && !self.has(
                        Face::Bottom,
                    ));
                    lemma_bit_consts(0);
                    lemma_bit_consts(1);
                    lemma_bit_consts(2);
                    lemma_bit_consts(3);
                    lemma_bit_consts(4);
                    lemma_bit_consts(5);
                    lemma_bits_extensional(self.bits, 0);
                }
            }
        }
        self.bits == 0
    }

    /// Whether every face is a member.
    pub fn is_all(&self) -> (r: bool)
        ensures
            r == (forall|f: Face| self.has(f)),
    {
        proof {
            use_type_invariant(self);
            if self.bits == 63 {
                assert forall|f: Face| self.has(f) by {
                    lemma_bit_consts(f.index_spec() as u8);
                }
            } else {
                if forall|f: Face| self.has(f) {
                    assert(self.has(Face::Back) && self.has(Face::Front) && self.has(Face::Right)
                        && self.has(Face::Left) && self.has(Face::Top) && self.has(Face::Bottom));
                    lemma_bit_consts(0);
                    lemma_bit_consts(1);
                    lemma_bit_consts(2);
                    lemma_bit_consts(3);
                    lemma_bit_consts(4);
                    lemma_bit_consts(5);
                    lemma_bits_extensional(self.bits, 63);
                }
            }
        }
        self.bits == 63
    }

    /// The six membership bits, bit `i` for the face with index `i`.
    pub fn bits(&self) -> (r: u8)
        ensures
            r < 64,
            forall|f: Face| bit_of(r, f.index_spec()) == self.has(f),
    {
        proof {
            use_type_invariant(self);
        }
        self.bits
    }
}

/// Two well-formed sets with the same members are the same value.
pub proof fn lemma_faces_extensional(a: Faces, b: Faces)
    requires
        a.wf(),
        b.wf(),
        forall|f: Face| a.has(f) == b.has(f),
    ensures
        a == b,
{
    assert(a.has(Face::Back) == b.has(Face::Back));
    assert(a.has(Face::Front) == b.has(Face::Front));
    assert(a.has(Face::Right) == b.has(Face::Right));
    assert(a.has(Face::Left) == b.has(Face::Left));
    assert(a.has(Face::Top) == b.has(Face::Top));
    assert(a.has(Face::Bottom) == b.has(Face::Bottom));
    lemma_bits_extensional(a.bits, b.bits);
}

/// Paces work that is due at most once per tick.
///
/// Time is a count of nanoseconds since a start that the caller picks; the
/// caller reads the clock and hands the reading in.
#[derive(Clone, Copy, Debug)]
pub struct Ticker {
    tick_duration: u64,
    last_tick: u64,
}

impl Ticker {
    /// Length of a tick, in nanoseconds.
    pub closed spec fn tick_duration_spec(&self) -> u64 {
        self.tick_duration
    }

    /// When the last tick was, in nanoseconds.
    pub closed spec fn last_tick_spec(&self) -> u64 {
        self.last_tick
    }

    /// A ticker with ticks of `tick_duration` nanoseconds, the last of which was
    /// at `now`.
    pub fn from_tick_duration(tick_duration: u64, now: u64) -> (r: Ticker)
        ensures
            r.tick_duration_spec() == tick_duration,
            r.last_tick_spec() == now,
    {
        Ticker { tick_duration, last_tick: now }
    }

    /// The tick rate is the amount of ticks per sec (must not be 0)
    pub fn from_tick_rate(tick_rate: u32, now: u64) -> (r: Ticker)
        requires
            tick_rate != 0,
        ensures
            r.tick_duration_spec() == 1_000_000_000int / (tick_rate as int),
            r.last_tick_spec() == now,
    {
        Self::from_tick_duration((1_000_000_000u32 / tick_rate) as u64, now)
    }

    /// Whether a tick is due at `now`: at least one tick's length has passed
    /// since the last tick. If so, `now` is the last tick from here on.
    pub fn try_tick(&mut self, now: u64) -> (r: bool)
        ensures
            r == (now - old(self).last_tick_spec() >= old(self).tick_duration_spec()),
            final(self).tick_duration_spec() == old(self).tick_duration_spec(),
            final(self).last_tick_spec() == (if r {
                now
            } else {
                old(self).last_tick_spec()
            }),
    {
        let elapsed_time = if now >= self.last_tick {
            now - self.last_tick
        } else {
            0
        };
        if now >= self.last_tick && elapsed_time >= self.tick_duration {
            self.last_tick = now;
            true
        } else {
            false
        }
    }
}

} // verus!
