//! Coordinate spaces: blocks, chunks, and positions inside a chunk.
//!
//! A block position splits into the chunk that holds it and the position inside
//! that chunk. The split uses floored division, so that blocks with negative
//! coordinates land inside `[0, 32)` as well.

use crate::util::Face;
use vstd::prelude::*;
use vstd::std_specs::convert::FromSpecImpl;

verus! {

/// Floored division of `a` by a positive `b`.
///
/// Calls `num::Integer::div_floor` on `i64`. For a positive divisor that function
/// returns the quotient rounded towards negative infinity, which is what `/`
/// means on mathematical integers in contracts.
#[verifier::external_body]
pub(crate) fn div_floor(a: i64, b: i64) -> (q: i64)
    requires
        b > 0,
    ensures
        q == a as int / b as int,
{
    num::Integer::div_floor(&a, &b)
}

/// Floored remainder of `a` by a positive `b`.
///
/// Calls `num::Integer::mod_floor` on `i64`. For a positive divisor the result has
/// the sign of the divisor, so it lies in `[0, b)` and equals `%` on mathematical
/// integers in contracts.
#[verifier::external_body]
pub(crate) fn mod_floor(a: i64, b: i64) -> (r: i64)
    requires
        b > 0,
    ensures
        r == a as int % b as int,
{
    num::Integer::mod_floor(&a, &b)
}

/// A position that splits into a coarse part and what is left inside it.
pub trait SubIndex<T> {
    type Remainder;

    spec fn high_spec(&self) -> T;

    spec fn low_spec(&self) -> Self::Remainder;

    /// The coarse part.
    fn high(&self) -> (r: T)
        ensures
            r == self.high_spec(),
    ;

    /// The position inside the coarse part.
    fn low(&self) -> (r: Self::Remainder)
        ensures
            r == self.low_spec(),
    ;

    /// Both parts at once.
    fn factor(&self) -> (r: (T, Self::Remainder))
        ensures
            r.0 == self.high_spec(),
            r.1 == self.low_spec(),
    {
        (self.high(), self.low())
    }
}

/// Position of a block in the world, in blocks.
#[derive(Clone, Copy, Debug, PartialEq, Eq, Hash, Structural)]
pub struct BlockPos {
    pub x: i64,
    pub y: i64,
    pub z: i64,
}

/// Position of a chunk in the chunk grid; one unit is 32 blocks.
#[derive(Clone, Copy, Debug, PartialEq, Eq, Hash, Structural)]
pub struct ChunkPos {
    pub x: i64,
    pub y: i64,
    pub z: i64,
}

/// Position of a block inside its chunk: three coordinates in `[0, 32)`.
#[derive(Clone, Copy, Debug, PartialEq, Eq, Hash, Structural)]
pub struct InnerCoords {
    xc: u8,
    yc: u8,
    zc: u8,
}

/// Position of a block inside its chunk as one number, `x + 32 * y + 1024 * z`.
#[derive(Clone, Copy, Debug, PartialEq, Eq, Hash, Structural)]
pub struct InnerIdx(usize);

/// Position of a column inside its chunk.
#[derive(Clone, Copy, Debug, PartialEq, Eq, Hash, Structural)]
pub struct FragmentPos {
    pub x: usize,
    pub y: usize,
}

/// `v` brought into `[0, 31]`.
pub open spec fn clamp_coord(v: int) -> int {
    if v < 0 {
        0
    } else if v > 31 {
        31
    } else {
        v
    }
}

/// Distance between two numbers.
pub open spec fn abs_diff(a: int, b: int) -> int {
    if a >= b {
        a - b
    } else {
        b - a
    }
}

/// The larger of two numbers.
pub open spec fn max2(a: int, b: int) -> int {
    if a >= b {
        a
    } else {
        b
    }
}

/// Chebyshev distance: the largest distance along one axis.
pub open spec fn chebyshev(a: ChunkPos, b: ChunkPos) -> int {
    max2(
        abs_diff(a.x as int, b.x as int),
        max2(abs_diff(a.y as int, b.y as int), abs_diff(a.z as int, b.z as int)),
    )
}

/// The distance of `x` from zero.
pub fn abs(x: i64) -> (r: i64)
    requires
        x > i64::MIN,
    ensures
        r == abs_diff(x as int, 0),
{
    if x < 0 {
        -x
    } else {
        x
    }
}

fn abs_diff_i64(a: i64, b: i64) -> (r: u64)
    ensures
        r == abs_diff(a as int, b as int),
{
    if a >= b {
        (a as i128 - b as i128) as u64
    } else {
        (b as i128 - a as i128) as u64
    }
}

impl BlockPos {
    pub fn new(x: i64, y: i64, z: i64) -> (r: BlockPos)
        ensures
            r == (BlockPos { x, y, z }),
    {
        BlockPos { x, y, z }
    }

    /// The nearest position inside a chunk: each coordinate is brought into
    /// `[0, 31]`.
    pub fn clamp(self) -> (r: InnerCoords)
        ensures
            r.inv(),
            r.cx() == clamp_coord(self.x as int),
            r.cy() == clamp_coord(self.y as int),
            r.cz() == clamp_coord(self.z as int),
    {
        InnerCoords { xc: clamp_one(self.x), yc: clamp_one(self.y), zc: clamp_one(self.z) }
    }

    /// Coordinate number `idx`: 0 is x, 1 is y, 2 is z.
    pub fn coord(&self, idx: usize) -> (r: i64)
        requires
            idx < 3,
        ensures
            r == (if idx == 0 {
                self.x
            } else if idx == 1 {
                self.y
            } else {
                self.z
            }),
    {
        if idx == 0 {
            self.x
        } else if idx == 1 {
            self.y
        } else {
            self.z
        }
    }
}

fn clamp_one(v: i64) -> (r: u8)
    ensures
        r == clamp_coord(v as int),
{
    if v < 0 {
        0
    } else if v > 31 {
        31
    } else {
        v as u8
    }
}

impl From<[i64; 3]> for BlockPos {
    fn from(pos: [i64; 3]) -> (r: BlockPos) {
        BlockPos { x: pos[0], y: pos[1], z: pos[2] }
    }
}

impl FromSpecImpl<[i64; 3]> for BlockPos {
    open spec fn obeys_from_spec() -> bool {
        true
    }

    open spec fn from_spec(pos: [i64; 3]) -> BlockPos {
        BlockPos { x: pos[0], y: pos[1], z: pos[2] }
    }
}

impl SubIndex<ChunkPos> for BlockPos {
    type Remainder = InnerCoords;

    open spec fn high_spec(&self) -> ChunkPos {
        ChunkPos { x: (self.x / 32) as i64, y: (self.y / 32) as i64, z: (self.z / 32) as i64 }
    }

    closed spec fn low_spec(&self) -> InnerCoords {
        InnerCoords { xc: (self.x % 32) as u8, yc: (self.y % 32) as u8, zc: (self.z % 32) as u8 }
    }

    /// The chunk that holds this block.
    fn high(&self) -> (r: ChunkPos) {
        ChunkPos { x: div_floor(self.x, 32), y: div_floor(self.y, 32), z: div_floor(self.z, 32) }
    }

    /// Where this block lies inside its chunk.
    fn low(&self) -> (r: InnerCoords)
        ensures
            r.inv(),
            r.cx() == self.x as int % 32,
            r.cy() == self.y as int % 32,
            r.cz() == self.z as int % 32,
    {
        InnerCoords {
            xc: mod_floor(self.x, 32) as u8,
            yc: mod_floor(self.y, 32) as u8,
            zc: mod_floor(self.z, 32) as u8,
        }
    }
}

/// Splitting a block position loses nothing: on each axis the chunk coordinate
/// times 32 plus the inner coordinate is the block coordinate, and the inner
/// coordinate lies in `[0, 32)`. This holds for negative coordinates too.
pub proof fn lemma_split_inverse(b: BlockPos)
    ensures
        b.low_spec().inv(),
        b.high_spec().x * 32 + b.low_spec().cx() == b.x,
        b.high_spec().y * 32 + b.low_spec().cy() == b.y,
        b.high_spec().z * 32 + b.low_spec().cz() == b.z,
        0 <= b.low_spec().cx() < 32,
        0 <= b.low_spec().cy() < 32,
        0 <= b.low_spec().cz() < 32,
{
}

/// The block at `inner` of chunk `chunk` splits back into exactly those two.
pub proof fn lemma_join_then_split(chunk: ChunkPos, inner: InnerCoords)
    requires
        inner.inv(),
        i64::MIN <= chunk.x * 32 + inner.cx() <= i64::MAX,
        i64::MIN <= chunk.y * 32 + inner.cy() <= i64::MAX,
        i64::MIN <= chunk.z * 32 + inner.cz() <= i64::MAX,
    ensures
        ({
            let b = BlockPos {
                x: (chunk.x * 32 + inner.cx()) as i64,
                y: (chunk.y * 32 + inner.cy()) as i64,
                z: (chunk.z * 32 + inner.cz()) as i64,
            };
            b.high_spec() == chunk && b.low_spec() == inner
        }),
{
}

impl ChunkPos {
    pub fn new(x: i64, y: i64, z: i64) -> (r: ChunkPos)
        ensures
            r == (ChunkPos { x, y, z }),
    {
        ChunkPos { x: x, y: y, z: z }
    }

    /// Chebyshev distance to `other`: the largest distance along one axis.
    pub fn orthogonal_dist(self, other: ChunkPos) -> (r: u64)
        ensures
            r == chebyshev(self, other),
    {
        let dx = abs_diff_i64(other.x, self.x);
        let dy = abs_diff_i64(other.y, self.y);
        let dz = abs_diff_i64(other.z, self.z);
        let mut maxcoord: u64 = dx;
        if dy > maxcoord {
            maxcoord = dy;
        }
        if dz > maxcoord {
            maxcoord = dz;
        }
        maxcoord
    }

    /// Whether `other` lies within `radius` chunks on every axis.
    pub fn in_range(self, other: ChunkPos, radius: u64) -> (r: bool)
        ensures
            r == (chebyshev(self, other) <= radius),
    {
        self.orthogonal_dist(other) <= radius
    }

    /// The position `(dx, dy, dz)` away, or `None` where that leaves the grid.
    pub fn checked_offset(self, dx: i64, dy: i64, dz: i64) -> (r: Option<ChunkPos>)
        ensures
            r == self.offset_spec(dx as int, dy as int, dz as int),
    {
        match (self.x.checked_add(dx), self.y.checked_add(dy), self.z.checked_add(dz)) {
            (Some(x), Some(y), Some(z)) => Some(ChunkPos { x, y, z }),
            _ => None,
        }
    }

    /// The position `(dx, dy, dz)` away, or `None` where that leaves the grid.
    pub open spec fn offset_spec(self, dx: int, dy: int, dz: int) -> Option<ChunkPos> {
        if in_i64(self.x + dx) && in_i64(self.y + dy) && in_i64(self.z + dz) {
            Some(
                ChunkPos { x: (self.x + dx) as i64, y: (self.y + dy) as i64, z: (self.z
                    + dz) as i64 },
            )
        } else {
            None
        }
    }

    /// The chunk on the other side of `face`, or `None` at the edge of the grid.
    pub open spec fn neighbor_spec(self, face: Face) -> Option<ChunkPos> {
        self.offset_spec(face.offset_spec().0, face.offset_spec().1, face.offset_spec().2)
    }

    /// The chunk on the other side of `face`.
    pub fn neighbor(self, face: Face) -> (r: Option<ChunkPos>)
        ensures
            r == self.neighbor_spec(face),
    {
        let d = face.offset();
        self.checked_offset(d.0, d.1, d.2)
    }

    /// The three coordinates as a tuple.
    pub fn key(self) -> (r: (i64, i64, i64))
        ensures
            r == self.key_spec(),
    {
        (self.x, self.y, self.z)
    }

    /// The three coordinates as a tuple.
    pub open spec fn key_spec(self) -> (i64, i64, i64) {
        (self.x, self.y, self.z)
    }

    /// The position with the three coordinates of `k`.
    pub open spec fn from_key_spec(k: (i64, i64, i64)) -> ChunkPos {
        ChunkPos { x: k.0, y: k.1, z: k.2 }
    }

    /// The position with the three coordinates of `k`.
    pub fn from_key(k: (i64, i64, i64)) -> (r: ChunkPos)
        ensures
            r == ChunkPos::from_key_spec(k),
    {
        ChunkPos { x: k.0, y: k.1, z: k.2 }
    }

    /// Coordinate number `idx`: 0 is x, 1 is y, 2 is z.
    pub fn coord(&self, idx: usize) -> (r: i64)
        requires
            idx < 3,
        ensures
            r == (if idx == 0 {
                self.x
            } else if idx == 1 {
                self.y
            } else {
                self.z
            }),
    {
        if idx == 0 {
            self.x
        } else if idx == 1 {
            self.y
        } else {
            self.z
        }
    }
}

/// Number of offsets within `d` of the origin on every axis: the cube with
/// edge `2 * d + 1`.
pub open spec fn cube_count(d: int) -> int {
    (2 * d + 1) * (2 * d + 1) * (2 * d + 1)
}

/// Whether a vector can hold the offsets within `d` of the origin: their number
/// is a `usize`. No other bound lies on a distance.
pub open spec fn cube_fits(d: int) -> bool {
    0 <= d && cube_count(d) <= usize::MAX
}

/// The distance from which on no cube fits a `usize` of 64 bits.
pub const CUBE_EDGE_LIMIT: u64 = 0x20_0000;

/// A cube that fits reaches less than [`CUBE_EDGE_LIMIT`] from its centre, and
/// a smaller cube fits as well.
pub proof fn lemma_cube_fits(d: int, e: int)
    requires
        cube_fits(d),
    ensures
        d < CUBE_EDGE_LIMIT,
        0 <= e <= d ==> cube_fits(e),
        cube_count(d) > 0,
{
    let n = 2 * d + 1;
    assert(n * n * n >= n) by (nonlinear_arith)
        requires
            n >= 1,
    ;
    if d >= 0x20_0000 {
        assert(n * n * n > 0xffff_ffff_ffff_ffff) by (nonlinear_arith)
            requires
                n >= 0x40_0001,
        ;
    }
    if 0 <= e <= d {
        let m = 2 * e + 1;
        assert(m * m * m <= n * n * n) by (nonlinear_arith)
            requires
                1 <= m <= n,
        ;
    }
}

/// Whether a vector can hold the offsets within `d` of the origin.
pub fn can_hold_cube(d: u64) -> (r: bool)
    ensures
        r == cube_fits(d as int),
{
    if d >= CUBE_EDGE_LIMIT {
        proof {
            if cube_fits(d as int) {
                lemma_cube_fits(d as int, 0);
            }
        }
        false
    } else {
        let n: u128 = 2 * (d as u128) + 1;
        proof {
            assert(n * n <= 0x40_0001 * 0x40_0001 && n * n * n <= 0x40_0001 * 0x40_0001 * 0x40_0001)
                by (nonlinear_arith)
                requires
                    0 <= n <= 0x40_0001,
            ;
        }
        n * n * n <= usize::MAX as u128
    }
}

/// Whether each coordinate of `o` lies within `d` of zero.
pub open spec fn within(o: (i64, i64, i64), d: int) -> bool {
    &&& -d <= o.0 <= d
    &&& -d <= o.1 <= d
    &&& -d <= o.2 <= d
}

/// Whether `a` comes before `b` when offsets are counted up, `x` slowest.
pub open spec fn lex_before(a: (i64, i64, i64), b: (int, int, int)) -> bool {
    a.0 < b.0 || (a.0 == b.0 && (a.1 < b.1 || (a.1 == b.1 && a.2 < b.2)))
}

/// The offset as three whole numbers.
pub open spec fn as_ints(o: (i64, i64, i64)) -> (int, int, int) {
    (o.0 as int, o.1 as int, o.2 as int)
}

/// Whether the offsets are counted up, `x` slowest: each comes before all that
/// follow it.
pub open spec fn counted_up(s: Seq<(i64, i64, i64)>) -> bool {
    forall|i: int, j: int|
        0 <= i < j < s.len() ==> lex_before(#[trigger] s[i], as_ints(#[trigger] s[j]))
}

/// All offsets within `d` of the origin on every axis, counted up with `x`
/// slowest.
pub fn cube_offsets(d: u64) -> (r: Vec<(i64, i64, i64)>)
    requires
        cube_fits(d as int),
    ensures
        r@.no_duplicates(),
        forall|o: (i64, i64, i64)| r@.contains(o) <==> within(o, d as int),
        forall|i: int| 0 <= i < r@.len() ==> within(#[trigger] r@[i], d as int),
        counted_up(r@),
{
    proof {
        lemma_cube_fits(d as int, 0);
    }
    let d = d as i64;
    let mut nearby: Vec<(i64, i64, i64)> = Vec::new();
    let mut x: i64 = -d;
    while x <= d
        invariant
            0 <= d < 0x20_0000,
            -d <= x <= d + 1,
            nearby@.no_duplicates(),
            counted_up(nearby@),
            forall|i: int|
                0 <= i < nearby.len() ==> within(#[trigger] nearby[i], d as int) && nearby[i].0 < x,
            forall|o: (i64, i64, i64)| within(o, d as int) && o.0 < x ==> nearby@.contains(o),
        decreases d + 1 - x,
    {
        let mut y: i64 = -d;
        while y <= d
            invariant
                0 <= d < 0x20_0000,
                -d <= x <= d,
                -d <= y <= d + 1,
                nearby@.no_duplicates(),
            counted_up(nearby@),
                forall|i: int|
                    0 <= i < nearby.len() ==> within(#[trigger] nearby[i], d as int) && lex_before(
                        nearby[i],
                        (x as int, y as int, -d as int),
                    ),
                forall|o: (i64, i64, i64)|
                    within(o, d as int) && lex_before(o, (x as int, y as int, -d as int))
                        ==> nearby@.contains(o),
            decreases d + 1 - y,
        {
            let mut z: i64 = -d;
            while z <= d
                invariant
                    0 <= d < 0x20_0000,
                    -d <= x <= d,
                    -d <= y <= d,
                    -d <= z <= d + 1,
                    nearby@.no_duplicates(),
            counted_up(nearby@),
                    forall|i: int|
                        0 <= i < nearby.len() ==> within(#[trigger] nearby[i], d as int)
                            && lex_before(nearby[i], (x as int, y as int, z as int)),
                    forall|o: (i64, i64, i64)|
                        within(o, d as int) && lex_before(o, (x as int, y as int, z as int))
                            ==> nearby@.contains(o),
                decreases d + 1 - z,
            {
                let ghost before = nearby@;
                nearby.push((x, y, z));
                proof {
                    assert forall|i: int, j: int| 0 <= i < j < nearby@.len() implies lex_before(
                        #[trigger] nearby@[i],
                        as_ints(#[trigger] nearby@[j]),
                    ) by {
                        if j < before.len() {
                            assert(lex_before(before[i], as_ints(before[j])));
                        } else {
                            assert(lex_before(before[i], (x as int, y as int, z as int)));
                        }
                    }
                    assert forall|o: (i64, i64, i64)|
                        within(o, d as int) && lex_before(
                            o,
                            (x as int, y as int, z + 1),
                        ) implies nearby@.contains(o) by {
                        if o == (x, y, z) {
                            assert(nearby@[before.len() as int] == o);
                        } else {
                            assert(before.contains(o));
                            let i = choose|i: int| 0 <= i < before.len() && before[i] == o;
                            assert(nearby@[i] == o);
                        }
                    }
                }
                z = z + 1;
            }
            y = y + 1;
        }
        x = x + 1;
    }
    proof {
        assert forall|o: (i64, i64, i64)| nearby@.contains(o) implies within(o, d as int) by {
            let i = choose|i: int| 0 <= i < nearby@.len() && nearby@[i] == o;
            assert(within(nearby[i], d as int));
        }
    }
    nearby
}

/// Whether `p` lies within `d` chunks of `center` on every axis.
pub open spec fn in_reach(center: ChunkPos, p: ChunkPos, d: int) -> bool {
    chebyshev(center, p) <= d
}

/// The offset from `center` to `p`.
pub open spec fn diff(center: ChunkPos, p: ChunkPos) -> (i64, i64, i64) {
    ((p.x - center.x) as i64, (p.y - center.y) as i64, (p.z - center.z) as i64)
}

/// A position within reach is found by adding its offset, and the offset lies
/// within the reach.
pub proof fn lemma_reach_offsets(center: ChunkPos, p: ChunkPos, d: int)
    requires
        0 <= d <= i64::MAX,
    ensures
        in_reach(center, p, d) ==> within(diff(center, p), d) && center.offset_spec(
            diff(center, p).0 as int,
            diff(center, p).1 as int,
            diff(center, p).2 as int,
        ) == Some(p),
{
}

/// Whether `v` fits a signed 64-bit number.
pub open spec fn in_i64(v: int) -> bool {
    i64::MIN <= v <= i64::MAX
}

impl From<[i64; 3]> for ChunkPos {
    fn from(pos: [i64; 3]) -> (r: ChunkPos) {
        ChunkPos { x: pos[0], y: pos[1], z: pos[2] }
    }
}

impl FromSpecImpl<[i64; 3]> for ChunkPos {
    open spec fn obeys_from_spec() -> bool {
        true
    }

    open spec fn from_spec(pos: [i64; 3]) -> ChunkPos {
        ChunkPos { x: pos[0], y: pos[1], z: pos[2] }
    }
}

/// The distance is symmetric, is zero exactly between equal positions, and obeys
/// the triangle inequality.
pub proof fn lemma_chebyshev_metric(a: ChunkPos, b: ChunkPos, c: ChunkPos)
    ensures
        chebyshev(a, b) == chebyshev(b, a),
        chebyshev(a, b) >= 0,
        chebyshev(a, b) == 0 <==> a == b,
        chebyshev(a, c) <= chebyshev(a, b) + chebyshev(b, c),
{
}

/// A position inside a chunk, in one of its two forms.
pub trait InnerPos: Sized {
    spec fn x_spec(&self) -> int;

    spec fn y_spec(&self) -> int;

    spec fn z_spec(&self) -> int;

    /// All three coordinates lie in `[0, 32)`.
    spec fn wf(&self) -> bool;

    fn x(&self) -> (r: usize)
        ensures
            r == self.x_spec(),
            r < 32,
    ;

    fn y(&self) -> (r: usize)
        ensures
            r == self.y_spec(),
            r < 32,
    ;

    fn z(&self) -> (r: usize)
        ensures
            r == self.z_spec(),
            r < 32,
    ;

    /// The same position as three coordinates.
    fn to_coords(&self) -> (r: InnerCoords)
        ensures
            r.inv(),
            r.cx() == self.x_spec(),
            r.cy() == self.y_spec(),
            r.cz() == self.z_spec(),
    {
        InnerCoords { xc: self.x() as u8, yc: self.y() as u8, zc: self.z() as u8 }
    }

    /// The same position as one number.
    fn idx(&self) -> (r: InnerIdx)
        ensures
            r.inv(),
            r.value() == self.x_spec() + 32 * self.y_spec() + 1024 * self.z_spec(),
    {
        InnerIdx(self.x() + self.y() * 32 + self.z() * 1024)
    }

    /// The position one step through `face`, or `None` where that step leaves
    /// the chunk.
    fn adjacent(&self, face: Face) -> (r: Option<Self>)
        ensures
            r is Some <==> step_stays_inside(self.x_spec(), self.y_spec(), self.z_spec(), face),
            r matches Some(p) ==> p.wf() && p.x_spec() == self.x_spec() + face.offset_spec().0
                && p.y_spec() == self.y_spec() + face.offset_spec().1 && p.z_spec()
                == self.z_spec() + face.offset_spec().2,
    ;
}

/// Whether one step through `face` from `(x, y, z)` stays inside the chunk.
pub open spec fn step_stays_inside(x: int, y: int, z: int, face: Face) -> bool {
    &&& 0 <= x + face.offset_spec().0 < 32
    &&& 0 <= y + face.offset_spec().1 < 32
    &&& 0 <= z + face.offset_spec().2 < 32
}

impl InnerCoords {
    /// All three coordinates lie in `[0, 32)`.
    #[verifier::type_invariant]
    pub closed spec fn inv(self) -> bool {
        self.xc < 32 && self.yc < 32 && self.zc < 32
    }

    pub closed spec fn cx(self) -> int {
        self.xc as int
    }

    pub closed spec fn cy(self) -> int {
        self.yc as int
    }

    pub closed spec fn cz(self) -> int {
        self.zc as int
    }

    /// The position `(x, y, z)`, or `None` unless all three are below 32.
    pub fn new(x: usize, y: usize, z: usize) -> (r: Option<InnerCoords>)
        ensures
            r is Some <==> x < 32 && y < 32 && z < 32,
            r matches Some(c) ==> c.inv() && c.cx() == x && c.cy() == y && c.cz() == z,
    {
        if x >= 32 || y >= 32 || z >= 32 {
            None
        } else {
            Some(InnerCoords { xc: x as u8, yc: y as u8, zc: z as u8 })
        }
    }

    /// Coordinate number `idx`: 0 is x, 1 is y, 2 is z.
    pub fn coord(&self, idx: usize) -> (r: u8)
        requires
            idx < 3,
        ensures
            r < 32,
            r == (if idx == 0 {
                self.cx()
            } else if idx == 1 {
                self.cy()
            } else {
                self.cz()
            }),
    {
        proof {
            use_type_invariant(self);
        }
        if idx == 0 {
            self.xc
        } else if idx == 1 {
            self.yc
        } else {
            self.zc
        }
    }
}

impl InnerPos for InnerCoords {
    open spec fn x_spec(&self) -> int {
        self.cx()
    }

    open spec fn y_spec(&self) -> int {
        self.cy()
    }

    open spec fn z_spec(&self) -> int {
        self.cz()
    }

    open spec fn wf(&self) -> bool {
        self.inv()
    }

    fn x(&self) -> (r: usize) {
        proof {
            use_type_invariant(self);
        }
        self.xc as usize
    }

    fn y(&self) -> (r: usize) {
        proof {
            use_type_invariant(self);
        }
        self.yc as usize
    }

    fn z(&self) -> (r: usize) {
        proof {
            use_type_invariant(self);
        }
        self.zc as usize
    }

    fn adjacent(&self, face: Face) -> (r: Option<InnerCoords>) {
        proof {
            use_type_invariant(self);
        }
        match face {
            Face::Back => if self.zc == 0 {
                None
            } else {
                Some(InnerCoords { xc: self.xc, yc: self.yc, zc: self.zc - 1 })
            },
            Face::Front => if self.zc >= 31 {
                None
            } else {
                Some(InnerCoords { xc: self.xc, yc: self.yc, zc: self.zc + 1 })
            },
            Face::Right => if self.xc >= 31 {
                None
            } else {
                Some(InnerCoords { xc: self.xc + 1, yc: self.yc, zc: self.zc })
            },
            Face::Left => if self.xc == 0 {
                None
            } else {
                Some(InnerCoords { xc: self.xc - 1, yc: self.yc, zc: self.zc })
            },
            Face::Top => if self.yc >= 31 {
                None
            } else {
                Some(InnerCoords { xc: self.xc, yc: self.yc + 1, zc: self.zc })
            },
            Face::Bottom => if self.yc == 0 {
                None
            } else {
                Some(InnerCoords { xc: self.xc, yc: self.yc - 1, zc: self.zc })
            },
        }
    }
}

/// The coordinates of a well-formed position lie in `[0, 32)`.
pub proof fn lemma_inner_coords_bounds(a: InnerCoords)
    requires
        a.inv(),
    ensures
        0 <= a.cx() < 32,
        0 <= a.cy() < 32,
        0 <= a.cz() < 32,
{
}

/// Two well-formed positions with the same coordinates are the same value.
pub proof fn lemma_inner_coords_equal(a: InnerCoords, b: InnerCoords)
    requires
        a.cx() == b.cx(),
        a.cy() == b.cy(),
        a.cz() == b.cz(),
    ensures
        a == b,
{
}

impl InnerIdx {
    /// The number is below `32 * 32 * 32`.
    #[verifier::type_invariant]
    pub closed spec fn inv(self) -> bool {
        self.0 < 32768
    }

    /// The number itself.
    pub closed spec fn value(self) -> int {
        self.0 as int
    }

    /// Every position of a chunk, in ascending order.
    pub fn indices() -> (r: Vec<InnerIdx>)
        ensures
            r.len() == 32768,
            forall|i: int| 0 <= i < 32768 ==> (#[trigger] r[i]).value() == i && r[i].inv(),
    {
        let mut out: Vec<InnerIdx> = Vec::new();
        let mut i: usize = 0;
        while i < 32768
            invariant
                i <= 32768,
                out.len() == i,
                forall|j: int| 0 <= j < i ==> (#[trigger] out[j]).value() == j && out[j].inv(),
            decreases 32768 - i,
        {
            out.push(InnerIdx(i));
            i = i + 1;
        }
        out
    }

    /// The position numbered `i`, or `None` unless `i` is below `32 * 32 * 32`.
    pub fn new(i: usize) -> (r: Option<InnerIdx>)
        ensures
            r is Some <==> i < 32768,
            r matches Some(p) ==> p.inv() && p.value() == i,
    {
        if i < 32768 {
            Some(InnerIdx(i))
        } else {
            None
        }
    }

    /// The number itself.
    pub fn get(&self) -> (r: usize)
        ensures
            r == self.value(),
            r < 32768,
    {
        proof {
            use_type_invariant(self);
        }
        self.0
    }
}

impl InnerPos for InnerIdx {
    closed spec fn x_spec(&self) -> int {
        self.0 as int % 32
    }

    closed spec fn y_spec(&self) -> int {
        (self.0 as int / 32) % 32
    }

    closed spec fn z_spec(&self) -> int {
        self.0 as int / 1024
    }

    open spec fn wf(&self) -> bool {
        self.inv()
    }

    fn x(&self) -> (r: usize) {
        proof {
            use_type_invariant(self);
        }
        self.0 % 32
    }

    fn y(&self) -> (r: usize) {
        proof {
            use_type_invariant(self);
        }
        (self.0 / 32) % 32
    }

    fn z(&self) -> (r: usize) {
        proof {
            use_type_invariant(self);
        }
        self.0 / 1024
    }

    fn adjacent(&self, face: Face) -> (r: Option<InnerIdx>) {
        let x = self.x();
        let y = self.y();
        let z = self.z();
        let d = face.offset();
        let nx = x as i64 + d.0;
        let ny = y as i64 + d.1;
        let nz = z as i64 + d.2;
        if 0 <= nx && nx < 32 && 0 <= ny && ny < 32 && 0 <= nz && nz < 32 {
            proof {
                lemma_compose(nx as int, ny as int, nz as int);
            }
            Some(InnerIdx(nx as usize + ny as usize * 32 + nz as usize * 1024))
        } else {
            None
        }
    }
}

/// A number built from three coordinates below 32 splits back into them.
proof fn lemma_compose(x: int, y: int, z: int)
    requires
        0 <= x < 32,
        0 <= y < 32,
        0 <= z < 32,
    ensures
        0 <= x + 32 * y + 1024 * z < 32768,
        (x + 32 * y + 1024 * z) % 32 == x,
        ((x + 32 * y + 1024 * z) / 32) % 32 == y,
        (x + 32 * y + 1024 * z) / 1024 == z,
{
    let n = x + 32 * y + 1024 * z;
    assert(n / 32 == y + 32 * z);
    assert(n % 32 == x);
    assert((y + 32 * z) % 32 == y);
    assert(n / 1024 == z);
}

/// The two forms of an inner position name the same blocks: turning a number
/// into coordinates and back gives the number.
pub proof fn lemma_idx_coords(i: InnerIdx)
    requires
        i.inv(),
    ensures
        0 <= i.x_spec() < 32,
        0 <= i.y_spec() < 32,
        0 <= i.z_spec() < 32,
        i.x_spec() + 32 * i.y_spec() + 1024 * i.z_spec() == i.value(),
{
}

impl FragmentPos {
    pub fn new(x: usize, y: usize) -> (r: FragmentPos)
        ensures
            r == (FragmentPos { x, y }),
    {
        FragmentPos { x, y }
    }

    /// Whether the column lies inside a chunk.
    pub open spec fn wf(self) -> bool {
        self.x < 32 && self.y < 32
    }

    /// Number of the column among the 1024 of a chunk, `32 * x + y`.
    pub open spec fn index_spec(self) -> int {
        32 * self.x + self.y
    }

    /// Number of the column among the 1024 of a chunk, or `None` for a column
    /// outside the chunk.
    pub fn index(self) -> (r: Option<usize>)
        ensures
            r is Some <==> self.wf(),
            r matches Some(i) ==> i == self.index_spec() && i < 1024,
    {
        if self.x < 32 && self.y < 32 {
            Some(self.x * 32 + self.y)
        } else {
            None
        }
    }

    /// Coordinate number `idx`: 0 is x, 1 is y.
    pub fn coord(&self, idx: usize) -> (r: usize)
        requires
            idx < 2,
        ensures
            r == (if idx == 0 {
                self.x
            } else {
                self.y
            }),
    {
        if idx == 0 {
            self.x
        } else {
            self.y
        }
    }
}

impl From<[usize; 2]> for FragmentPos {
    fn from(pos: [usize; 2]) -> (r: FragmentPos) {
        FragmentPos { x: pos[0], y: pos[1] }
    }
}

impl FromSpecImpl<[usize; 2]> for FragmentPos {
    open spec fn obeys_from_spec() -> bool {
        true
    }

    open spec fn from_spec(pos: [usize; 2]) -> FragmentPos {
        FragmentPos { x: pos[0], y: pos[1] }
    }
}

} // verus!
