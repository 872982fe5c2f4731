//! Chunk coordinates and the split of voxel indices into chunks.

use vstd::prelude::*;

use crate::pool::CS;

verus! {

/// World-space chunk coordinate (signed, in chunk units).
///
/// Each chunk covers a region of `CS` usable voxels per axis. Coordinates can
/// be negative, so worlds are unbounded in every direction.
#[derive(Debug, Clone, Copy, PartialEq, Eq, Hash, Structural)]
pub struct ChunkCoord {
    pub x: i32,
    pub y: i32,
    pub z: i32,
}

impl Default for ChunkCoord {
    fn default() -> (c: Self)
        ensures
            c.x == 0 && c.y == 0 && c.z == 0,
    {
        ChunkCoord { x: 0, y: 0, z: 0 }
    }
}

/// Whether every face neighbour of `c` has a coordinate of its own.
pub open spec fn has_neighbors(c: ChunkCoord) -> bool {
    &&& i32::MIN < c.x < i32::MAX
    &&& i32::MIN < c.y < i32::MAX
    &&& i32::MIN < c.z < i32::MAX
}

/// The six face neighbours of a chunk.
pub open spec fn neighbors_of(c: ChunkCoord) -> Seq<ChunkCoord> {
    seq![
        ChunkCoord { x: (c.x + 1) as i32, y: c.y, z: c.z },
        ChunkCoord { x: (c.x - 1) as i32, y: c.y, z: c.z },
        ChunkCoord { x: c.x, y: (c.y + 1) as i32, z: c.z },
        ChunkCoord { x: c.x, y: (c.y - 1) as i32, z: c.z },
        ChunkCoord { x: c.x, y: c.y, z: (c.z + 1) as i32 },
        ChunkCoord { x: c.x, y: c.y, z: (c.z - 1) as i32 },
    ]
}

/// The chunk that holds a voxel.
pub open spec fn chunk_of(v: Seq<i32>) -> ChunkCoord {
    ChunkCoord {
        x: (v[0] as int / CS as int) as i32,
        y: (v[1] as int / CS as int) as i32,
        z: (v[2] as int / CS as int) as i32,
    }
}

/// The place of a voxel in its chunk.
pub open spec fn local_of(v: Seq<i32>) -> Seq<u32> {
    seq![
        (v[0] as int % CS as int) as u32,
        (v[1] as int % CS as int) as u32,
        (v[2] as int % CS as int) as u32,
    ]
}

impl ChunkCoord {
    /// Origin chunk at (0, 0, 0).
    pub fn zero() -> (c: Self)
        ensures
            c == (ChunkCoord { x: 0, y: 0, z: 0 }),
    {
        ChunkCoord { x: 0, y: 0, z: 0 }
    }

    /// Create a new chunk coordinate.
    pub fn new(x: i32, y: i32, z: i32) -> (c: Self)
        ensures
            c == (ChunkCoord { x, y, z }),
    {
        ChunkCoord { x, y, z }
    }

    /// The 6 face-adjacent neighbours, in order +X, -X, +Y, -Y, +Z, -Z.
    pub fn neighbors(&self) -> (n: [ChunkCoord; 6])
        requires
            has_neighbors(*self),
        ensures
            n@ == seq![
                ChunkCoord { x: (self.x + 1) as i32, y: self.y, z: self.z },
                ChunkCoord { x: (self.x - 1) as i32, y: self.y, z: self.z },
                ChunkCoord { x: self.x, y: (self.y + 1) as i32, z: self.z },
                ChunkCoord { x: self.x, y: (self.y - 1) as i32, z: self.z },
                ChunkCoord { x: self.x, y: self.y, z: (self.z + 1) as i32 },
                ChunkCoord { x: self.x, y: self.y, z: (self.z - 1) as i32 },
            ],
            n@ == neighbors_of(*self),
    {
        let n: [ChunkCoord; 6] = [
            ChunkCoord { x: self.x + 1, y: self.y, z: self.z },
            ChunkCoord { x: self.x - 1, y: self.y, z: self.z },
            ChunkCoord { x: self.x, y: self.y + 1, z: self.z },
            ChunkCoord { x: self.x, y: self.y - 1, z: self.z },
            ChunkCoord { x: self.x, y: self.y, z: self.z + 1 },
            ChunkCoord { x: self.x, y: self.y, z: self.z - 1 },
        ];
        n
    }

    /// The chunk that holds a voxel.
    pub fn from_voxel(voxel: [i32; 3]) -> (c: Self)
        ensures
            c.x == voxel[0] as int / CS as int,
            c.y == voxel[1] as int / CS as int,
            c.z == voxel[2] as int / CS as int,
            c == chunk_of(voxel@),
    {
        ChunkCoord {
            x: floor_div(voxel[0], CS as i32),
            y: floor_div(voxel[1], CS as i32),
            z: floor_div(voxel[2], CS as i32),
        }
    }

    /// The place of a voxel inside its chunk, each axis in `0..CS`.
    pub fn voxel_to_local(voxel: [i32; 3]) -> (l: [u32; 3])
        ensures
            l[0] == voxel[0] as int % CS as int,
            l[1] == voxel[1] as int % CS as int,
            l[2] == voxel[2] as int % CS as int,
            l@ == local_of(voxel@),
    {
        let l: [u32; 3] = [
            euclidean_mod(voxel[0], CS as i32) as u32,
            euclidean_mod(voxel[1], CS as i32) as u32,
            euclidean_mod(voxel[2], CS as i32) as u32,
        ];
        l
    }
}

/// A voxel index is recovered from its chunk and its place in the chunk.
pub proof fn voxel_split_roundtrip(v: int)
    ensures
        (v / CS as int) * CS + v % CS as int == v,
        0 <= v % CS as int,
        v % (CS as int) < CS,
{
}

/// Two voxels in the same chunk at the same place are the same voxel.
pub proof fn voxel_split_injective(v: int, w: int)
    requires
        v / CS as int == w / CS as int,
        v % CS as int == w % CS as int,
    ensures
        v == w,
{
}

/// The floor quotient and the non-negative remainder are the only pair that
/// rebuilds the dividend.
proof fn lemma_floor_unique(n: int, d: int, q: int, r: int)
    requires
        d > 0,
        n == d * q + r,
        0 <= r < d,
    ensures
        n / d == q,
        n % d == r,
{
    assert(d * q == q * d) by (nonlinear_arith);
    vstd::arithmetic::div_mod::lemma_fundamental_div_mod_converse(n, d, q, r);
}

/// The quotient of `a` by `b`, rounded towards negative infinity.
pub open spec fn floor_quotient(a: int, b: int) -> int {
    if b > 0 {
        a / b
    } else {
        (-a) / (-b)
    }
}

/// Floor division (works for negative operands).
pub fn floor_div(a: i32, b: i32) -> (q: i32)
    requires
        b != 0,
        !(a == i32::MIN && b == -1),
    ensures
        q == floor_quotient(a as int, b as int),
{
    let n: i64 = if b > 0 { a as i64 } else { -(a as i64) };
    let d: i64 = if b > 0 { b as i64 } else { -(b as i64) };
    let q: i64 = n / d;
    let r: i64 = n % d;
    proof {
        let m: int = if n >= 0 { n as int } else { -n };
        vstd::arithmetic::div_mod::lemma_fundamental_div_mod(m, d as int);
        if d >= 2 {
            vstd::arithmetic::div_mod::lemma_div_is_ordered_by_denominator(m, 2, d as int);
        }
        assert(n == d * q + r) by (nonlinear_arith)
            requires
                n >= 0 ==> m == n && q == m / d as int && r == m % d as int,
                n < 0 ==> m == -n && q == -(m / d as int) && r == -(m % d as int),
                m == d as int * (m / d as int) + m % d as int,
        ;
        if r < 0 {
            assert(n == d * (q - 1) + (r + d)) by (nonlinear_arith)
                requires
                    n == d * q + r,
            ;
            lemma_floor_unique(n as int, d as int, q - 1, r + d);
        } else {
            lemma_floor_unique(n as int, d as int, q as int, r as int);
        }
    }
    if r < 0 {
        (q - 1) as i32
    } else {
        q as i32
    }
}

/// The non-negative remainder of `a` by `b`.
pub open spec fn modulus(a: int, b: int) -> int {
    a % b
}

/// Euclidean modulus (always non-negative).
pub fn euclidean_mod(a: i32, b: i32) -> (r: i32)
    requires
        b != 0,
        !(a == i32::MIN && b == -1),
    ensures
        r == a as int % b as int,
        r >= 0,
        r == modulus(a as int, b as int),
{
    let d: i64 = if b > 0 { b as i64 } else { -(b as i64) };
    let r: i64 = a as i64 % d;
    proof {
        let m: int = if a >= 0 { a as int } else { -a };
        let q: int = m / d as int;
        vstd::arithmetic::div_mod::lemma_fundamental_div_mod(m, d as int);
        if r < 0 {
            assert(a == d * (-q - 1) + (r + d)) by (nonlinear_arith)
                requires
                    m == -a,
                    m == d as int * q + m % d as int,
                    r == -(m % d as int),
            ;
            lemma_floor_unique(a as int, d as int, -q - 1, r + d);
        } else if a < 0 {
            assert(a == d * (-q) + 0) by (nonlinear_arith)
                requires
                    m == -a,
                    m == d as int * q + 0,
            ;
            lemma_floor_unique(a as int, d as int, -q, 0);
        }
        lemma_modulus_of_negative(a as int, d as int);
    }
    if r < 0 {
        (r + d) as i32
    } else {
        r as i32
    }
}

/// The sign of the divisor does not change the modulus.
proof fn lemma_modulus_of_negative(a: int, d: int)
    by (nonlinear_arith)
    requires
        d > 0,
    ensures
        a % (-d) == a % d,
{
}

/// Along each axis a voxel lies where its chunk begins plus its place in the chunk,
/// and that place is below the chunk's side.
pub proof fn voxels_lie_in_their_chunk(v: Seq<i32>)
    requires
        v.len() == 3,
    ensures
        chunk_of(v).x * 62 + local_of(v)[0] == v[0],
        chunk_of(v).y * 62 + local_of(v)[1] == v[1],
        chunk_of(v).z * 62 + local_of(v)[2] == v[2],
        local_of(v).len() == 3,
        local_of(v)[0] < 62 && local_of(v)[1] < 62 && local_of(v)[2] < 62,
{
}

/// Neighbours are one step away along one axis: along x first, then y, then z, each
/// time up and then down. Stepping back leads to where one came from.
pub proof fn neighbors_are_one_step_away(c: ChunkCoord)
    requires
        has_neighbors(c),
    ensures
        ({
            let n = neighbors_of(c);
            &&& n.len() == 6 && n.no_duplicates() && !n.contains(c)
            &&& n[0].x - c.x == 1 && c.x - n[1].x == 1 && n[2].y - c.y == 1 && c.y - n[3].y == 1
            &&& n[4].z - c.z == 1 && c.z - n[5].z == 1
            &&& forall|i: int|
                0 <= i < 6 ==> (#[trigger] n[i]).x - c.x + (n[i].y - c.y) + (n[i].z - c.z) == (if i
                    % 2 == 0 {
                    1int
                } else {
                    -1
                })
            &&& forall|i: int|
                0 <= i < 6 ==> (#[trigger] neighbors_of(n[i]))[if i % 2 == 0 {
                    i + 1
                } else {
                    i - 1
                }] == c
        }),
{
    let n = neighbors_of(c);
    assert forall|i: int| 0 <= i < 6 implies (#[trigger] neighbors_of(n[i]))[if i % 2 == 0 {
        i + 1
    } else {
        i - 1
    }] == c by {
        if i == 0 {
        } else if i == 1 {
        } else if i == 2 {
        } else if i == 3 {
        } else if i == 4 {
        } else {
        }
    }
}

/// The floor quotient is the greatest integer that is not above the quotient: what is
/// left of the dividend has the sign of the divisor and is smaller.
pub proof fn floor_quotient_is_the_floor(a: int, b: int)
    requires
        b != 0,
    ensures
        b > 0 ==> 0 <= a - floor_quotient(a, b) * b < b,
        b < 0 ==> b < a - floor_quotient(a, b) * b <= 0,
{
    let q = floor_quotient(a, b);
    if b > 0 {
        vstd::arithmetic::div_mod::lemma_fundamental_div_mod(a, b);
        vstd::arithmetic::mul::lemma_mul_is_commutative(b, q);
    } else {
        let (n, d) = (-a, -b);
        vstd::arithmetic::div_mod::lemma_fundamental_div_mod(n, d);
        assert(d * q == -(q * b)) by (nonlinear_arith)
            requires
                d == -b,
        ;
    }
}

/// The modulus is never negative and smaller than the divisor, whatever its sign, and
/// for a positive divisor it is what the floor quotient leaves.
pub proof fn modulus_is_what_is_left(a: int, b: int)
    requires
        b != 0,
    ensures
        0 <= modulus(a, b),
        modulus(a, b) < b || modulus(a, b) < -b,
        b > 0 ==> modulus(a, b) == a - floor_quotient(a, b) * b,
        modulus(a, -b) == modulus(a, b),
{
    if b > 0 {
        vstd::arithmetic::div_mod::lemma_fundamental_div_mod(a, b);
        vstd::arithmetic::mul::lemma_mul_is_commutative(b, a / b);
        lemma_modulus_of_negative(a, b);
    } else {
        lemma_modulus_of_negative(a, -b);
        vstd::arithmetic::div_mod::lemma_mod_bound(a, -b);
    }
}

} // verus!
