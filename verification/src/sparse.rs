//! Sparse voxel grids: a dense grid cut into bricks, without the empty ones.

use vstd::prelude::*;

use crate::bits;
use crate::residency;

verus! {

/// Size of a grid in voxels.
#[derive(Debug, Clone, Copy, PartialEq, Eq, Structural)]
pub struct Dims {
    pub x: u32,
    pub y: u32,
    pub z: u32,
}

/// First voxel of a brick.
#[derive(Debug, Clone, Copy, PartialEq, Eq, Structural)]
pub struct BrickOrigin {
    pub x: u32,
    pub y: u32,
    pub z: u32,
}

/// A dense voxelization: one bit a voxel, x fastest, and optional attributes.
#[derive(Debug)]
pub struct Dense {
    pub occupancy: Vec<u32>,
    pub owner_id: Option<Vec<u32>>,
    pub color_rgba: Option<Vec<u32>>,
    /// Number of triangles that were voxelized.
    pub triangles: u32,
}

/// A sparse voxelization: the occupancy words and attributes of each brick, one
/// brick after the other.
#[derive(Debug)]
pub struct Sparse {
    pub brick_dim: u32,
    pub brick_origins: Vec<BrickOrigin>,
    pub occupancy: Vec<u32>,
    pub owner_id: Option<Vec<u32>>,
    pub color_rgba: Option<Vec<u32>>,
    pub debug_flags: [u32; 3],
    pub debug_workgroups: u32,
    pub debug_tested: u32,
    pub debug_hits: u32,
    /// Number of triangles that were voxelized.
    pub triangles: u32,
}

/// Number of a voxel in a dense grid.
pub open spec fn linear(x: int, y: int, z: int, dims: Dims) -> int {
    x + dims.x * (y + dims.y * z)
}

/// Number of voxels of a grid.
pub open spec fn volume(dims: Dims) -> int {
    dims.x * (dims.y * dims.z)
}

/// Whether a place lies in a grid.
pub open spec fn in_grid(x: int, y: int, z: int, dims: Dims) -> bool {
    0 <= x < dims.x && 0 <= y < dims.y && 0 <= z < dims.z
}

/// Whether a dense grid has a voxel at a place.
pub open spec fn has_voxel(occ: Seq<u32>, dims: Dims, x: int, y: int, z: int) -> bool {
    in_grid(x, y, z, dims) && bits::bit32(
        occ[linear(x, y, z, dims) / 32],
        linear(x, y, z, dims) % 32,
    )
}

/// Whether a dense grid has no voxel at all.
pub open spec fn has_no_voxel(occ: Seq<u32>, dims: Dims) -> bool {
    forall|x: int, y: int, z: int| !#[trigger] has_voxel(occ, dims, x, y, z)
}

/// Number of voxels of a brick.
pub open spec fn brick_volume(dim: u32) -> int {
    dim * dim * dim
}

/// Number of occupancy words of a brick.
pub open spec fn brick_words(dim: u32) -> int {
    (brick_volume(dim) + 31) / 32
}

/// Place in the grid of a brick's voxel number `p`.
pub open spec fn place_in(o: BrickOrigin, dim: u32, p: int) -> (int, int, int) {
    (o.x + p % (dim as int), o.y + p / (dim as int) % (dim as int), o.z + p / (dim as int) / (
    dim as int))
}

/// Whether a brick's voxel number `p` is set in the dense grid.
pub open spec fn brick_bit(occ: Seq<u32>, dims: Dims, o: BrickOrigin, dim: u32, p: int) -> bool {
    let at = place_in(o, dim, p);
    0 <= p < brick_volume(dim) && has_voxel(occ, dims, at.0, at.1, at.2)
}

/// Whether a brick holds any voxel of the dense grid.
pub open spec fn brick_any(occ: Seq<u32>, dims: Dims, o: BrickOrigin, dim: u32) -> bool {
    exists|p: int| #[trigger] brick_bit(occ, dims, o, dim, p)
}

/// Block `i` of a sequence cut into blocks of `n`.
pub open spec fn block(v: Seq<u32>, n: int, i: int) -> Seq<u32> {
    v.subrange(i * n, (i + 1) * n)
}

/// `words` are the occupancy words of a brick.
pub open spec fn is_brick(
    words: Seq<u32>,
    occ: Seq<u32>,
    dims: Dims,
    o: BrickOrigin,
    dim: u32,
) -> bool {
    &&& words.len() == brick_words(dim)
    &&& forall|p: int|
        0 <= p < 32 * brick_words(dim) ==> #[trigger] bits::bit32(words[p / 32], p % 32)
            == brick_bit(occ, dims, o, dim, p)
}

/// `values` are the attributes of a brick's voxels; voxels that are not set
/// have the filler.
pub open spec fn is_brick_attribute(
    values: Seq<u32>,
    source: Seq<u32>,
    filler: u32,
    occ: Seq<u32>,
    dims: Dims,
    o: BrickOrigin,
    dim: u32,
) -> bool {
    &&& values.len() == brick_volume(dim)
    &&& forall|p: int|
        0 <= p < brick_volume(dim) ==> #[trigger] values[p] == (if brick_bit(occ, dims, o, dim, p) {
            let at = place_in(o, dim, p);
            source[linear(at.0, at.1, at.2, dims)]
        } else {
            filler
        })
}

/// Order of bricks: by x, then y, then z.
pub open spec fn brick_before(a: BrickOrigin, b: BrickOrigin) -> bool {
    a.x < b.x || (a.x == b.x && (a.y < b.y || (a.y == b.y && a.z < b.z)))
}

/// The brick of a place.
pub open spec fn brick_of(x: int, y: int, z: int, dim: u32) -> BrickOrigin {
    BrickOrigin {
        x: (x / (dim as int) * dim) as u32,
        y: (y / (dim as int) * dim) as u32,
        z: (z / (dim as int) * dim) as u32,
    }
}

/// Attributes cut into bricks.
pub open spec fn are_brick_attributes(
    out: Option<Vec<u32>>,
    source: Option<Vec<u32>>,
    filler: u32,
    occ: Seq<u32>,
    dims: Dims,
    origins: Seq<BrickOrigin>,
    dim: u32,
) -> bool {
    match (out, source) {
        (Some(out), Some(source)) => {
            &&& out@.len() == origins.len() * brick_volume(dim)
            &&& forall|i: int|
                0 <= i < origins.len() ==> is_brick_attribute(
                    #[trigger] block(out@, brick_volume(dim), i),
                    source@,
                    filler,
                    occ,
                    dims,
                    origins[i],
                    dim,
                )
        },
        (None, None) => true,
        _ => false,
    }
}

/// `s` is a dense grid cut into bricks: the bricks that hold a voxel, in order.
pub open spec fn is_sparse_of(s: Sparse, dense: Dense, dims: Dims, dim: u32) -> bool {
    let occ = dense.occupancy@;
    let origins = s.brick_origins@;
    &&& s.brick_dim == dim
    &&& s.triangles == dense.triangles
    &&& s.debug_flags@ == seq![0u32, 0u32, 0u32]
    &&& s.debug_workgroups == 0 && s.debug_tested == 0 && s.debug_hits == 0
    &&& forall|i: int, j: int|
        0 <= i < j < origins.len() ==> brick_before(#[trigger] origins[i], #[trigger] origins[j])
    &&& forall|i: int| 0 <= i < origins.len() ==> brick_any(occ, dims, #[trigger] origins[i], dim)
    &&& forall|i: int|
        0 <= i < origins.len() ==> (#[trigger] origins[i]) == brick_of(
            origins[i].x as int,
            origins[i].y as int,
            origins[i].z as int,
            dim,
        )
    &&& forall|x: int, y: int, z: int| #[trigger]
        has_voxel(occ, dims, x, y, z) ==> origins.contains(brick_of(x, y, z, dim))
    &&& s.occupancy@.len() == origins.len() * brick_words(dim)
    &&& forall|i: int|
        0 <= i < origins.len() ==> is_brick(
            #[trigger] block(s.occupancy@, brick_words(dim), i),
            occ,
            dims,
            origins[i],
            dim,
        )
    &&& are_brick_attributes(s.owner_id, dense.owner_id, u32::MAX, occ, dims, origins, dim)
    &&& are_brick_attributes(s.color_rgba, dense.color_rgba, 0, occ, dims, origins, dim)
}

/// A dense grid has the words and attributes of all its voxels.
pub open spec fn dense_is_complete(dense: Dense, dims: Dims) -> bool {
    &&& volume(dims) <= 32 * dense.occupancy@.len()
    &&& volume(dims) <= usize::MAX
    &&& forall|x: int, y: int, z: int| #[trigger]
        has_voxel(dense.occupancy@, dims, x, y, z) ==> {
            &&& dense.owner_id matches Some(v) ==> linear(x, y, z, dims) < v@.len()
            &&& dense.color_rgba matches Some(v) ==> linear(x, y, z, dims) < v@.len()
        }
}

/// Voxels of a grid have numbers below its volume.
pub proof fn linear_bound(x: int, y: int, z: int, dims: Dims)
    requires
        in_grid(x, y, z, dims),
    ensures
        0 <= dims.y * z <= dims.y * dims.z,
        0 <= y + dims.y * z < dims.y * dims.z,
        0 <= dims.x * (y + dims.y * z),
        0 <= linear(x, y, z, dims) < volume(dims),
        dims.y * dims.z <= volume(dims),
{
    let a = dims.x as int;
    let b = dims.y as int;
    let c = dims.z as int;
    assert(0 <= b * z <= b * (c - 1)) by (nonlinear_arith)
        requires
            0 <= z < c,
            0 < b,
    ;
    assert(b * (c - 1) == b * c - b) by (nonlinear_arith);
    let r = y + b * z;
    let bc = b * c;
    assert(0 <= a * r <= a * (bc - 1)) by (nonlinear_arith)
        requires
            0 <= r <= bc - 1,
            0 < a,
    ;
    assert(a * (bc - 1) == a * bc - a) by (nonlinear_arith);
    assert(bc <= a * bc) by (nonlinear_arith)
        requires
            0 < a,
            0 <= bc,
    ;
}

/// A brick's size stays within `u32`.
proof fn lemma_brick_size(dim: u32)
    requires
        1 <= dim,
        brick_volume(dim) <= u32::MAX,
    ensures
        1 <= dim * dim <= u32::MAX,
        1 <= brick_volume(dim),
        dim * dim <= brick_volume(dim),
        dim <= brick_volume(dim),
{
    assert(1 <= dim * dim) by (nonlinear_arith)
        requires
            1 <= dim,
    ;
    assert(dim * dim <= dim * dim * dim) by (nonlinear_arith)
        requires
            1 <= dim,
            1 <= dim * dim,
    ;
    assert(dim <= dim * dim) by (nonlinear_arith)
        requires
            1 <= dim,
    ;
}

/// The words and attributes of one brick.
struct BrickData {
    any: bool,
    words: Vec<u32>,
    owner: Vec<u32>,
    color: Vec<u32>,
}

/// The attribute of a voxel, or the filler.
fn attribute_or(source: &Option<Vec<u32>>, at: usize, filler: u32) -> (v: u32)
    requires
        source matches Some(s) ==> at < s@.len(),
    ensures
        v == (match *source {
            Some(s) => s@[at as int],
            None => filler,
        }),
{
    match source {
        Some(s) => s[at],
        None => filler,
    }
}

/// The attributes that an optional source gives a brick.
spec fn gives_attribute(
    values: Seq<u32>,
    source: Option<Vec<u32>>,
    filler: u32,
    occ: Seq<u32>,
    dims: Dims,
    o: BrickOrigin,
    dim: u32,
) -> bool {
    &&& values.len() == brick_volume(dim)
    &&& source matches Some(s) ==> is_brick_attribute(values, s@, filler, occ, dims, o, dim)
}

/// Collect one brick of a dense grid.
fn scan_brick(dense: &Dense, dims: Dims, o: BrickOrigin, dim: u32) -> (b: BrickData)
    requires
        dense_is_complete(*dense, dims),
        1 <= dim,
        brick_volume(dim) <= u32::MAX,
        o.x < dims.x && o.y < dims.y && o.z < dims.z,
    ensures
        b.any == brick_any(dense.occupancy@, dims, o, dim),
        is_brick(b.words@, dense.occupancy@, dims, o, dim),
        gives_attribute(b.owner@, dense.owner_id, u32::MAX, dense.occupancy@, dims, o, dim),
        gives_attribute(b.color@, dense.color_rgba, 0, dense.occupancy@, dims, o, dim),
{
    let ghost occ = dense.occupancy@;
    proof {
        lemma_brick_size(dim);
    }
    let count: u32 = dim * dim * dim;
    let word_count: usize = ((count as u64 + 31) / 32) as usize;
    let mut words: Vec<u32> = vec![0u32; word_count];
    let mut owner: Vec<u32> = vec![u32::MAX; count as usize];
    let mut color: Vec<u32> = vec![0u32; count as usize];
    let mut any: bool = false;
    proof {
        bits::lemma_zero32();
    }
    let mut p: u32 = 0;
    while p < count
        invariant
            p <= count,
            dense_is_complete(*dense, dims),
            1 <= dim,
            count == brick_volume(dim),
            o.x < dims.x && o.y < dims.y && o.z < dims.z,
            occ == dense.occupancy@,
            words@.len() == brick_words(dim),
            owner@.len() == count,
            color@.len() == count,
            any == (exists|q: int| q < p && #[trigger] brick_bit(occ, dims, o, dim, q)),
            forall|q: int|
                0 <= q < 32 * words@.len() ==> #[trigger] bits::bit32(words@[q / 32], q % 32) == (q
                    < p && brick_bit(occ, dims, o, dim, q)),
            forall|q: int|
                #![trigger owner@[q]]
                0 <= q < count ==> owner@[q] == (if q < p && brick_bit(occ, dims, o, dim, q)
                    && dense.owner_id is Some {
                    let at = place_in(o, dim, q);
                    dense.owner_id->0@[linear(at.0, at.1, at.2, dims)]
                } else {
                    u32::MAX
                }),
            forall|q: int|
                #![trigger color@[q]]
                0 <= q < count ==> color@[q] == (if q < p && brick_bit(occ, dims, o, dim, q)
                    && dense.color_rgba is Some {
                    let at = place_in(o, dim, q);
                    dense.color_rgba->0@[linear(at.0, at.1, at.2, dims)]
                } else {
                    0
                }),
        decreases count - p,
    {
        let lx: u32 = p % dim;
        let ly: u32 = p / dim % dim;
        let lz: u32 = p / dim / dim;
        let ghost at = place_in(o, dim, p as int);
        let ghost words_before = words@;
        let ghost owner_before = owner@;
        let ghost color_before = color@;
        if lx < dims.x - o.x && ly < dims.y - o.y && lz < dims.z - o.z {
            let x: u32 = o.x + lx;
            let y: u32 = o.y + ly;
            let z: u32 = o.z + lz;
            proof {
                linear_bound(x as int, y as int, z as int, dims);
            }
            let n: usize = x as usize + dims.x as usize * (y as usize + dims.y as usize
                * z as usize);
            let bit: u32 = (n % 32) as u32;
            if bits::test_bit32(dense.occupancy[n / 32], bit) {
                assert(has_voxel(occ, dims, x as int, y as int, z as int));
                assert(brick_bit(occ, dims, o, dim, p as int));
                let w: usize = (p / 32) as usize;
                let k: u32 = p % 32;
                proof {
                    bits::lemma_set_bit32(words@[w as int], k);
                }
                words.set(w, words[w] | (1u32 << k));
                owner.set(p as usize, attribute_or(&dense.owner_id, n, u32::MAX));
                color.set(p as usize, attribute_or(&dense.color_rgba, n, 0));
                any = true;
                proof {
                    assert forall|q: int| 0 <= q < 32 * words@.len() implies #[trigger] bits::bit32(
                        words@[q / 32],
                        q % 32,
                    ) == (q < p + 1 && brick_bit(occ, dims, o, dim, q)) by {
                        if q / 32 == w {
                            assert(bits::bit32(words_before[q / 32], q % 32) == (q < p && brick_bit(
                                occ,
                                dims,
                                o,
                                dim,
                                q,
                            )));
                        } else {
                            assert(words@[q / 32] == words_before[q / 32]);
                        }
                    }
                }
            } else {
                assert(!brick_bit(occ, dims, o, dim, p as int));
            }
        } else {
            assert(!brick_bit(occ, dims, o, dim, p as int));
        }
        p = p + 1;
    }
    proof {
        assert forall|q: int| #[trigger] brick_bit(occ, dims, o, dim, q) implies q < count by {}
    }
    BrickData { any, words, owner, color }
}

/// Append words.
fn append_words(v: &mut Vec<u32>, more: &[u32])
    ensures
        final(v)@ == old(v)@ + more@,
{
    let ghost start = v@;
    let mut i: usize = 0;
    while i < more.len()
        invariant
            i <= more@.len(),
            v@ =~= start + more@.take(i as int),
            start == old(v)@,
        decreases more@.len() - i,
    {
        v.push(more[i]);
        i = i + 1;
    }
    assert(more@.take(more@.len() as int) =~= more@);
}

/// A block appended to whole blocks is the last one, and changes no other.
proof fn lemma_append_block(v: Seq<u32>, more: Seq<u32>, n: int, count: int)
    requires
        0 <= n,
        0 <= count,
        v.len() == count * n,
        more.len() == n,
    ensures
        (v + more).len() == (count + 1) * n,
        block(v + more, n, count) == more,
        forall|i: int| 0 <= i < count ==> #[trigger] block(v + more, n, i) == block(v, n, i),
{
    assert((count + 1) * n == count * n + n) by (nonlinear_arith);
    assert(block(v + more, n, count) =~= more);
    assert forall|i: int| 0 <= i < count implies #[trigger] block(v + more, n, i) == block(
        v,
        n,
        i,
    ) by {
        assert(0 <= i * n && (i + 1) * n <= count * n && i * n <= (i + 1) * n) by (nonlinear_arith)
            requires
                0 <= i < count,
                0 <= n,
        ;
        assert(block(v + more, n, i) =~= block(v, n, i));
    }
}

/// Number of a brick along each axis.
#[verifier::ext_equal]
struct Key {
    x: int,
    y: int,
    z: int,
}

/// The origin of a brick by its numbers.
spec fn key_origin(k: Key, dim: u32) -> BrickOrigin {
    BrickOrigin { x: (k.x * dim) as u32, y: (k.y * dim) as u32, z: (k.z * dim) as u32 }
}

/// Order of bricks by their numbers.
spec fn key_before(a: Key, b: Key) -> bool {
    a.x < b.x || (a.x == b.x && (a.y < b.y || (a.y == b.y && a.z < b.z)))
}

/// Whether a brick lies in the grid.
spec fn key_in_grid(k: Key, dims: Dims, dim: u32) -> bool {
    0 <= k.x && 0 <= k.y && 0 <= k.z && k.x * dim < dims.x && k.y * dim < dims.y && k.z * dim
        < dims.z
}

/// Which bricks were collected: those before `limit` that hold a voxel, in
/// order.
spec fn collected(
    keys: Seq<Key>,
    origins: Seq<BrickOrigin>,
    occ: Seq<u32>,
    dims: Dims,
    dim: u32,
    limit: Key,
) -> bool {
    &&& keys.len() == origins.len()
    &&& forall|i: int|
        0 <= i < keys.len() ==> {
            &&& key_in_grid(#[trigger] keys[i], dims, dim)
            &&& key_before(keys[i], limit)
            &&& origins[i] == key_origin(keys[i], dim)
            &&& brick_any(occ, dims, origins[i], dim)
        }
    &&& forall|i: int, j: int|
        0 <= i < j < keys.len() ==> key_before(#[trigger] keys[i], #[trigger] keys[j])
    &&& forall|k: Key| #[trigger]
        key_in_grid(k, dims, dim) && key_before(k, limit) && brick_any(
            occ,
            dims,
            key_origin(k, dim),
            dim,
        ) ==> keys.contains(k)
}

/// Moving the limit over bricks outside the grid changes nothing.
proof fn lemma_limit(
    keys: Seq<Key>,
    origins: Seq<BrickOrigin>,
    occ: Seq<u32>,
    dims: Dims,
    dim: u32,
    limit: Key,
    next: Key,
)
    requires
        collected(keys, origins, occ, dims, dim, limit),
        key_before(limit, next),
        forall|k: Key| #[trigger]
            key_in_grid(k, dims, dim) && key_before(k, next) ==> key_before(k, limit),
    ensures
        collected(keys, origins, occ, dims, dim, next),
{
}

/// The words and attributes of the collected bricks.
spec fn holds_bricks(
    occupancy: Seq<u32>,
    owner: Seq<u32>,
    color: Seq<u32>,
    origins: Seq<BrickOrigin>,
    dense: Dense,
    dims: Dims,
    dim: u32,
) -> bool {
    let occ = dense.occupancy@;
    &&& occupancy.len() == origins.len() * brick_words(dim)
    &&& owner.len() == origins.len() * brick_volume(dim)
    &&& color.len() == origins.len() * brick_volume(dim)
    &&& forall|i: int|
        0 <= i < origins.len() ==> is_brick(
            #[trigger] block(occupancy, brick_words(dim), i),
            occ,
            dims,
            origins[i],
            dim,
        )
    &&& forall|i: int|
        0 <= i < origins.len() ==> gives_attribute(
            #[trigger] block(owner, brick_volume(dim), i),
            dense.owner_id,
            u32::MAX,
            occ,
            dims,
            origins[i],
            dim,
        )
    &&& forall|i: int|
        0 <= i < origins.len() ==> gives_attribute(
            #[trigger] block(color, brick_volume(dim), i),
            dense.color_rgba,
            0,
            occ,
            dims,
            origins[i],
            dim,
        )
}

/// Bricks under collection.
struct Bricks {
    origins: Vec<BrickOrigin>,
    occupancy: Vec<u32>,
    owner: Vec<u32>,
    color: Vec<u32>,
    keys: Ghost<Seq<Key>>,
}

impl Bricks {
    spec fn inv(&self, dense: Dense, dims: Dims, dim: u32, limit: Key) -> bool {
        &&& collected(self.keys@, self.origins@, dense.occupancy@, dims, dim, limit)
        &&& holds_bricks(
            self.occupancy@,
            self.owner@,
            self.color@,
            self.origins@,
            dense,
            dims,
            dim,
        )
    }

    /// Collect the brick at the limit, if it holds a voxel.
    fn add_brick(&mut self, dense: &Dense, dims: Dims, dim: u32, o: BrickOrigin, k: Ghost<Key>)
        requires
            old(self).inv(*dense, dims, dim, k@),
            dense_is_complete(*dense, dims),
            1 <= dim,
            brick_volume(dim) <= u32::MAX,
            key_in_grid(k@, dims, dim),
            o == key_origin(k@, dim),
            o.x < dims.x && o.y < dims.y && o.z < dims.z,
        ensures
            final(self).inv(*dense, dims, dim, Key { z: k@.z + 1, ..k@ }),
    {
        let ghost occ = dense.occupancy@;
        let ghost next = Key { z: k@.z + 1, ..k@ };
        let b = scan_brick(dense, dims, o, dim);
        proof {
            lemma_brick_size(dim);
        }
        if b.any {
            let ghost before = *self;
            let ghost n = self.origins@.len() as int;
            proof {
                lemma_append_block(self.occupancy@, b.words@, brick_words(dim), n);
                lemma_append_block(self.owner@, b.owner@, brick_volume(dim), n);
                lemma_append_block(self.color@, b.color@, brick_volume(dim), n);
            }
            self.origins.push(o);
            append_words(&mut self.occupancy, b.words.as_slice());
            append_words(&mut self.owner, b.owner.as_slice());
            append_words(&mut self.color, b.color.as_slice());
            self.keys = Ghost(self.keys@.push(k@));
            proof {
                assert forall|i: int| 0 <= i < self.origins@.len() implies is_brick(
                    #[trigger] block(self.occupancy@, brick_words(dim), i),
                    occ,
                    dims,
                    self.origins@[i],
                    dim,
                ) by {
                    if i < n {
                        assert(block(self.occupancy@, brick_words(dim), i) == block(
                            before.occupancy@,
                            brick_words(dim),
                            i,
                        ));
                    }
                }
                assert forall|i: int| 0 <= i < self.origins@.len() implies gives_attribute(
                    #[trigger] block(self.owner@, brick_volume(dim), i),
                    dense.owner_id,
                    u32::MAX,
                    occ,
                    dims,
                    self.origins@[i],
                    dim,
                ) by {
                    if i < n {
                        assert(block(self.owner@, brick_volume(dim), i) == block(
                            before.owner@,
                            brick_volume(dim),
                            i,
                        ));
                    }
                }
                assert forall|i: int| 0 <= i < self.origins@.len() implies gives_attribute(
                    #[trigger] block(self.color@, brick_volume(dim), i),
                    dense.color_rgba,
                    0,
                    occ,
                    dims,
                    self.origins@[i],
                    dim,
                ) by {
                    if i < n {
                        assert(block(self.color@, brick_volume(dim), i) == block(
                            before.color@,
                            brick_volume(dim),
                            i,
                        ));
                    }
                }
                lemma_collect(before.keys@, before.origins@, occ, dims, dim, k@);
            }
        } else {
            proof {
                lemma_skip(self.keys@, self.origins@, occ, dims, dim, k@);
            }
        }
    }
}

proof fn lemma_collect(
    keys: Seq<Key>,
    origins: Seq<BrickOrigin>,
    occ: Seq<u32>,
    dims: Dims,
    dim: u32,
    k: Key,
)
    requires
        collected(keys, origins, occ, dims, dim, k),
        key_in_grid(k, dims, dim),
        brick_any(occ, dims, key_origin(k, dim), dim),
    ensures
        collected(
            keys.push(k),
            origins.push(key_origin(k, dim)),
            occ,
            dims,
            dim,
            Key { z: k.z + 1, ..k },
        ),
{
    let next = Key { z: k.z + 1, ..k };
    let more = keys.push(k);
    assert forall|q: Key| #[trigger]
        key_in_grid(q, dims, dim) && key_before(q, next) && brick_any(
            occ,
            dims,
            key_origin(q, dim),
            dim,
        ) implies more.contains(q) by {
        if key_before(q, k) {
            assert(keys.contains(q));
            let i = choose|i: int| 0 <= i < keys.len() && keys[i] == q;
            assert(more[i] == q);
        } else {
            assert(q == k);
            assert(more[keys.len() as int] == k);
        }
    }
}

proof fn lemma_skip(
    keys: Seq<Key>,
    origins: Seq<BrickOrigin>,
    occ: Seq<u32>,
    dims: Dims,
    dim: u32,
    k: Key,
)
    requires
        collected(keys, origins, occ, dims, dim, k),
        !brick_any(occ, dims, key_origin(k, dim), dim),
    ensures
        collected(keys, origins, occ, dims, dim, Key { z: k.z + 1, ..k }),
{
    let next = Key { z: k.z + 1, ..k };
    assert forall|q: Key| #[trigger]
        key_in_grid(q, dims, dim) && key_before(q, next) && brick_any(
            occ,
            dims,
            key_origin(q, dim),
            dim,
        ) implies keys.contains(q) by {
        if !key_before(q, k) {
            assert(q == k);
        }
    }
}

/// A grid without voxels, cut into bricks.
fn no_bricks(dense: &Dense, dims: Dims, brick_dim: u32) -> (s: Sparse)
    requires
        has_no_voxel(dense.occupancy@, dims),
    ensures
        is_sparse_of(s, *dense, dims, brick_dim),
{
    let owner_id: Option<Vec<u32>> = if dense.owner_id.is_some() {
        Some(Vec::new())
    } else {
        None
    };
    let color_rgba: Option<Vec<u32>> = if dense.color_rgba.is_some() {
        Some(Vec::new())
    } else {
        None
    };
    let s = Sparse {
        brick_dim,
        brick_origins: Vec::new(),
        occupancy: Vec::new(),
        owner_id,
        color_rgba,
        debug_flags: [0, 0, 0],
        debug_workgroups: 0,
        debug_tested: 0,
        debug_hits: 0,
        triangles: dense.triangles,
    };
    proof {
        assert(s.debug_flags@ =~= seq![0u32, 0u32, 0u32]);
        assert(0 * brick_words(brick_dim) == 0 && 0 * brick_volume(brick_dim) == 0)
            by (nonlinear_arith);
    }
    s
}

/// Cut a dense grid into bricks and keep those that hold a voxel.
///
/// Voxels of a kept brick that are not set have owner `u32::MAX` and color 0. A
/// grid without voxels has no bricks of any size, not even of size 0.
pub fn dense_to_sparse(dense: Dense, dims: Dims, brick_dim: u32) -> (s: Sparse)
    requires
        dense_is_complete(dense, dims),
        1 <= brick_dim || has_no_voxel(dense.occupancy@, dims),
        brick_volume(brick_dim) <= u32::MAX,
    ensures
        is_sparse_of(s, dense, dims, brick_dim),
{
    if brick_dim == 0 {
        return no_bricks(&dense, dims, brick_dim);
    }
    let ghost occ = dense.occupancy@;
    let mut b = Bricks {
        origins: Vec::new(),
        occupancy: Vec::new(),
        owner: Vec::new(),
        color: Vec::new(),
        keys: Ghost(Seq::empty()),
    };
    let dim: u64 = brick_dim as u64;
    let mut ox: u64 = 0;
    let ghost mut kx: int = 0;
    assert(0 * brick_words(brick_dim) == 0 && 0 * brick_volume(brick_dim) == 0)
        by (nonlinear_arith);
    while ox < dims.x as u64
        invariant
            dim == brick_dim,
            1 <= brick_dim,
            brick_volume(brick_dim) <= u32::MAX,
            dense_is_complete(dense, dims),
            occ == dense.occupancy@,
            0 <= kx,
            ox == kx * brick_dim,
            ox <= 0x2_0000_0000,
            b.inv(dense, dims, brick_dim, Key { x: kx, y: 0, z: 0 }),
        decreases 0x2_0000_0000 - ox,
    {
        let mut oy: u64 = 0;
        let ghost mut ky: int = 0;
        while oy < dims.y as u64
            invariant
                dim == brick_dim,
                1 <= brick_dim,
                brick_volume(brick_dim) <= u32::MAX,
                dense_is_complete(dense, dims),
                occ == dense.occupancy@,
                0 <= kx,
                0 <= ky,
                ox == kx * brick_dim,
                oy == ky * brick_dim,
                ox < dims.x,
                oy <= 0x2_0000_0000,
                b.inv(dense, dims, brick_dim, Key { x: kx, y: ky, z: 0 }),
            decreases 0x2_0000_0000 - oy,
        {
            let mut oz: u64 = 0;
            let ghost mut kz: int = 0;
            while oz < dims.z as u64
                invariant
                    dim == brick_dim,
                    1 <= brick_dim,
                    brick_volume(brick_dim) <= u32::MAX,
                    dense_is_complete(dense, dims),
                    occ == dense.occupancy@,
                    0 <= kx,
                    0 <= ky,
                    0 <= kz,
                    ox == kx * brick_dim,
                    oy == ky * brick_dim,
                    oz == kz * brick_dim,
                    ox < dims.x,
                    oy < dims.y,
                    oz <= 0x2_0000_0000,
                    b.inv(dense, dims, brick_dim, Key { x: kx, y: ky, z: kz }),
                decreases 0x2_0000_0000 - oz,
            {
                let o = BrickOrigin { x: ox as u32, y: oy as u32, z: oz as u32 };
                b.add_brick(&dense, dims, brick_dim, o, Ghost(Key { x: kx, y: ky, z: kz }));
                proof {
                    assert((kz + 1) * brick_dim == kz * brick_dim + brick_dim)
                        by (nonlinear_arith);
                    kz = kz + 1;
                }
                oz = oz + dim;
            }
            proof {
                let limit = Key { x: kx, y: ky, z: kz };
                let next = Key { x: kx, y: ky + 1, z: 0 };
                assert forall|k: Key| #[trigger]
                    key_in_grid(k, dims, brick_dim) && key_before(k, next) implies key_before(
                    k,
                    limit,
                ) by {
                    if k.z >= kz {
                        assert(k.z * brick_dim >= kz * brick_dim) by (nonlinear_arith)
                            requires
                                k.z >= kz,
                                brick_dim >= 1,
                        ;
                    }
                }
                lemma_limit(b.keys@, b.origins@, occ, dims, brick_dim, limit, next);
                assert((ky + 1) * brick_dim == ky * brick_dim + brick_dim) by (nonlinear_arith);
                ky = ky + 1;
            }
            oy = oy + dim;
        }
        proof {
            let limit = Key { x: kx, y: ky, z: 0 };
            let next = Key { x: kx + 1, y: 0, z: 0 };
            assert forall|k: Key| #[trigger]
                key_in_grid(k, dims, brick_dim) && key_before(k, next) implies key_before(
                k,
                limit,
            ) by {
                if k.y >= ky {
                    assert(k.y * brick_dim >= ky * brick_dim) by (nonlinear_arith)
                        requires
                            k.y >= ky,
                            brick_dim >= 1,
                    ;
                }
            }
            lemma_limit(b.keys@, b.origins@, occ, dims, brick_dim, limit, next);
            assert((kx + 1) * brick_dim == kx * brick_dim + brick_dim) by (nonlinear_arith);
            kx = kx + 1;
        }
        ox = ox + dim;
    }
    proof {
        lemma_all_collected(b.keys@, b.origins@, occ, dims, brick_dim, kx);
    }
    let owner_id: Option<Vec<u32>> = if dense.owner_id.is_some() {
        Some(b.owner)
    } else {
        None
    };
    let color_rgba: Option<Vec<u32>> = if dense.color_rgba.is_some() {
        Some(b.color)
    } else {
        None
    };
    let s = Sparse {
        brick_dim,
        brick_origins: b.origins,
        occupancy: b.occupancy,
        owner_id,
        color_rgba,
        debug_flags: [0, 0, 0],
        debug_workgroups: 0,
        debug_tested: 0,
        debug_hits: 0,
        triangles: dense.triangles,
    };
    assert(s.debug_flags@ =~= seq![0u32, 0u32, 0u32]);
    s
}

/// Facts about the number of a brick.
proof fn lemma_key(k: int, dim: u32, size: u32)
    requires
        0 <= k,
        1 <= dim,
        k * dim < size,
    ensures
        0 <= k * dim <= u32::MAX,
        (k * dim) / (dim as int) == k,
{
    assert(0 <= k * dim) by (nonlinear_arith)
        requires
            0 <= k,
            1 <= dim,
    ;
    vstd::arithmetic::div_mod::lemma_div_multiples_vanish(k, dim as int);
    vstd::arithmetic::mul::lemma_mul_is_commutative(k, dim as int);
}

/// Once the limit has left the grid, every voxel's brick is collected.
proof fn lemma_all_collected(
    keys: Seq<Key>,
    origins: Seq<BrickOrigin>,
    occ: Seq<u32>,
    dims: Dims,
    dim: u32,
    kx: int,
)
    requires
        collected(keys, origins, occ, dims, dim, Key { x: kx, y: 0, z: 0 }),
        1 <= dim,
        brick_volume(dim) <= u32::MAX,
        dims.x <= kx * dim,
    ensures
        forall|i: int|
            0 <= i < origins.len() ==> brick_any(occ, dims, #[trigger] origins[i], dim),
        forall|i: int, j: int|
            0 <= i < j < origins.len() ==> brick_before(
                #[trigger] origins[i],
                #[trigger] origins[j],
            ),
        forall|i: int|
            0 <= i < origins.len() ==> (#[trigger] origins[i]) == brick_of(
                origins[i].x as int,
                origins[i].y as int,
                origins[i].z as int,
                dim,
            ),
        forall|x: int, y: int, z: int| #[trigger]
            has_voxel(occ, dims, x, y, z) ==> origins.contains(brick_of(x, y, z, dim)),
{
    assert forall|i: int| 0 <= i < origins.len() implies brick_any(
        occ,
        dims,
        #[trigger] origins[i],
        dim,
    ) by {
        assert(key_before(keys[i], Key { x: kx, y: 0, z: 0 }));
    }
    assert forall|i: int, j: int| 0 <= i < j < origins.len() implies brick_before(
        #[trigger] origins[i],
        #[trigger] origins[j],
    ) by {
        let a = keys[i];
        let c = keys[j];
        assert(key_before(a, c));
        assert(key_in_grid(a, dims, dim) && key_in_grid(c, dims, dim));
        lemma_key(a.x, dim, dims.x);
        lemma_key(a.y, dim, dims.y);
        lemma_key(a.z, dim, dims.z);
        lemma_key(c.x, dim, dims.x);
        lemma_key(c.y, dim, dims.y);
        lemma_key(c.z, dim, dims.z);
        lemma_scale(a.x, c.x, dim);
        lemma_scale(a.y, c.y, dim);
        lemma_scale(a.z, c.z, dim);
    }
    assert forall|i: int| 0 <= i < origins.len() implies (#[trigger] origins[i]) == brick_of(
        origins[i].x as int,
        origins[i].y as int,
        origins[i].z as int,
        dim,
    ) by {
        let a = keys[i];
        assert(key_in_grid(a, dims, dim));
        lemma_key(a.x, dim, dims.x);
        lemma_key(a.y, dim, dims.y);
        lemma_key(a.z, dim, dims.z);
    }
    assert forall|x: int, y: int, z: int| #[trigger]
        has_voxel(occ, dims, x, y, z) implies origins.contains(brick_of(x, y, z, dim)) by {
        let d = dim as int;
        let k = Key { x: x / d, y: y / d, z: z / d };
        brick_holds_its_voxels(occ, dims, x, y, z, dim);
        assert(k.x < kx) by {
            if k.x >= kx {
                assert(k.x * d >= kx * d) by (nonlinear_arith)
                    requires
                        k.x >= kx,
                        d >= 1,
                ;
            }
        }
        assert(brick_of(x, y, z, dim) == key_origin(k, dim));
        assert(key_in_grid(k, dims, dim));
        assert(keys.contains(k));
        let i = choose|i: int| 0 <= i < keys.len() && keys[i] == k;
        assert(origins[i] == brick_of(x, y, z, dim));
    }
}

proof fn lemma_scale(a: int, c: int, dim: u32)
    requires
        1 <= dim,
    ensures
        a < c ==> a * dim < c * dim,
        a == c ==> a * dim == c * dim,
{
    if a < c {
        assert(a * dim < c * dim) by (nonlinear_arith)
            requires
                a < c,
                1 <= dim,
        ;
    }
}

/// Number of a place in its brick.
pub open spec fn local_number(x: int, y: int, z: int, dim: u32) -> int {
    let d = dim as int;
    residency::cell_place(x % d, y % d, z % d, d)
}

/// The brick of a voxel holds it, at the voxel's local number.
pub proof fn brick_holds_its_voxels(occ: Seq<u32>, dims: Dims, x: int, y: int, z: int, dim: u32)
    requires
        has_voxel(occ, dims, x, y, z),
        1 <= dim,
    ensures
        0 <= x / (dim as int) * dim <= x,
        0 <= y / (dim as int) * dim <= y,
        0 <= z / (dim as int) * dim <= z,
        0 <= x / (dim as int) && 0 <= y / (dim as int) && 0 <= z / (dim as int),
        place_in(brick_of(x, y, z, dim), dim, local_number(x, y, z, dim)) == (x, y, z),
        brick_bit(occ, dims, brick_of(x, y, z, dim), dim, local_number(x, y, z, dim)),
        brick_any(occ, dims, brick_of(x, y, z, dim), dim),
{
    let d = dim as int;
    lemma_split(x, d);
    lemma_split(y, d);
    lemma_split(z, d);
    let lx = x % d;
    let ly = y % d;
    let lz = z % d;
    let p = local_number(x, y, z, dim);
    residency::cell_place_injective(lx, ly, lz, lx, ly, lz, d);
    residency::cell_place_surjective(p, d);
    residency::cell_place_injective(p % d, p / d % d, p / d / d, lx, ly, lz, d);
    let o = brick_of(x, y, z, dim);
    assert(o.x == x / d * d && o.y == y / d * d && o.z == z / d * d);
    assert(brick_bit(occ, dims, o, dim, p));
}

proof fn lemma_split(x: int, d: int)
    requires
        0 <= x,
        1 <= d,
    ensures
        0 <= x % d < d,
        0 <= x / d,
        x == x / d * d + x % d,
        0 <= x / d * d <= x,
{
    vstd::arithmetic::div_mod::lemma_fundamental_div_mod(x, d);
    vstd::arithmetic::mul::lemma_mul_is_commutative(d, x / d);
    vstd::arithmetic::div_mod::lemma_div_pos_is_pos(x, d);
    assert(0 <= x / d * d) by (nonlinear_arith)
        requires
            0 <= x / d,
            1 <= d,
    ;
}

/// Whether a sparse grid has a voxel at a place.
pub open spec fn sparse_has(s: Sparse, x: int, y: int, z: int) -> bool {
    let d = s.brick_dim;
    let p = local_number(x, y, z, d);
    exists|i: int|
        0 <= i < s.brick_origins@.len() && #[trigger] s.brick_origins@[i] == brick_of(x, y, z, d)
            && bits::bit32(block(s.occupancy@, brick_words(d), i)[p / 32], p % 32)
}

/// Cutting a grid into bricks keeps its voxels: the sparse grid has exactly the
/// voxels of the dense one.
pub proof fn sparse_keeps_voxels(
    s: Sparse,
    dense: Dense,
    dims: Dims,
    dim: u32,
    x: int,
    y: int,
    z: int,
)
    requires
        is_sparse_of(s, dense, dims, dim),
        in_grid(x, y, z, dims),
    ensures
        sparse_has(s, x, y, z) == has_voxel(dense.occupancy@, dims, x, y, z),
{
    if dim == 0 {
        lemma_no_bricks_of_size_zero(s, dense, dims);
    } else {
        lemma_keeps_voxel(s, dense, dims, dim, x, y, z);
    }
}

proof fn lemma_no_bricks_of_size_zero(s: Sparse, dense: Dense, dims: Dims)
    requires
        is_sparse_of(s, dense, dims, 0),
    ensures
        s.brick_origins@.len() == 0,
        has_no_voxel(dense.occupancy@, dims),
{
    let occ = dense.occupancy@;
    if s.brick_origins@.len() > 0 {
        let o = s.brick_origins@[0];
        assert(brick_any(occ, dims, o, 0));
        let p = choose|p: int| #[trigger] brick_bit(occ, dims, o, 0, p);
        assert(brick_volume(0) == 0);
    }
}

proof fn lemma_keeps_voxel(
    s: Sparse,
    dense: Dense,
    dims: Dims,
    dim: u32,
    x: int,
    y: int,
    z: int,
)
    requires
        is_sparse_of(s, dense, dims, dim),
        1 <= dim,
        in_grid(x, y, z, dims),
    ensures
        sparse_has(s, x, y, z) == has_voxel(dense.occupancy@, dims, x, y, z),
{
    let occ = dense.occupancy@;
    let d = dim as int;
    let p = local_number(x, y, z, dim);
    let o = brick_of(x, y, z, dim);
    lemma_split(x, d);
    lemma_split(y, d);
    lemma_split(z, d);
    let lx = x % d;
    let ly = y % d;
    let lz = z % d;
    residency::cell_place_injective(lx, ly, lz, lx, ly, lz, d);
    residency::cell_place_surjective(p, d);
    residency::cell_place_injective(p % d, p / d % d, p / d / d, lx, ly, lz, d);
    assert(place_in(o, dim, p) == (x, y, z));
    assert(0 <= p < brick_volume(dim));
    assert(0 <= p < 32 * brick_words(dim));
    assert(brick_bit(occ, dims, o, dim, p) == has_voxel(occ, dims, x, y, z));
    if has_voxel(occ, dims, x, y, z) {
        assert(s.brick_origins@.contains(o));
        let i = choose|i: int| 0 <= i < s.brick_origins@.len() && s.brick_origins@[i] == o;
        let words = block(s.occupancy@, brick_words(dim), i);
        assert(is_brick(words, occ, dims, o, dim));
        assert(bits::bit32(words[p / 32], p % 32));
    }
    if sparse_has(s, x, y, z) {
        let i = choose|i: int|
            0 <= i < s.brick_origins@.len() && #[trigger] s.brick_origins@[i] == o && bits::bit32(
                block(s.occupancy@, brick_words(dim), i)[p / 32],
                p % 32,
            );
        let words = block(s.occupancy@, brick_words(dim), i);
        assert(is_brick(words, occ, dims, o, dim));
        assert(bits::bit32(words[p / 32], p % 32));
    }
}

/// Whether a word is not zero.
pub open spec fn any_set(words: Seq<u32>) -> bool {
    exists|i: int| 0 <= i < words.len() && #[trigger] words[i] != 0
}

/// The numbers of the bricks among the first `n` that have a word that is not
/// zero, in order.
pub open spec fn kept_bricks(s: Sparse, n: nat) -> Seq<int>
    decreases n,
{
    if n == 0 {
        Seq::empty()
    } else {
        let before = kept_bricks(s, (n - 1) as nat);
        if any_set(block(s.occupancy@, brick_words(s.brick_dim), n - 1)) {
            before.push(n - 1)
        } else {
            before
        }
    }
}

/// The attributes of a sparse grid, if it has any.
pub open spec fn attribute_of(v: Option<Vec<u32>>) -> Seq<u32> {
    match v {
        Some(v) => v@,
        None => Seq::empty(),
    }
}

/// The blocks of `out` are the kept blocks of `input`.
pub open spec fn keeps_blocks(out: Seq<u32>, input: Seq<u32>, n: int, kept: Seq<int>) -> bool {
    &&& out.len() == kept.len() * n
    &&& forall|i: int|
        0 <= i < kept.len() ==> #[trigger] block(out, n, i) == block(input, n, kept[i])
}

/// The kept attributes, where there were any.
pub open spec fn keeps_attribute(
    out: Option<Vec<u32>>,
    input: Option<Vec<u32>>,
    n: int,
    kept: Seq<int>,
) -> bool {
    match out {
        Some(out) => attribute_of(input).len() > 0 && keeps_blocks(
            out@,
            attribute_of(input),
            n,
            kept,
        ),
        None => attribute_of(input).len() == 0,
    }
}

/// A sparse grid holds the words of all its bricks and the attributes, if any,
/// of the bricks that are not empty.
pub open spec fn sparse_is_complete(s: Sparse) -> bool {
    let n = s.brick_origins@.len() as int;
    let kept = kept_bricks(s, n as nat);
    &&& brick_volume(s.brick_dim) <= u32::MAX
    &&& n * brick_words(s.brick_dim) <= s.occupancy@.len()
    &&& attribute_of(s.owner_id).len() > 0 && kept.len() > 0 ==> (kept.last() + 1) * brick_volume(
        s.brick_dim,
    ) <= attribute_of(s.owner_id).len()
    &&& attribute_of(s.color_rgba).len() > 0 && kept.len() > 0 ==> (kept.last() + 1) * brick_volume(
        s.brick_dim,
    ) <= attribute_of(s.color_rgba).len()
}

/// `out` is a sparse grid without its empty bricks.
pub open spec fn is_compact_of(out: Sparse, s: Sparse) -> bool {
    let kept = kept_bricks(s, s.brick_origins@.len());
    &&& out.brick_dim == s.brick_dim
    &&& out.brick_origins@ == Seq::new(kept.len(), |i: int| s.brick_origins@[kept[i]])
    &&& keeps_blocks(out.occupancy@, s.occupancy@, brick_words(s.brick_dim), kept)
    &&& keeps_attribute(out.owner_id, s.owner_id, brick_volume(s.brick_dim), kept)
    &&& keeps_attribute(out.color_rgba, s.color_rgba, brick_volume(s.brick_dim), kept)
    &&& out.debug_flags@ == s.debug_flags@
    &&& out.debug_workgroups == s.debug_workgroups
    &&& out.debug_tested == s.debug_tested
    &&& out.debug_hits == s.debug_hits
    &&& out.triangles == s.triangles
}

/// What `kept_bricks` holds.
pub proof fn kept_bricks_facts(s: Sparse, n: nat)
    ensures
        kept_bricks(s, n).len() <= n,
        forall|i: int|
            0 <= i < kept_bricks(s, n).len() ==> 0 <= #[trigger] kept_bricks(s, n)[i] < n
                && any_set(block(s.occupancy@, brick_words(s.brick_dim), kept_bricks(s, n)[i])),
        forall|i: int, j: int|
            0 <= i < j < kept_bricks(s, n).len() ==> kept_bricks(s, n)[i] < kept_bricks(s, n)[j],
        forall|b: int|
            0 <= b < n && any_set(#[trigger] block(s.occupancy@, brick_words(s.brick_dim), b))
                ==> kept_bricks(s, n).contains(b),
    decreases n,
{
    if n > 0 {
        let m = (n - 1) as nat;
        kept_bricks_facts(s, m);
        let k = kept_bricks(s, m);
        let out = kept_bricks(s, n);
        assert forall|b: int|
            0 <= b < n && any_set(
                #[trigger] block(s.occupancy@, brick_words(s.brick_dim), b),
            ) implies out.contains(b) by {
            if b < m {
                assert(k.contains(b));
                let i = choose|i: int| 0 <= i < k.len() && k[i] == b;
                assert(out[i] == b);
            } else {
                assert(out[k.len() as int] == b);
            }
        }
    }
}

/// Whether a word of a block is not zero.
fn block_any(words: &Vec<u32>, start: usize, end: usize) -> (any: bool)
    requires
        start <= end <= words@.len(),
    ensures
        any == any_set(words@.subrange(start as int, end as int)),
{
    let ghost sub = words@.subrange(start as int, end as int);
    let mut i: usize = start;
    while i < end
        invariant
            start <= i <= end <= words@.len(),
            sub == words@.subrange(start as int, end as int),
            forall|k: int| start <= k < i ==> words@[k] == 0,
        decreases end - i,
    {
        if words[i] != 0 {
            assert(sub[i - start] != 0);
            return true;
        }
        i = i + 1;
    }
    assert forall|k: int| 0 <= k < sub.len() implies sub[k] == 0 by {
        assert(sub[k] == words@[start + k]);
    }
    false
}

/// Append part of a vector.
fn append_range(v: &mut Vec<u32>, from: &Vec<u32>, start: usize, end: usize)
    requires
        start <= end <= from@.len(),
    ensures
        final(v)@ == old(v)@ + from@.subrange(start as int, end as int),
{
    let ghost before = v@;
    let mut i: usize = start;
    while i < end
        invariant
            start <= i <= end <= from@.len(),
            before == old(v)@,
            v@ =~= before + from@.subrange(start as int, i as int),
        decreases end - i,
    {
        v.push(from[i]);
        i = i + 1;
    }
}

/// The words of an attribute that may be missing.
fn or_empty(v: Option<Vec<u32>>) -> (r: Vec<u32>)
    ensures
        r@ == attribute_of(v),
{
    match v {
        Some(v) => v,
        None => Vec::new(),
    }
}

/// Appending the kept block keeps the relation.
proof fn lemma_keep_block(out: Seq<u32>, input: Seq<u32>, n: int, kept: Seq<int>, b: int)
    requires
        keeps_blocks(out, input, n, kept),
        0 <= n,
        0 <= b,
        (b + 1) * n <= input.len(),
    ensures
        keeps_blocks(out + block(input, n, b), input, n, kept.push(b)),
{
    let more = block(input, n, b);
    assert((b + 1) * n == b * n + n && 0 <= b * n) by (nonlinear_arith)
        requires
            0 <= b,
            0 <= n,
    ;
    lemma_append_block(out, more, n, kept.len() as int);
    let next = kept.push(b);
    assert forall|i: int| 0 <= i < next.len() implies #[trigger] block(out + more, n, i) == block(
        input,
        n,
        next[i],
    ) by {
        if i < kept.len() {
            assert(block(out + more, n, i) == block(out, n, i));
            assert(next[i] == kept[i]);
        }
    }
}

/// Where a block lies in its vector.
proof fn lemma_block_range(b: int, count: int, n: int, len: int)
    requires
        0 <= b < count,
        0 <= n,
        count * n <= len,
    ensures
        0 <= b * n,
        b * n + n == (b + 1) * n,
        (b + 1) * n <= len,
{
    assert(0 <= b * n && b * n + n == (b + 1) * n && (b + 1) * n <= count * n) by (nonlinear_arith)
        requires
            0 <= b < count,
            0 <= n,
    ;
}

/// The last of the kept bricks is the greatest.
proof fn lemma_kept_last(s: Sparse, n: nat, m: nat)
    requires
        n <= m,
    ensures
        kept_bricks(s, n).len() <= kept_bricks(s, m).len(),
        forall|i: int| 0 <= i < kept_bricks(s, n).len() ==> #[trigger] kept_bricks(s, n)[i]
            == kept_bricks(s, m)[i],
    decreases m,
{
    if n < m {
        lemma_kept_last(s, n, (m - 1) as nat);
    }
}

/// Drop the bricks of a sparse grid that are empty.
pub fn compact_sparse(input: Sparse) -> (out: Sparse)
    requires
        sparse_is_complete(input),
    ensures
        is_compact_of(out, input),
{
    let ghost whole = input;
    let ghost dim = input.brick_dim;
    let ghost total = kept_bricks(whole, whole.brick_origins@.len());
    let Sparse {
        brick_dim,
        brick_origins: origins_in,
        occupancy: occupancy_in,
        owner_id,
        color_rgba,
        debug_flags,
        debug_workgroups,
        debug_tested,
        debug_hits,
        triangles,
    } = input;
    proof {
        if dim > 0 {
            lemma_brick_size(dim);
        } else {
            assert(dim * dim == 0 && dim * dim * dim == 0) by (nonlinear_arith)
                requires
                    dim == 0,
            ;
        }
        lemma_square(dim);
    }
    let brick_count: usize = origins_in.len();
    let voxels: usize = (brick_dim * brick_dim * brick_dim) as usize;
    let words: usize = ((voxels as u64 + 31) / 32) as usize;
    let owner = or_empty(owner_id);
    let color = or_empty(color_rgba);
    let has_owner: bool = owner.len() > 0;
    let has_color: bool = color.len() > 0;
    let mut brick_origins: Vec<BrickOrigin> = Vec::new();
    let mut occupancy: Vec<u32> = Vec::new();
    let mut owner_out: Vec<u32> = Vec::new();
    let mut color_out: Vec<u32> = Vec::new();
    let ghost bw = brick_words(dim);
    let ghost bv = brick_volume(dim);
    assert(0 * bw == 0 && 0 * bv == 0) by (nonlinear_arith);
    let mut b: usize = 0;
    while b < brick_count
        invariant
            b <= brick_count,
            brick_count == origins_in@.len(),
            origins_in@ == whole.brick_origins@,
            occupancy_in@ == whole.occupancy@,
            owner@ == attribute_of(whole.owner_id),
            color@ == attribute_of(whole.color_rgba),
            has_owner == (owner@.len() > 0),
            has_color == (color@.len() > 0),
            dim == whole.brick_dim,
            bw == brick_words(dim),
            bv == brick_volume(dim),
            0 <= bv <= u32::MAX,
            0 <= bw,
            words == bw,
            voxels == bv,
            sparse_is_complete(whole),
            total == kept_bricks(whole, whole.brick_origins@.len()),
            ({
                let kept = kept_bricks(whole, b as nat);
                &&& brick_origins@ == Seq::new(
                    kept.len(),
                    |i: int| whole.brick_origins@[kept[i]],
                )
                &&& keeps_blocks(occupancy@, whole.occupancy@, bw, kept)
                &&& has_owner ==> keeps_blocks(owner_out@, owner@, bv, kept)
                &&& has_color ==> keeps_blocks(color_out@, color@, bv, kept)
            }),
        decreases brick_count - b,
    {
        let ghost kept = kept_bricks(whole, b as nat);
        proof {
            lemma_block_range(b as int, brick_count as int, bw, occupancy_in@.len() as int);
        }
        assert(occupancy_in@.len() == occupancy_in.len());
        let start: usize = b * words;
        let end: usize = start + words;
        assert(occupancy_in@.subrange(start as int, end as int) == block(
            whole.occupancy@,
            bw,
            b as int,
        ));
        if block_any(&occupancy_in, start, end) {
            proof {
                assert(kept_bricks(whole, (b + 1) as nat) == kept.push(b as int));
                lemma_keep_block(occupancy@, whole.occupancy@, bw, kept, b as int);
                lemma_kept_last(whole, (b + 1) as nat, brick_count as nat);
                kept_bricks_facts(whole, brick_count as nat);
                assert(total[kept.len() as int] == kept_bricks(whole, (b + 1) as nat)[
                kept.len() as int]);
                assert(total.last() >= b);
            }
            brick_origins.push(origins_in[b]);
            append_range(&mut occupancy, &occupancy_in, start, end);
            if has_owner {
                proof {
                    lemma_block_range(
                        b as int,
                        total.last() + 1,
                        bv,
                        owner@.len() as int,
                    );
                    lemma_keep_block(owner_out@, owner@, bv, kept, b as int);
                }
                assert(owner@.len() == owner.len());
                let base: usize = b * voxels;
                append_range(&mut owner_out, &owner, base, base + voxels);
            }
            if has_color {
                proof {
                    lemma_block_range(
                        b as int,
                        total.last() + 1,
                        bv,
                        color@.len() as int,
                    );
                    lemma_keep_block(color_out@, color@, bv, kept, b as int);
                }
                assert(color@.len() == color.len());
                let base: usize = b * voxels;
                append_range(&mut color_out, &color, base, base + voxels);
            }
            assert(brick_origins@ =~= Seq::new(
                kept.push(b as int).len(),
                |i: int| whole.brick_origins@[kept.push(b as int)[i]],
            ));
        } else {
            assert(kept_bricks(whole, (b + 1) as nat) == kept);
        }
        b = b + 1;
    }
    let owner_id: Option<Vec<u32>> = if has_owner {
        Some(owner_out)
    } else {
        None
    };
    let color_rgba: Option<Vec<u32>> = if has_color {
        Some(color_out)
    } else {
        None
    };
    Sparse {
        brick_dim,
        brick_origins,
        occupancy,
        owner_id,
        color_rgba,
        debug_flags,
        debug_workgroups,
        debug_tested,
        debug_hits,
        triangles,
    }
}

proof fn lemma_square(dim: u32)
    requires
        brick_volume(dim) <= u32::MAX,
    ensures
        0 <= dim * dim <= u32::MAX,
        0 <= brick_volume(dim),
{
    if dim == 0 {
        assert(dim * dim == 0 && dim * dim * dim == 0) by (nonlinear_arith)
            requires
                dim == 0,
        ;
    } else {
        lemma_brick_size(dim);
    }
}

/// A compacted grid has no empty brick.
pub proof fn compact_has_no_empty_brick(out: Sparse, s: Sparse, i: int)
    requires
        is_compact_of(out, s),
        0 <= i < out.brick_origins@.len(),
    ensures
        any_set(block(out.occupancy@, brick_words(out.brick_dim), i)),
{
    kept_bricks_facts(s, s.brick_origins@.len());
    let kept = kept_bricks(s, s.brick_origins@.len());
    assert(block(out.occupancy@, brick_words(s.brick_dim), i) == block(
        s.occupancy@,
        brick_words(s.brick_dim),
        kept[i],
    ));
}

/// Dropping empty bricks keeps the voxels.
pub proof fn compact_keeps_voxels(out: Sparse, s: Sparse, x: int, y: int, z: int)
    requires
        is_compact_of(out, s),
        sparse_is_complete(s),
        1 <= s.brick_dim,
        0 <= x,
        0 <= y,
        0 <= z,
    ensures
        sparse_has(out, x, y, z) == sparse_has(s, x, y, z),
{
    let dim = s.brick_dim;
    let d = dim as int;
    let n = s.brick_origins@.len();
    let kept = kept_bricks(s, n);
    let bw = brick_words(dim);
    let p = local_number(x, y, z, dim);
    let o = brick_of(x, y, z, dim);
    kept_bricks_facts(s, n);
    lemma_split(x, d);
    lemma_split(y, d);
    lemma_split(z, d);
    residency::cell_place_injective(x % d, y % d, z % d, x % d, y % d, z % d, d);
    assert(0 <= p / 32 < bw);
    if sparse_has(s, x, y, z) {
        let b = choose|i: int|
            0 <= i < s.brick_origins@.len() && #[trigger] s.brick_origins@[i] == o && bits::bit32(
                block(s.occupancy@, bw, i)[p / 32],
                p % 32,
            );
        let words = block(s.occupancy@, bw, b);
        lemma_block_range(b, n as int, bw, s.occupancy@.len() as int);
        assert(words.len() == bw);
        assert(words[p / 32] != 0) by {
            bits::lemma_zero32();
        }
        assert(any_set(words));
        assert(kept.contains(b));
        let i = choose|i: int| 0 <= i < kept.len() && kept[i] == b;
        assert(block(out.occupancy@, bw, i) == words);
        assert(out.brick_origins@[i] == o);
    }
    if sparse_has(out, x, y, z) {
        let i = choose|i: int|
            0 <= i < out.brick_origins@.len() && #[trigger] out.brick_origins@[i] == o
                && bits::bit32(block(out.occupancy@, bw, i)[p / 32], p % 32);
        assert(block(out.occupancy@, bw, i) == block(s.occupancy@, bw, kept[i]));
        assert(s.brick_origins@[kept[i]] == o);
    }
}

/// The origins of all bricks, three numbers each.
pub open spec fn flat_origins(origins: Seq<BrickOrigin>) -> Seq<u32> {
    Seq::new(
        3 * origins.len(),
        |i: int|
            if i % 3 == 0 {
                origins[i / 3].x
            } else if i % 3 == 1 {
                origins[i / 3].y
            } else {
                origins[i / 3].z
            },
    )
}

/// List the origins of all bricks, three numbers each.
pub fn flatten_origins(origins: &[BrickOrigin]) -> (flat: Vec<u32>)
    ensures
        flat@ == flat_origins(origins@),
{
    let mut flat: Vec<u32> = Vec::new();
    let mut i: usize = 0;
    while i < origins.len()
        invariant
            i <= origins@.len(),
            flat@.len() == 3 * i,
            forall|k: int| 0 <= k < 3 * i ==> flat@[k] == flat_origins(origins@)[k],
        decreases origins@.len() - i,
    {
        flat.push(origins[i].x);
        flat.push(origins[i].y);
        flat.push(origins[i].z);
        i = i + 1;
    }
    assert(flat@ =~= flat_origins(origins@));
    flat
}

/// An attribute of a voxel stands in its brick at the voxel's own number; where the
/// brick has no voxel, owners have the largest number and colors are zero.
pub proof fn attributes_follow_their_voxels(
    s: Sparse,
    dense: Dense,
    dims: Dims,
    dim: u32,
    i: int,
    x: int,
    y: int,
    z: int,
)
    requires
        is_sparse_of(s, dense, dims, dim),
        1 <= dim,
        in_grid(x, y, z, dims),
        0 <= i < s.brick_origins@.len(),
        s.brick_origins@[i] == brick_of(x, y, z, dim),
    ensures
        ({
            let at = i * brick_volume(dim) + local_number(x, y, z, dim);
            let set = has_voxel(dense.occupancy@, dims, x, y, z);
            &&& s.owner_id is Some <==> dense.owner_id is Some
            &&& s.color_rgba is Some <==> dense.color_rgba is Some
            &&& s.owner_id is Some ==> (s.owner_id->Some_0)@[at] == (if set {
                (dense.owner_id->Some_0)@[x + dims.x * (y + dims.y * z)]
            } else {
                0xFFFF_FFFF
            })
            &&& s.color_rgba is Some ==> (s.color_rgba->Some_0)@[at] == (if set {
                (dense.color_rgba->Some_0)@[x + dims.x * (y + dims.y * z)]
            } else {
                0
            })
        }),
{
    let occ = dense.occupancy@;
    let d = dim as int;
    let p = local_number(x, y, z, dim);
    let o = brick_of(x, y, z, dim);
    lemma_split(x, d);
    lemma_split(y, d);
    lemma_split(z, d);
    let lx = x % d;
    let ly = y % d;
    let lz = z % d;
    residency::cell_place_injective(lx, ly, lz, lx, ly, lz, d);
    residency::cell_place_surjective(p, d);
    residency::cell_place_injective(p % d, p / d % d, p / d / d, lx, ly, lz, d);
    assert(place_in(o, dim, p) == (x, y, z));
    let v = brick_volume(dim);
    assert(0 <= p < v);
    let n = s.brick_origins@.len() as int;
    if s.owner_id is Some {
        let out = (s.owner_id->Some_0)@;
        lemma_block_range(i, n, v, out.len() as int);
        assert(is_brick_attribute(
            block(out, v, i),
            (dense.owner_id->Some_0)@,
            u32::MAX,
            occ,
            dims,
            s.brick_origins@[i],
            dim,
        ));
        assert(block(out, v, i)[p] == out[i * v + p]);
    }
    if s.color_rgba is Some {
        let out = (s.color_rgba->Some_0)@;
        lemma_block_range(i, n, v, out.len() as int);
        assert(is_brick_attribute(
            block(out, v, i),
            (dense.color_rgba->Some_0)@,
            0,
            occ,
            dims,
            s.brick_origins@[i],
            dim,
        ));
        assert(block(out, v, i)[p] == out[i * v + p]);
    }
}

/// A brick that is not empty is kept with its origin, its words and its attributes.
pub proof fn kept_bricks_stay_whole(out: Sparse, s: Sparse, b: int) -> (i: int)
    requires
        is_compact_of(out, s),
        0 <= b < s.brick_origins@.len(),
        any_set(block(s.occupancy@, brick_words(s.brick_dim), b)),
    ensures
        0 <= i <= b,
        i < out.brick_origins@.len(),
        out.brick_origins@[i] == s.brick_origins@[b],
        block(out.occupancy@, brick_words(s.brick_dim), i) == block(
            s.occupancy@,
            brick_words(s.brick_dim),
            b,
        ),
        out.owner_id is Some ==> block(
            (out.owner_id->Some_0)@,
            brick_volume(s.brick_dim),
            i,
        ) == block((s.owner_id->Some_0)@, brick_volume(s.brick_dim), b),
        out.color_rgba is Some ==> block(
            (out.color_rgba->Some_0)@,
            brick_volume(s.brick_dim),
            i,
        ) == block((s.color_rgba->Some_0)@, brick_volume(s.brick_dim), b),
        out.owner_id is Some <==> s.owner_id is Some && (s.owner_id->Some_0)@.len() > 0,
        out.color_rgba is Some <==> s.color_rgba is Some && (s.color_rgba->Some_0)@.len() > 0,
{
    let n = s.brick_origins@.len();
    let kept = kept_bricks(s, n);
    kept_bricks_facts(s, n);
    assert(kept.contains(b));
    let i = choose|i: int| 0 <= i < kept.len() && kept[i] == b;
    lemma_increasing(kept, i);
    assert(block(out.occupancy@, brick_words(s.brick_dim), i) == block(
        s.occupancy@,
        brick_words(s.brick_dim),
        b,
    ));
    if out.owner_id is Some {
        assert(block((out.owner_id->Some_0)@, brick_volume(s.brick_dim), i) == block(
            attribute_of(s.owner_id),
            brick_volume(s.brick_dim),
            kept[i],
        ));
    }
    if out.color_rgba is Some {
        assert(block((out.color_rgba->Some_0)@, brick_volume(s.brick_dim), i) == block(
            attribute_of(s.color_rgba),
            brick_volume(s.brick_dim),
            kept[i],
        ));
    }
    i
}

proof fn lemma_increasing(kept: Seq<int>, i: int)
    requires
        0 <= i < kept.len(),
        forall|i: int, j: int| 0 <= i < j < kept.len() ==> kept[i] < kept[j],
        forall|i: int| 0 <= i < kept.len() ==> 0 <= #[trigger] kept[i],
    ensures
        i <= kept[i],
    decreases i,
{
    if i > 0 {
        lemma_increasing(kept, i - 1);
        assert(kept[i - 1] < kept[i]);
    } else {
        assert(0 <= kept[i]);
    }
}

/// Bricks that are kept stay in order.
pub proof fn kept_bricks_stay_in_order(out: Sparse, s: Sparse, i: int, j: int) -> (r: (int, int))
    requires
        is_compact_of(out, s),
        0 <= i < j < out.brick_origins@.len(),
    ensures
        0 <= r.0 < r.1 < s.brick_origins@.len(),
        out.brick_origins@[i] == s.brick_origins@[r.0],
        out.brick_origins@[j] == s.brick_origins@[r.1],
{
    let kept = kept_bricks(s, s.brick_origins@.len());
    kept_bricks_facts(s, s.brick_origins@.len());
    assert(0 <= kept[i] && kept[j] < s.brick_origins@.len());
    (kept[i], kept[j])
}

/// The flat list of origins has the parts of origin i at 3 i.
pub proof fn flat_origins_lie_in_order(origins: Seq<BrickOrigin>, i: int)
    requires
        0 <= i < origins.len(),
    ensures
        flat_origins(origins).len() == 3 * origins.len(),
        flat_origins(origins)[3 * i] == origins[i].x,
        flat_origins(origins)[3 * i + 1] == origins[i].y,
        flat_origins(origins)[3 * i + 2] == origins[i].z,
{
}

/// Bricks come by x, then y, then z, and none comes twice.
pub proof fn bricks_come_in_order(s: Sparse, dense: Dense, dims: Dims, dim: u32, i: int, j: int)
    requires
        is_sparse_of(s, dense, dims, dim),
        0 <= i < j < s.brick_origins@.len(),
    ensures
        ({
            let a = s.brick_origins@[i];
            let b = s.brick_origins@[j];
            &&& a.x <= b.x
            &&& a.x == b.x ==> a.y <= b.y
            &&& a.x == b.x && a.y == b.y ==> a.z < b.z
        }),
{
    assert(brick_before(s.brick_origins@[i], s.brick_origins@[j]));
}

} // verus!
