//! Chunks from other voxel formats.

use vstd::prelude::*;

use crate::binary_chunk::BinaryChunk;
use crate::occupancy;
use crate::pool::{CS, MATERIAL_EMPTY};

verus! {

/// The smaller of a side and the chunk's usable size.
pub open spec fn clamped(side: usize) -> int {
    if side < CS {
        side as int
    } else {
        CS as int
    }
}

/// Number of a voxel in a dense array: x fastest, or z fastest.
pub open spec fn dense_index(dims: Seq<usize>, z_fastest: bool, x: int, y: int, z: int) -> int {
    if z_fastest {
        z + y * dims[2] + x * dims[2] * dims[1]
    } else {
        x + y * dims[0] + z * dims[0] * dims[1]
    }
}

/// The voxel numbers that a conversion looks at fit in `usize`.
pub open spec fn dense_fits(dims: Seq<usize>, z_fastest: bool) -> bool {
    dense_index(
        dims,
        z_fastest,
        clamped(dims[0]) - 1,
        clamped(dims[1]) - 1,
        clamped(dims[2]) - 1,
    ) <= usize::MAX || dims[0] == 0 || dims[1] == 0 || dims[2] == 0
}

/// The material that a dense array has at a usable voxel; empty outside of it.
pub open spec fn dense_at(
    voxels: Seq<u16>,
    dims: Seq<usize>,
    z_fastest: bool,
    x: int,
    y: int,
    z: int,
) -> u16 {
    let i = dense_index(dims, z_fastest, x, y, z);
    if 0 <= x < clamped(dims[0]) && 0 <= y < clamped(dims[1]) && 0 <= z < clamped(dims[2]) && i
        < voxels.len() {
        voxels[i]
    } else {
        MATERIAL_EMPTY
    }
}

/// The chunk shows a dense array: its voxels, cut to the usable size, lie one
/// voxel inside the padding, and the padding is empty.
pub open spec fn shows_dense(
    c: BinaryChunk,
    voxels: Seq<u16>,
    dims: Seq<usize>,
    z_fastest: bool,
) -> bool {
    forall|x: int, y: int, z: int|
        occupancy::in_chunk(x, y, z) ==> #[trigger] c.at(x, y, z) == dense_at(
            voxels,
            dims,
            z_fastest,
            x - 1,
            y - 1,
            z - 1,
        )
}

proof fn lemma_products(a: int, b: int, c: int, d: int, e: int, amax: int, bmax: int, cmax: int)
    requires
        0 <= a <= amax,
        0 <= b <= bmax,
        0 <= c <= cmax,
        1 <= d,
        1 <= e,
    ensures
        0 <= b * d <= bmax * d,
        0 <= c * d <= c * d * e,
        0 <= c * d * e <= cmax * d * e,
        0 <= a + b * d + c * d * e <= amax + bmax * d + cmax * d * e,
{
    assert(0 <= b * d <= bmax * d) by (nonlinear_arith)
        requires
            0 <= b <= bmax,
            1 <= d,
    ;
    assert(0 <= c * d <= cmax * d) by (nonlinear_arith)
        requires
            0 <= c <= cmax,
            1 <= d,
    ;
    let p = c * d;
    let q = cmax * d;
    assert(0 <= p <= p * e && p * e <= q * e) by (nonlinear_arith)
        requires
            0 <= p <= q,
            1 <= e,
    ;
}

/// Read a dense array at a usable voxel.
fn read_dense(
    voxels: &[u16],
    dims: [usize; 3],
    z_fastest: bool,
    x: usize,
    y: usize,
    z: usize,
) -> (m: u16)
    requires
        dense_fits(dims@, z_fastest),
        x < CS && y < CS && z < CS,
    ensures
        m == dense_at(voxels@, dims@, z_fastest, x as int, y as int, z as int),
{
    let dx: usize = dims[0];
    let dy: usize = dims[1];
    let dz: usize = dims[2];
    if x >= dx || y >= dy || z >= dz {
        return MATERIAL_EMPTY;
    }
    let i: usize = if z_fastest {
        proof {
            lemma_products(
                z as int,
                y as int,
                x as int,
                dz as int,
                dy as int,
                clamped(dz) - 1,
                clamped(dy) - 1,
                clamped(dx) - 1,
            );
        }
        z + y * dz + x * dz * dy
    } else {
        proof {
            lemma_products(
                x as int,
                y as int,
                z as int,
                dx as int,
                dy as int,
                clamped(dx) - 1,
                clamped(dy) - 1,
                clamped(dz) - 1,
            );
        }
        x + y * dx + z * dx * dy
    };
    if i < voxels.len() {
        voxels[i]
    } else {
        MATERIAL_EMPTY
    }
}

/// Number of a usable voxel in filling order.
spec fn fill_number(x: int, y: int, z: int) -> int {
    x * 3844 + y * 62 + z
}

/// Fill an empty chunk from a dense array.
fn fill_chunk(chunk: &mut BinaryChunk, voxels: &[u16], dims: [usize; 3], z_fastest: bool)
    requires
        old(chunk).wf(),
        forall|x: int, y: int, z: int|
            occupancy::in_chunk(x, y, z) ==> #[trigger] old(chunk).at(x, y, z) == MATERIAL_EMPTY,
        dense_fits(dims@, z_fastest),
    ensures
        final(chunk).wf(),
        shows_dense(*final(chunk), voxels@, dims@, z_fastest),
{
    let mut n: usize = 0;
    while n < 238_328
        invariant
            n <= 238_328,
            chunk.wf(),
            dense_fits(dims@, z_fastest),
            forall|x: int, y: int, z: int|
                occupancy::in_chunk(x, y, z) ==> #[trigger] chunk.at(x, y, z) == (if 1 <= x <= 62
                    && 1 <= y <= 62 && 1 <= z <= 62 && fill_number(x - 1, y - 1, z - 1) < n {
                    dense_at(voxels@, dims@, z_fastest, x - 1, y - 1, z - 1)
                } else {
                    MATERIAL_EMPTY
                }),
        decreases 238_328 - n,
    {
        let x: usize = n / 3844;
        let y: usize = n / 62 % 62;
        let z: usize = n % 62;
        let m: u16 = read_dense(voxels, dims, z_fastest, x, y, z);
        let ghost before = *chunk;
        assert(fill_number(x as int, y as int, z as int) == n);
        if m != MATERIAL_EMPTY {
            chunk.set(x + 1, y + 1, z + 1, m);
        }
        proof {
            assert forall|a: int, b: int, c: int|
                occupancy::in_chunk(a, b, c) implies #[trigger] chunk.at(a, b, c) == (if 1 <= a
                <= 62 && 1 <= b <= 62 && 1 <= c <= 62 && fill_number(a - 1, b - 1, c - 1) < n + 1 {
                dense_at(voxels@, dims@, z_fastest, a - 1, b - 1, c - 1)
            } else {
                MATERIAL_EMPTY
            }) by {
                if 1 <= a <= 62 && 1 <= b <= 62 && 1 <= c <= 62 && fill_number(
                    a - 1,
                    b - 1,
                    c - 1,
                ) == n {
                    assert(a - 1 == x && b - 1 == y && c - 1 == z);
                } else {
                    assert(chunk.at(a, b, c) == before.at(a, b, c));
                }
            }
        }
        n = n + 1;
    }
    proof {
        assert forall|x: int, y: int, z: int|
            occupancy::in_chunk(x, y, z) implies #[trigger] chunk.at(x, y, z) == dense_at(
            voxels@,
            dims@,
            z_fastest,
            x - 1,
            y - 1,
            z - 1,
        ) by {
            if 1 <= x <= 62 && 1 <= y <= 62 && 1 <= z <= 62 {
                assert(fill_number(x - 1, y - 1, z - 1) < 238_328);
            }
        }
    }
}

/// Convert a dense voxel array, x fastest: `voxels[x + y * dx + z * dx * dy]`.
pub fn dense_to_binary_chunk(voxels: &[u16], dims: [usize; 3]) -> (c: BinaryChunk)
    requires
        dense_fits(dims@, false),
    ensures
        c.wf(),
        shows_dense(c, voxels@, dims@, false),
{
    let mut c = BinaryChunk::new();
    fill_chunk(&mut c, voxels, dims, false);
    c
}

/// Convert a dense voxel array, x fastest, into a chunk on the heap.
pub fn dense_to_binary_chunk_boxed(voxels: &[u16], dims: [usize; 3]) -> (c: Box<BinaryChunk>)
    requires
        dense_fits(dims@, false),
    ensures
        c.wf(),
        shows_dense(*c, voxels@, dims@, false),
{
    Box::new(dense_to_binary_chunk(voxels, dims))
}

/// Convert a dense voxel array, z fastest: `voxels[z + y * dz + x * dz * dy]`.
pub fn dense_to_binary_chunk_zyx(voxels: &[u16], dims: [usize; 3]) -> (c: BinaryChunk)
    requires
        dense_fits(dims@, true),
    ensures
        c.wf(),
        shows_dense(c, voxels@, dims@, true),
{
    let mut c = BinaryChunk::new();
    fill_chunk(&mut c, voxels, dims, true);
    c
}

/// Convert a dense voxel array, z fastest, into a chunk on the heap.
pub fn dense_to_binary_chunk_zyx_boxed(voxels: &[u16], dims: [usize; 3]) -> (c: Box<BinaryChunk>)
    requires
        dense_fits(dims@, true),
    ensures
        c.wf(),
        shows_dense(*c, voxels@, dims@, true),
{
    Box::new(dense_to_binary_chunk_zyx(voxels, dims))
}

/// A cell of the voxel grid, relative to a chunk's first usable voxel.
#[derive(Debug, Clone, Copy, PartialEq, Eq, Structural)]
pub struct Cell {
    pub x: i32,
    pub y: i32,
    pub z: i32,
}

/// Whether a cell lies in the chunk's usable interior.
pub open spec fn in_interior(c: Cell) -> bool {
    0 <= c.x < CS && 0 <= c.y < CS && 0 <= c.z < CS
}

/// Whether one of the first `n` cells is a voxel of the padded chunk.
pub open spec fn is_listed(cells: Seq<Cell>, n: int, x: int, y: int, z: int) -> bool {
    exists|i: int|
        0 <= i < n && in_interior(#[trigger] cells[i]) && cells[i].x + 1 == x && cells[i].y + 1 == y
            && cells[i].z + 1 == z
}

/// The chunk holds one material at the cells of a list and nothing else.
pub open spec fn shows_cells(c: BinaryChunk, cells: Seq<Cell>, material: u16) -> bool {
    forall|x: int, y: int, z: int|
        occupancy::in_chunk(x, y, z) ==> #[trigger] c.at(x, y, z) == (if is_listed(
            cells,
            cells.len() as int,
            x,
            y,
            z,
        ) {
            material
        } else {
            MATERIAL_EMPTY
        })
}

/// Fill a chunk with one material at the given cells; cells outside the chunk
/// are ignored.
pub fn cells_to_binary_chunk(cells: &[Cell], material: u16) -> (c: BinaryChunk)
    ensures
        c.wf(),
        forall|x: int, y: int, z: int|
            occupancy::in_chunk(x, y, z) ==> #[trigger] c.at(x, y, z) == (if is_listed(
                cells@,
                cells@.len() as int,
                x,
                y,
                z,
            ) {
                material
            } else {
                MATERIAL_EMPTY
            }),
        shows_cells(c, cells@, material),
{
    let mut c = BinaryChunk::new();
    let mut i: usize = 0;
    while i < cells.len()
        invariant
            i <= cells@.len(),
            c.wf(),
            forall|x: int, y: int, z: int|
                occupancy::in_chunk(x, y, z) ==> #[trigger] c.at(x, y, z) == (if is_listed(
                    cells@,
                    i as int,
                    x,
                    y,
                    z,
                ) {
                    material
                } else {
                    MATERIAL_EMPTY
                }),
        decreases cells@.len() - i,
    {
        let p = cells[i];
        let ghost before = c;
        if p.x >= 0 && p.x < 62 && p.y >= 0 && p.y < 62 && p.z >= 0 && p.z < 62 {
            c.set((p.x + 1) as usize, (p.y + 1) as usize, (p.z + 1) as usize, material);
        }
        proof {
            assert forall|x: int, y: int, z: int|
                occupancy::in_chunk(x, y, z) implies #[trigger] c.at(x, y, z) == (if is_listed(
                cells@,
                i + 1,
                x,
                y,
                z,
            ) {
                material
            } else {
                MATERIAL_EMPTY
            }) by {
                let here = in_interior(p) && p.x + 1 == x && p.y + 1 == y && p.z + 1 == z;
                if here {
                    assert(in_interior(cells@[i as int]));
                } else {
                    assert(c.at(x, y, z) == before.at(x, y, z));
                    if is_listed(cells@, i as int, x, y, z) {
                        let k = choose|k: int|
                            0 <= k < i && in_interior(#[trigger] cells@[k]) && cells@[k].x + 1 == x
                                && cells@[k].y + 1 == y && cells@[k].z + 1 == z;
                        assert(in_interior(cells@[k]));
                    }
                }
            }
        }
        i = i + 1;
    }
    c
}

/// Each cell of the interior gets its voxel, one step inside the padding.
pub proof fn cells_are_shown(c: BinaryChunk, cells: Seq<Cell>, material: u16, i: int)
    requires
        shows_cells(c, cells, material),
        0 <= i < cells.len(),
        0 <= cells[i].x < 62 && 0 <= cells[i].y < 62 && 0 <= cells[i].z < 62,
    ensures
        c.at(cells[i].x + 1, cells[i].y + 1, cells[i].z + 1) == material,
{
    assert(in_interior(cells[i]));
    assert(is_listed(
        cells,
        cells.len() as int,
        cells[i].x + 1,
        cells[i].y + 1,
        cells[i].z + 1,
    ));
}

/// A voxel that is not empty stands for a cell of the list; so the padding is empty.
pub proof fn only_cells_are_shown(
    c: BinaryChunk,
    cells: Seq<Cell>,
    material: u16,
    x: int,
    y: int,
    z: int,
) -> (i: int)
    requires
        shows_cells(c, cells, material),
        occupancy::in_chunk(x, y, z),
        c.at(x, y, z) != MATERIAL_EMPTY,
    ensures
        0 <= i < cells.len(),
        cells[i].x == x - 1 && cells[i].y == y - 1 && cells[i].z == z - 1,
        1 <= x <= 62 && 1 <= y <= 62 && 1 <= z <= 62,
{
    assert(is_listed(cells, cells.len() as int, x, y, z));
    choose|i: int|
        0 <= i < cells.len() && in_interior(#[trigger] cells[i]) && cells[i].x + 1 == x && cells[i].y
            + 1 == y && cells[i].z + 1 == z
}

/// A voxel of a dense array shows one step inside the padding. The array runs along x,
/// then y, then z, or the other way round.
pub proof fn dense_voxels_are_shown(
    c: BinaryChunk,
    voxels: Seq<u16>,
    dims: Seq<usize>,
    z_fastest: bool,
    x: int,
    y: int,
    z: int,
)
    requires
        dims.len() == 3,
        shows_dense(c, voxels, dims, z_fastest),
        0 <= x < dims[0] && 0 <= y < dims[1] && 0 <= z < dims[2],
        x < 62 && y < 62 && z < 62,
    ensures
        ({
            let i = if z_fastest {
                z + dims[2] * (y + dims[1] * x)
            } else {
                x + dims[0] * (y + dims[1] * z)
            };
            &&& 0 <= i
            &&& i < voxels.len() ==> c.at(x + 1, y + 1, z + 1) == voxels[i]
            &&& i >= voxels.len() ==> c.at(x + 1, y + 1, z + 1) == MATERIAL_EMPTY
        }),
{
    let a = dims[0] as int;
    let b = dims[1] as int;
    let d = dims[2] as int;
    assert(c.at(x + 1, y + 1, z + 1) == dense_at(voxels, dims, z_fastest, x, y, z));
    assert(a * (y + b * z) == y * a + z * a * b) by (nonlinear_arith);
    assert(d * (y + b * x) == y * d + x * d * b) by (nonlinear_arith);
    assert(0 <= a * (y + b * z) && 0 <= d * (y + b * x)) by (nonlinear_arith)
        requires
            0 <= a && 0 <= b && 0 <= d && 0 <= x && 0 <= y && 0 <= z,
    ;
}

/// What lies outside a dense array is empty, the padding too.
pub proof fn outside_the_array_is_empty(
    c: BinaryChunk,
    voxels: Seq<u16>,
    dims: Seq<usize>,
    z_fastest: bool,
    x: int,
    y: int,
    z: int,
)
    requires
        dims.len() == 3,
        shows_dense(c, voxels, dims, z_fastest),
        occupancy::in_chunk(x, y, z),
        x == 0 || y == 0 || z == 0 || x == 63 || y == 63 || z == 63 || x > dims[0] || y > dims[1] || z
            > dims[2],
    ensures
        c.at(x, y, z) == MATERIAL_EMPTY,
{
}

/// Two arrays that hold the same voxels in the two orders give the same chunk.
pub proof fn both_orders_agree(
    c: BinaryChunk,
    d: BinaryChunk,
    v: Seq<u16>,
    w: Seq<u16>,
    dims: Seq<usize>,
    x: int,
    y: int,
    z: int,
)
    requires
        dims.len() == 3,
        shows_dense(c, v, dims, false),
        shows_dense(d, w, dims, true),
        occupancy::in_chunk(x, y, z),
        forall|i: int, j: int, k: int|
            0 <= i < dims[0] && 0 <= j < dims[1] && 0 <= k < dims[2] ==> 0 <= #[trigger] dense_index(
                dims,
                false,
                i,
                j,
                k,
            ) < v.len() && 0 <= dense_index(dims, true, i, j, k) < w.len() && v[dense_index(
                dims,
                false,
                i,
                j,
                k,
            )] == w[dense_index(dims, true, i, j, k)],
    ensures
        c.at(x, y, z) == d.at(x, y, z),
{
    assert(c.at(x, y, z) == dense_at(v, dims, false, x - 1, y - 1, z - 1));
    assert(d.at(x, y, z) == dense_at(w, dims, true, x - 1, y - 1, z - 1));
    let i = dense_index(dims, false, x - 1, y - 1, z - 1);
}

} // verus!
