//! Mesh rebuild: face culling, greedy merging and vertex expansion of one
//! chunk.

use vstd::prelude::*;

use crate::bits;
use crate::ieee;
use crate::mesh_laws;
use crate::occupancy;
use crate::plane;
use crate::plane::{Rect, PLANE_CELLS};
use crate::pool::{
    DrawMeta, COLUMNS_PER_CHUNK, CS, CS_P, FACE_NEG_X, FACE_NEG_Y, FACE_NEG_Z, FACE_POS_X,
    FACE_POS_Y, FACE_POS_Z, MATERIAL_DEFAULT, VERTEX_BYTES,
};

verus! {

// Face culling.

/// Mask of the usable bits of a shifted column: the lowest CS bits.
pub const USABLE_MASK: u64 = 0x3FFF_FFFF_FFFF_FFFF;

/// Unit step from a voxel to its neighbour behind a face.
pub open spec fn face_step(face: int) -> (int, int, int) {
    if face == FACE_POS_Y {
        (0, 1, 0)
    } else if face == FACE_NEG_Y {
        (0, -1, 0)
    } else if face == FACE_POS_X {
        (1, 0, 0)
    } else if face == FACE_NEG_X {
        (-1, 0, 0)
    } else if face == FACE_POS_Z {
        (0, 0, 1)
    } else {
        (0, 0, -1)
    }
}

/// Whether a face of a voxel is visible: the voxel is occupied and the voxel
/// behind the face is not.
pub open spec fn exposed(words: Seq<u32>, face: int, x: int, y: int, z: int) -> bool {
    let d = face_step(face);
    occupancy::occupied(words, x, y, z) && !occupancy::occupied(
        words,
        x + d.0,
        y + d.1,
        z + d.2,
    )
}

/// Whether all columns that culling looks at are there: the interior columns,
/// and the neighbours of each interior column that is not empty.
pub open spec fn columns_readable(words: Seq<u32>) -> bool {
    &&& words.len() > 2 * occupancy::column_index(62, 62) + 1
    &&& forall|x: int, y: int, z: int|
        1 <= x <= CS && 0 <= y < CS_P && 1 <= z <= CS && #[trigger] occupancy::occupied(
            words,
            x,
            y,
            z,
        ) ==> words.len() > 2 * occupancy::column_index(x + 1, z) + 1
}

/// Bit of a face mask: `y` is a usable coordinate, `x` and `z` are padded ones.
pub open spec fn mask_bit(masks: Seq<Vec<u64>>, face: int, x: int, y: int, z: int) -> bool {
    bits::bit64(masks[face]@[occupancy::column_index(x, z)], y)
}

/// The masks tell for each direction and usable voxel whether that face is
/// visible; all other bits are clear.
pub open spec fn are_face_masks(words: Seq<u32>, masks: Seq<Vec<u64>>) -> bool {
    &&& masks.len() == 6
    &&& forall|face: int| 0 <= face < 6 ==> (#[trigger] masks[face])@.len() == COLUMNS_PER_CHUNK
    &&& forall|face: int, x: int, y: int, z: int|
        0 <= face < 6 && occupancy::in_chunk(x, y, z) ==> #[trigger] mask_bit(
            masks,
            face,
            x,
            y,
            z,
        ) == (1 <= x <= CS && y < CS && 1 <= z <= CS && exposed(words, face, x, y + 1, z))
}

/// One face mask column holds what `are_face_masks` asks of it.
spec fn column_ok(words: Seq<u32>, face: int, x: int, z: int, m: u64) -> bool {
    forall|y: int|
        0 <= y < 64 ==> #[trigger] bits::bit64(m, y) == (1 <= x <= CS && y < CS && 1 <= z <= CS
            && exposed(words, face, x, y + 1, z))
}

/// The face mask of a column against the column of its neighbours.
fn visible_mask(col: u64, neighbor: u64) -> (m: u64)
    ensures
        forall|y: int|
            0 <= y < 64 ==> #[trigger] bits::bit64(m, y) == (y < CS && bits::bit64(col, y + 1)
                && !bits::bit64(neighbor, y + 1)),
{
    proof {
        let v = col & !neighbor;
        bits::lemma_and_not(col, neighbor);
        bits::lemma_shr1(v);
        bits::lemma_mask62(v >> 1);
    }
    ((col & !neighbor) >> 1) & USABLE_MASK
}

/// Face masks of one column, in face order.
fn cull_column(occupancy: &[u32], x: u32, z: u32) -> (m: [u64; 6])
    requires
        x < CS_P,
        z < CS_P,
        columns_readable(occupancy@),
    ensures
        forall|face: int|
            0 <= face < 6 ==> column_ok(
                occupancy@,
                face,
                x as int,
                z as int,
                #[trigger] m[face],
            ),
{
    if x == 0 || x > CS || z == 0 || z > CS {
        proof {
            bits::lemma_zero64();
        }
        return [0, 0, 0, 0, 0, 0];
    }
    let col: u64 = occupancy::read_column(occupancy, x, z);
    if col == 0 {
        proof {
            bits::lemma_zero64();
            assert forall|face: int, y: int| 0 <= face < 6 && 0 <= y < CS implies !#[trigger] exposed(
                occupancy@,
                face,
                x as int,
                y + 1,
                z as int,
            ) by {
                assert(!bits::bit64(col, y + 1));
            }
        }
        return [0, 0, 0, 0, 0, 0];
    }
    proof {
        if forall|y: int| 0 <= y < 64 ==> !#[trigger] bits::bit64(col, y) {
            bits::lemma_zero_if_no_bits(col);
        }
        let y = choose|y: int| 0 <= y < 64 && #[trigger] bits::bit64(col, y);
        assert(occupancy::occupied(occupancy@, x as int, y, z as int));
        bits::lemma_shr1(col);
        bits::lemma_shl1(col);
    }
    let pos_y: u64 = visible_mask(col, col >> 1);
    let neg_y: u64 = visible_mask(col, col << 1);
    let pos_x: u64 = visible_mask(col, occupancy::read_column(occupancy, x + 1, z));
    let neg_x: u64 = visible_mask(col, occupancy::read_column(occupancy, x - 1, z));
    let pos_z: u64 = visible_mask(col, occupancy::read_column(occupancy, x, z + 1));
    let neg_z: u64 = visible_mask(col, occupancy::read_column(occupancy, x, z - 1));
    [pos_y, neg_y, pos_x, neg_x, pos_z, neg_z]
}

/// The first `m.len()` columns of a face mask.
spec fn mask_prefix(words: Seq<u32>, face: int, m: Seq<u64>) -> bool {
    forall|x: int, z: int|
        0 <= x < CS_P && 0 <= z < CS_P && occupancy::column_index(x, z) < m.len() ==> column_ok(
            words,
            face,
            x,
            z,
            #[trigger] m[occupancy::column_index(x, z)],
        )
}

proof fn lemma_mask_prefix_push(words: Seq<u32>, face: int, m: Seq<u64>, x: int, z: int, c: u64)
    requires
        mask_prefix(words, face, m),
        0 <= x < CS_P,
        0 <= z < CS_P,
        m.len() == occupancy::column_index(x, z),
        column_ok(words, face, x, z, c),
    ensures
        mask_prefix(words, face, m.push(c)),
{
    let more = m.push(c);
    assert forall|x2: int, z2: int|
        0 <= x2 < CS_P && 0 <= z2 < CS_P && occupancy::column_index(x2, z2)
            < more.len() implies column_ok(
        words,
        face,
        x2,
        z2,
        #[trigger] more[occupancy::column_index(x2, z2)],
    ) by {
        let i = occupancy::column_index(x2, z2);
        if i == m.len() {
            assert(x2 == x && z2 == z);
        } else {
            assert(more[i] == m[i]);
        }
    }
}

/// Compute face visibility masks for all 6 directions.
///
/// Each mask holds one word per column (column index = x * CS_P + z of the
/// padded grid), with bit y set if that face is visible at usable coordinate
/// y. Padding columns are zero.
pub fn cull_faces_cpu(occupancy: &[u32]) -> (masks: [Vec<u64>; 6])
    requires
        columns_readable(occupancy@),
    ensures
        are_face_masks(occupancy@, masks@),
{
    let mut m0: Vec<u64> = Vec::new();
    let mut m1: Vec<u64> = Vec::new();
    let mut m2: Vec<u64> = Vec::new();
    let mut m3: Vec<u64> = Vec::new();
    let mut m4: Vec<u64> = Vec::new();
    let mut m5: Vec<u64> = Vec::new();
    let mut x: u32 = 0;
    while x < CS_P
        invariant
            x <= CS_P,
            columns_readable(occupancy@),
            m0@.len() == x * CS_P && mask_prefix(occupancy@, 0, m0@),
            m1@.len() == x * CS_P && mask_prefix(occupancy@, 1, m1@),
            m2@.len() == x * CS_P && mask_prefix(occupancy@, 2, m2@),
            m3@.len() == x * CS_P && mask_prefix(occupancy@, 3, m3@),
            m4@.len() == x * CS_P && mask_prefix(occupancy@, 4, m4@),
            m5@.len() == x * CS_P && mask_prefix(occupancy@, 5, m5@),
        decreases CS_P - x,
    {
        let mut z: u32 = 0;
        while z < CS_P
            invariant
                x < CS_P,
                z <= CS_P,
                columns_readable(occupancy@),
                m0@.len() == x * CS_P + z && mask_prefix(occupancy@, 0, m0@),
                m1@.len() == x * CS_P + z && mask_prefix(occupancy@, 1, m1@),
                m2@.len() == x * CS_P + z && mask_prefix(occupancy@, 2, m2@),
                m3@.len() == x * CS_P + z && mask_prefix(occupancy@, 3, m3@),
                m4@.len() == x * CS_P + z && mask_prefix(occupancy@, 4, m4@),
                m5@.len() == x * CS_P + z && mask_prefix(occupancy@, 5, m5@),
            decreases CS_P - z,
        {
            let c: [u64; 6] = cull_column(occupancy, x, z);
            proof {
                lemma_mask_prefix_push(occupancy@, 0, m0@, x as int, z as int, c[0]);
                lemma_mask_prefix_push(occupancy@, 1, m1@, x as int, z as int, c[1]);
                lemma_mask_prefix_push(occupancy@, 2, m2@, x as int, z as int, c[2]);
                lemma_mask_prefix_push(occupancy@, 3, m3@, x as int, z as int, c[3]);
                lemma_mask_prefix_push(occupancy@, 4, m4@, x as int, z as int, c[4]);
                lemma_mask_prefix_push(occupancy@, 5, m5@, x as int, z as int, c[5]);
            }
            m0.push(c[FACE_POS_Y]);
            m1.push(c[FACE_NEG_Y]);
            m2.push(c[FACE_POS_X]);
            m3.push(c[FACE_NEG_X]);
            m4.push(c[FACE_POS_Z]);
            m5.push(c[FACE_NEG_Z]);
            z = z + 1;
        }
        x = x + 1;
    }
    let masks: [Vec<u64>; 6] = [m0, m1, m2, m3, m4, m5];
    proof {
        assert forall|face: int, x: int, y: int, z: int|
            0 <= face < 6 && occupancy::in_chunk(x, y, z) implies #[trigger] mask_bit(
            masks@,
            face,
            x,
            y,
            z,
        ) == (1 <= x <= CS && y < CS && 1 <= z <= CS && exposed(
            occupancy@,
            face,
            x,
            y + 1,
            z,
        )) by {
            assert(mask_prefix(occupancy@, face, masks@[face]@));
            assert(column_ok(
                occupancy@,
                face,
                x,
                z,
                masks@[face]@[occupancy::column_index(x, z)],
            ));
        }
    }
    masks
}

/// Count the visible faces of each direction.
pub fn count_faces(masks: &[Vec<u64>; 6]) -> (counts: [u32; 6])
    requires
        forall|face: int| 0 <= face < 6 ==> bits::ones_sum((#[trigger] masks[face])@) <= u32::MAX,
    ensures
        forall|face: int|
            0 <= face < 6 ==> (#[trigger] counts[face]) == bits::ones_sum(masks[face]@),
{
    [
        bits::count_ones_sum(masks[0].as_slice()),
        bits::count_ones_sum(masks[1].as_slice()),
        bits::count_ones_sum(masks[2].as_slice()),
        bits::count_ones_sum(masks[3].as_slice()),
        bits::count_ones_sum(masks[4].as_slice()),
        bits::count_ones_sum(masks[5].as_slice()),
    ]
}

/// Number of set bits in all six masks.
pub open spec fn all_faces(masks: Seq<Vec<u64>>) -> nat {
    bits::ones_sum(masks[0]@) + bits::ones_sum(masks[1]@) + bits::ones_sum(masks[2]@)
        + bits::ones_sum(masks[3]@) + bits::ones_sum(masks[4]@) + bits::ones_sum(masks[5]@)
}

/// Total face count across all 6 directions.
pub fn total_face_count(masks: &[Vec<u64>; 6]) -> (n: u32)
    requires
        all_faces(masks@) <= u32::MAX,
    ensures
        n == all_faces(masks@),
{
    let c: [u32; 6] = count_faces(masks);
    assert(c[0] == bits::ones_sum(masks[0]@));
    assert(c[1] == bits::ones_sum(masks[1]@));
    assert(c[2] == bits::ones_sum(masks[2]@));
    assert(c[3] == bits::ones_sum(masks[3]@));
    assert(c[4] == bits::ones_sum(masks[4]@));
    assert(c[5] == bits::ones_sum(masks[5]@));
    c[0] + c[1] + c[2] + c[3] + c[4] + c[5]
}

// Material lookup.

/// Number of a voxel in the index buffer: x-major.
pub open spec fn voxel_index(x: int, y: int, z: int) -> int {
    x * CS_P * CS_P + y * CS_P + z
}

/// The palette index of a voxel in a bitpacked index buffer: 0 where the
/// buffer is empty, has no bits per entry or ends before the voxel.
pub open spec fn palette_index(index_buf: Seq<u32>, bpe: int, x: int, y: int, z: int) -> int {
    let bit = voxel_index(x, y, z) * bpe;
    if bpe == 0 || bit / 32 >= index_buf.len() {
        0
    } else {
        bits::field32(index_buf[bit / 32], bit % 32, bpe) as int
    }
}

/// An entry of a packed palette, two per word; the default material past its
/// end.
pub open spec fn palette_entry(palette: Seq<u32>, i: int) -> int {
    if i / 2 >= palette.len() {
        MATERIAL_DEFAULT as int
    } else {
        bits::field32(palette[i / 2], (i % 2) * 16, 16) as int
    }
}

/// The material of a voxel.
pub open spec fn material_id(
    palette: Seq<u32>,
    index_buf: Seq<u32>,
    bpe: int,
    x: int,
    y: int,
    z: int,
) -> int {
    palette_entry(palette, palette_index(index_buf, bpe, x, y, z))
}

/// Decode a palette index for one voxel from the bitpacked index buffer.
pub fn read_palette_index(index_buf: &[u32], bpe: u32, px: u32, py: u32, pz: u32) -> (i: u32)
    requires
        occupancy::in_chunk(px as int, py as int, pz as int),
        index_buf@.len() == 0 || bpe < 32,
    ensures
        i == palette_index(index_buf@, bpe as int, px as int, py as int, pz as int),
{
    if bpe == 0 || index_buf.len() == 0 {
        proof {
            vstd::arithmetic::mul::lemma_mul_nonnegative(
                voxel_index(px as int, py as int, pz as int),
                bpe as int,
            );
        }
        return 0;
    }
    let voxel: u32 = px * CS_P * CS_P + py * CS_P + pz;
    assert(voxel * bpe <= 262_144 * 32) by (nonlinear_arith)
        requires
            voxel <= 262_144,
            bpe < 32,
    ;
    let bit_offset: u32 = voxel * bpe;
    let word_index: usize = (bit_offset / 32) as usize;
    if word_index < index_buf.len() {
        bits::read_field32(index_buf[word_index], bit_offset % 32, bpe)
    } else {
        0
    }
}

/// Resolve the material of a voxel from palette and index buffer.
pub fn read_material_id(
    palette: &[u32],
    index_buf: &[u32],
    bpe: u32,
    px: u32,
    py: u32,
    pz: u32,
) -> (m: u32)
    requires
        occupancy::in_chunk(px as int, py as int, pz as int),
        index_buf@.len() == 0 || bpe < 32,
    ensures
        m == material_id(
            palette@,
            index_buf@,
            bpe as int,
            px as int,
            py as int,
            pz as int,
        ),
{
    let i: u32 = read_palette_index(index_buf, bpe, px, py, pz);
    let word: usize = (i / 2) as usize;
    if word < palette.len() {
        bits::read_field32(palette[word], (i % 2) * 16, 16)
    } else {
        MATERIAL_DEFAULT as u32
    }
}

// Greedy merge.

/// A merged quad before vertex expansion.
#[derive(Debug, Clone, Copy, PartialEq, Eq, Structural)]
pub struct Quad {
    /// Position in usable coordinates.
    pub x: u32,
    pub y: u32,
    pub z: u32,
    /// Size (at least 1).
    pub width: u32,
    pub height: u32,
    /// Face direction.
    pub face: usize,
    /// Global material id, truncated to 8 bits for vertex packing.
    pub material_id: u8,
}

/// The usable voxel at place (a, b) of a slice. Slices of Y faces lie in the XZ
/// plane, of X faces in the YZ plane, of Z faces in the XY plane.
pub open spec fn slice_voxel(face: int, slice: int, a: int, b: int) -> (int, int, int) {
    if face < 2 {
        (a, slice, b)
    } else if face < 4 {
        (slice, a, b)
    } else {
        (a, b, slice)
    }
}

/// What a cell of a slice holds: the material of the voxel where the face is
/// visible.
pub open spec fn slice_cell(
    masks: Seq<Vec<u64>>,
    palette: Seq<u32>,
    index_buf: Seq<u32>,
    bpe: int,
    face: int,
    slice: int,
    a: int,
    b: int,
) -> Option<u32> {
    let v = slice_voxel(face, slice, a, b);
    if mask_bit(masks, face, v.0 + 1, v.1, v.2 + 1) {
        Some(material_id(palette, index_buf, bpe, v.0 + 1, v.1 + 1, v.2 + 1) as u32)
    } else {
        None
    }
}

/// A slice as a plane of cells.
pub open spec fn slice_cells(
    masks: Seq<Vec<u64>>,
    palette: Seq<u32>,
    index_buf: Seq<u32>,
    bpe: int,
    face: int,
    slice: int,
) -> Seq<Option<u32>> {
    Seq::new(
        PLANE_CELLS as nat,
        |i: int|
            slice_cell(
                masks,
                palette,
                index_buf,
                bpe,
                face,
                slice,
                i / (CS as int),
                i % (CS as int),
            ),
    )
}

/// The quad of a rectangle of a slice.
pub open spec fn rect_quad(face: int, slice: int, r: Rect) -> Quad {
    let v = slice_voxel(face, slice, r.a as int, r.b as int);
    Quad {
        x: v.0 as u32,
        y: v.1 as u32,
        z: v.2 as u32,
        width: r.width,
        height: r.height,
        face: face as usize,
        material_id: (r.material % 256) as u8,
    }
}

/// The merged quads of one slice.
pub open spec fn slice_quads(
    masks: Seq<Vec<u64>>,
    palette: Seq<u32>,
    index_buf: Seq<u32>,
    bpe: int,
    face: int,
    slice: int,
) -> Seq<Quad> {
    plane::greedy_cover(
        slice_cells(masks, palette, index_buf, bpe, face, slice),
    ).map_values(|r: Rect| rect_quad(face, slice, r))
}

/// The merged quads of the first `n` slices, CS slices per face direction.
pub open spec fn merged_quads(
    masks: Seq<Vec<u64>>,
    palette: Seq<u32>,
    index_buf: Seq<u32>,
    bpe: int,
    n: nat,
) -> Seq<Quad>
    decreases n,
{
    if n == 0 {
        Seq::empty()
    } else {
        merged_quads(masks, palette, index_buf, bpe, (n - 1) as nat) + slice_quads(
            masks,
            palette,
            index_buf,
            bpe,
            (n - 1) / (CS as int),
            (n - 1) % (CS as int),
        )
    }
}

/// Slices of all six directions.
pub const ALL_SLICES: u32 = 372;

/// The merged quads of a chunk, in face order and, within a face, slice order.
pub open spec fn chunk_quads(
    masks: Seq<Vec<u64>>,
    palette: Seq<u32>,
    index_buf: Seq<u32>,
    bpe: int,
) -> Seq<Quad> {
    merged_quads(masks, palette, index_buf, bpe, ALL_SLICES as nat)
}

/// Whether every column of the usable interior is present in each mask.
pub open spec fn masks_readable(masks: Seq<Vec<u64>>) -> bool {
    &&& masks.len() == 6
    &&& forall|face: int|
        0 <= face < 6 ==> (#[trigger] masks[face])@.len() > occupancy::column_index(62, 62)
}

/// Whether a face is visible at usable coordinate y of a mask column.
pub fn face_visible(masks: &[Vec<u64>; 6], face: usize, x: u32, z: u32, y: u32) -> (b: bool)
    requires
        face < 6,
        x < CS_P && z < CS_P && y < 64,
        occupancy::column_index(x as int, z as int) < masks[face as int]@.len(),
    ensures
        b == mask_bit(masks@, face as int, x as int, y as int, z as int),
{
    let col: usize = (x * CS_P + z) as usize;
    let w: u64 = masks[face][col];
    (w >> (y as u64)) & 1 == 1
}

/// The cells of a slice.
fn read_slice(
    masks: &[Vec<u64>; 6],
    face: usize,
    slice: u32,
    palette: &[u32],
    index_buf: &[u32],
    bpe: u32,
) -> (cells: Vec<Option<u32>>)
    requires
        masks_readable(masks@),
        face < 6,
        slice < CS,
        index_buf@.len() == 0 || bpe < 32,
    ensures
        cells@ == slice_cells(
            masks@,
            palette@,
            index_buf@,
            bpe as int,
            face as int,
            slice as int,
        ),
{
    let ghost want = slice_cells(
        masks@,
        palette@,
        index_buf@,
        bpe as int,
        face as int,
        slice as int,
    );
    let mut cells: Vec<Option<u32>> = Vec::new();
    let mut a: u32 = 0;
    while a < CS
        invariant
            masks_readable(masks@),
            face < 6,
            slice < CS,
            a <= CS,
            index_buf@.len() == 0 || bpe < 32,
            want == slice_cells(
                masks@,
                palette@,
                index_buf@,
                bpe as int,
                face as int,
                slice as int,
            ),
            cells@ == want.take(a * CS),
        decreases CS - a,
    {
        let mut b: u32 = 0;
        while b < CS
            invariant
                masks_readable(masks@),
                face < 6,
                slice < CS,
                a < CS,
                b <= CS,
                index_buf@.len() == 0 || bpe < 32,
                want == slice_cells(
                    masks@,
                    palette@,
                    index_buf@,
                    bpe as int,
                    face as int,
                    slice as int,
                ),
                cells@ == want.take(a * CS + b),
            decreases CS - b,
        {
            let x: u32 = if face < 2 || face >= 4 { a } else { slice };
            let y: u32 = if face < 2 { slice } else if face < 4 { a } else { b };
            let z: u32 = if face < 4 { b } else { slice };
            let c: Option<u32> = if face_visible(masks, face, x + 1, z + 1, y) {
                Some(read_material_id(palette, index_buf, bpe, x + 1, y + 1, z + 1))
            } else {
                None
            };
            proof {
                let i = a * CS + b;
                assert(i / (CS as int) == a && i % (CS as int) == b);
                assert(want[i] == c);
                assert(want.take(i + 1) =~= want.take(i).push(c));
            }
            cells.push(c);
            b = b + 1;
        }
        a = a + 1;
    }
    proof {
        assert(want.take(CS * CS) =~= want);
    }
    cells
}

/// Merge one slice and append its quads.
fn merge_slice(
    masks: &[Vec<u64>; 6],
    face: usize,
    slice: u32,
    palette: &[u32],
    index_buf: &[u32],
    bpe: u32,
    quads: &mut Vec<Quad>,
)
    requires
        masks_readable(masks@),
        face < 6,
        slice < CS,
        index_buf@.len() == 0 || bpe < 32,
    ensures
        final(quads)@ == old(quads)@ + slice_quads(
            masks@,
            palette@,
            index_buf@,
            bpe as int,
            face as int,
            slice as int,
        ),
{
    let cells: Vec<Option<u32>> = read_slice(masks, face, slice, palette, index_buf, bpe);
    let rects: Vec<Rect> = plane::greedy_rects(&cells);
    let ghost before = quads@;
    let ghost want = rects@.map_values(|r: Rect| rect_quad(face as int, slice as int, r));
    let mut i: usize = 0;
    while i < rects.len()
        invariant
            face < 6,
            slice < CS,
            i <= rects@.len(),
            plane::is_greedy_cover(cells@, rects@),
            want == rects@.map_values(|r: Rect| rect_quad(face as int, slice as int, r)),
            quads@ == before + want.take(i as int),
        decreases rects@.len() - i,
    {
        let r: Rect = rects[i];
        proof {
            assert(plane::is_next(cells@, rects@.take(i as int), rects@[i as int]));
            assert(plane::joinable(cells@, rects@.take(i as int), r.a + 0, r.b as int, r.material));
            assert(want.take(i + 1) =~= want.take(i as int).push(want[i as int]));
            assert(before + want.take(i + 1) =~= (before + want.take(i as int)).push(
                want[i as int],
            ));
        }
        quads.push(
            Quad {
                x: if face < 2 || face >= 4 { r.a } else { slice },
                y: if face < 2 { slice } else if face < 4 { r.a } else { r.b },
                z: if face < 4 { r.b } else { slice },
                width: r.width,
                height: r.height,
                face,
                material_id: (r.material % 256) as u8,
            },
        );
        i = i + 1;
    }
    proof {
        assert(want.take(i as int) =~= want);
    }
}

/// Greedy merge for all face directions. Returns the list of merged quads.
///
/// Adjacent faces merge only if they share the same material, which is
/// resolved per voxel through the index buffer and the palette.
pub fn greedy_merge(
    _occupancy: &[u32],
    masks: &[Vec<u64>; 6],
    palette: &[u32],
    index_buf: &[u32],
    bpe: u32,
) -> (quads: Vec<Quad>)
    requires
        masks_readable(masks@),
        index_buf@.len() == 0 || bpe < 32,
    ensures
        quads@ == chunk_quads(masks@, palette@, index_buf@, bpe as int),
{
    let mut quads: Vec<Quad> = Vec::new();
    let mut n: u32 = 0;
    while n < ALL_SLICES
        invariant
            masks_readable(masks@),
            n <= ALL_SLICES,
            index_buf@.len() == 0 || bpe < 32,
            quads@ == merged_quads(masks@, palette@, index_buf@, bpe as int, n as nat),
        decreases ALL_SLICES - n,
    {
        merge_slice(masks, (n / CS) as usize, n % CS, palette, index_buf, bpe, &mut quads);
        n = n + 1;
    }
    quads
}

// Vertex expansion.

/// A signed byte as two's complement.
pub open spec fn snorm_byte(n: i8) -> int {
    if n >= 0 {
        n as int
    } else {
        256 + n
    }
}

/// The packed form of a normal and a material.
pub open spec fn packed_normal_material(nx: i8, ny: i8, nz: i8, material_id: u8) -> int {
    snorm_byte(nx) + snorm_byte(ny) * 0x100 + snorm_byte(nz) * 0x1_0000 + material_id
        * 0x100_0000
}

/// Pack a normal and a material id into a word.
/// Normal components are snorm8: 127 stands for +1, -127 for -1.
pub fn pack_normal_material(nx: i8, ny: i8, nz: i8, material_id: u8) -> (w: u32)
    ensures
        w == packed_normal_material(nx, ny, nz, material_id),
{
    let x: u32 = if nx >= 0 { nx as u32 } else { (256 + nx as i32) as u32 };
    let y: u32 = if ny >= 0 { ny as u32 } else { (256 + ny as i32) as u32 };
    let z: u32 = if nz >= 0 { nz as u32 } else { (256 + nz as i32) as u32 };
    x + y * 0x100 + z * 0x1_0000 + (material_id as u32) * 0x100_0000
}

/// The fourth word of a quad's vertices: the face normal at full length, and
/// the material.
pub open spec fn quad_normal_word(q: Quad) -> int {
    let d = face_step(q.face as int);
    packed_normal_material((d.0 * 127) as i8, (d.1 * 127) as i8, (d.2 * 127) as i8, q.material_id)
}

/// What the corner `k` of a quad adds to the quad's base position along each
/// axis. Corners run counter-clockwise as seen from outside.
pub open spec fn corner_offset(q: Quad, k: int) -> (int, int, int) {
    let w = q.width as int;
    let h = q.height as int;
    if q.face == FACE_POS_Y {
        (if k >= 2 { w } else { 0 }, 1, if k == 1 || k == 2 { h } else { 0 })
    } else if q.face == FACE_NEG_Y {
        (if k == 1 || k == 2 { w } else { 0 }, 0, if k >= 2 { h } else { 0 })
    } else if q.face == FACE_POS_X {
        (1, if k == 1 || k == 2 { w } else { 0 }, if k >= 2 { h } else { 0 })
    } else if q.face == FACE_NEG_X {
        (0, if k >= 2 { w } else { 0 }, if k == 1 || k == 2 { h } else { 0 })
    } else if q.face == FACE_POS_Z {
        (if k == 1 || k == 2 { w } else { 0 }, if k >= 2 { h } else { 0 }, 1)
    } else {
        (if k >= 2 { w } else { 0 }, if k == 1 || k == 2 { h } else { 0 }, 0)
    }
}

/// Position of a usable coordinate `u` of chunk `c` along one axis, with the
/// padding offset of one, in single precision: every step rounds.
pub open spec fn base_position(c: int, u: int) -> int {
    let origin = ieee::round_single(ieee::round_single(c) * CS);
    ieee::round_single(origin + ieee::round_single(u + 1))
}

/// A position moved by `d`, in single precision.
pub open spec fn moved(base: int, d: int) -> int {
    if d == 0 {
        base
    } else {
        ieee::round_single(base + ieee::round_single(d))
    }
}

/// Word `i` of corner `k` of a quad: three coordinates, then normal and
/// material.
pub open spec fn vertex_word(q: Quad, coord: Seq<i32>, k: int, i: int) -> int {
    let d = corner_offset(q, k);
    if i == 0 {
        ieee::single_bits(moved(base_position(coord[0] as int, q.x as int), d.0))
    } else if i == 1 {
        ieee::single_bits(moved(base_position(coord[1] as int, q.y as int), d.1))
    } else if i == 2 {
        ieee::single_bits(moved(base_position(coord[2] as int, q.z as int), d.2))
    } else {
        quad_normal_word(q)
    }
}

/// Byte `b` of a word, least significant first.
pub open spec fn le_byte(w: int, b: int) -> u8 {
    if b == 0 {
        (w % 0x100) as u8
    } else if b == 1 {
        (w / 0x100 % 0x100) as u8
    } else if b == 2 {
        (w / 0x1_0000 % 0x100) as u8
    } else {
        (w / 0x100_0000 % 0x100) as u8
    }
}

/// The vertex bytes of a list of quads: four vertices of 16 bytes per quad.
pub open spec fn vertex_bytes(quads: Seq<Quad>, coord: Seq<i32>) -> Seq<u8> {
    Seq::new(
        quads.len() * 64,
        |j: int| le_byte(vertex_word(quads[j / 64], coord, j % 64 / 16, j % 16 / 4), j % 4),
    )
}

/// The indices of `n` quads: two triangles 0-1-2 and 0-2-3 each.
pub open spec fn quad_indices(n: nat) -> Seq<u32> {
    Seq::new(
        n * 6,
        |j: int|
            (j / 6 * 4 + if j % 6 == 0 || j % 6 == 3 {
                0int
            } else if j % 6 == 1 {
                1
            } else if j % 6 == 5 {
                3
            } else {
                2
            }) as u32,
    )
}

/// Append a word, least significant byte first.
fn push_word(bytes: &mut Vec<u8>, w: u32)
    ensures
        final(bytes)@ == old(bytes)@ + Seq::new(4, |b: int| le_byte(w as int, b)),
{
    bytes.push((w % 0x100) as u8);
    bytes.push((w / 0x100 % 0x100) as u8);
    bytes.push((w / 0x1_0000 % 0x100) as u8);
    bytes.push((w / 0x100_0000 % 0x100) as u8);
}

/// Position of a usable coordinate of a chunk along one axis.
fn base_of(c: i32, u: u32) -> (p: i64)
    requires
        u < u32::MAX,
    ensures
        p == base_position(c as int, u as int),
        -0x200_0000_0000 < p < 0x200_0000_0000,
{
    let chunk: i64 = ieee::round_to_single(c as i64);
    assert(-0x1_0000_0000 <= chunk <= 0x1_0000_0000);
    let stride: i64 = CS as i64;
    assert(-0x40_0000_0000 < chunk * stride < 0x40_0000_0000) by (nonlinear_arith)
        requires
            -0x1_0000_0000 <= chunk <= 0x1_0000_0000,
            stride == 62,
    ;
    let origin: i64 = ieee::round_to_single(chunk * stride);
    ieee::round_to_single(origin + ieee::round_to_single(u as i64 + 1))
}

/// Bit pattern of a position moved by `d`.
fn moved_bits(base: i64, d: u32) -> (b: u32)
    requires
        -0x200_0000_0000 < base < 0x200_0000_0000,
    ensures
        b == ieee::single_bits(moved(base as int, d as int)),
{
    if d == 0 {
        ieee::bits_of_single(base)
    } else {
        ieee::bits_of_single(
            ieee::round_to_single(base + ieee::round_to_single(d as i64)),
        )
    }
}

/// What corner `k` adds to the base position.
fn corner_of(q: &Quad, k: u32) -> (d: [u32; 3])
    requires
        q.face < 6,
        k < 4,
    ensures
        d[0] == corner_offset(*q, k as int).0,
        d[1] == corner_offset(*q, k as int).1,
        d[2] == corner_offset(*q, k as int).2,
{
    let middle: bool = k == 1 || k == 2;
    let end: bool = k >= 2;
    let w_mid: u32 = if middle { q.width } else { 0 };
    let h_mid: u32 = if middle { q.height } else { 0 };
    let w_end: u32 = if end { q.width } else { 0 };
    let h_end: u32 = if end { q.height } else { 0 };
    if q.face == FACE_POS_Y {
        [w_end, 1, h_mid]
    } else if q.face == FACE_NEG_Y {
        [w_mid, 0, h_end]
    } else if q.face == FACE_POS_X {
        [1, w_mid, h_end]
    } else if q.face == FACE_NEG_X {
        [0, w_end, h_mid]
    } else if q.face == FACE_POS_Z {
        [w_mid, h_end, 1]
    } else {
        [w_end, h_mid, 0]
    }
}

/// Normal and material word of a quad.
fn normal_word(q: &Quad) -> (w: u32)
    requires
        q.face < 6,
    ensures
        w == quad_normal_word(*q),
{
    if q.face == FACE_POS_Y {
        pack_normal_material(0, 127, 0, q.material_id)
    } else if q.face == FACE_NEG_Y {
        pack_normal_material(0, -127, 0, q.material_id)
    } else if q.face == FACE_POS_X {
        pack_normal_material(127, 0, 0, q.material_id)
    } else if q.face == FACE_NEG_X {
        pack_normal_material(-127, 0, 0, q.material_id)
    } else if q.face == FACE_POS_Z {
        pack_normal_material(0, 0, 127, q.material_id)
    } else {
        pack_normal_material(0, 0, -127, q.material_id)
    }
}

/// The bytes of one quad.
spec fn one_quad_bytes(q: Quad, coord: Seq<i32>, n: nat) -> Seq<u8> {
    Seq::new(n, |j: int| le_byte(vertex_word(q, coord, j / 16, j % 16 / 4), j % 4))
}

/// Append the four vertices of a quad.
fn push_quad(bytes: &mut Vec<u8>, q: &Quad, coord: [i32; 3])
    requires
        q.face < 6,
        q.x < u32::MAX && q.y < u32::MAX && q.z < u32::MAX,
    ensures
        final(bytes)@ == old(bytes)@ + one_quad_bytes(*q, coord@, 64),
{
    let ghost before = bytes@;
    let nm: u32 = normal_word(q);
    let bx: i64 = base_of(coord[0], q.x);
    let by: i64 = base_of(coord[1], q.y);
    let bz: i64 = base_of(coord[2], q.z);
    let mut k: u32 = 0;
    while k < 4
        invariant
            k <= 4,
            q.face < 6,
            nm == quad_normal_word(*q),
            bx == base_position(coord@[0] as int, q.x as int),
            by == base_position(coord@[1] as int, q.y as int),
            bz == base_position(coord@[2] as int, q.z as int),
            -0x200_0000_0000 < bx < 0x200_0000_0000,
            -0x200_0000_0000 < by < 0x200_0000_0000,
            -0x200_0000_0000 < bz < 0x200_0000_0000,
            bytes@ == before + one_quad_bytes(*q, coord@, (16 * k) as nat),
        decreases 4 - k,
    {
        let d: [u32; 3] = corner_of(q, k);
        let wx: u32 = moved_bits(bx, d[0]);
        let wy: u32 = moved_bits(by, d[1]);
        let wz: u32 = moved_bits(bz, d[2]);
        let ghost start = bytes@;
        push_word(bytes, wx);
        push_word(bytes, wy);
        push_word(bytes, wz);
        push_word(bytes, nm);
        proof {
            let want = before + one_quad_bytes(*q, coord@, (16 * k + 16) as nat);
            assert(bytes@.len() == want.len());
            assert forall|j: int| 0 <= j < want.len() implies bytes@[j] == want[j] by {
                let i = j - before.len();
                if i >= 16 * k {
                    let t = i - 16 * k;
                    assert(i / 16 == k && i % 16 == t && i % 4 == t % 4);
                    assert(want[j] == le_byte(
                        vertex_word(*q, coord@, k as int, t / 4),
                        t % 4,
                    ));
                }
            }
            assert(bytes@ =~= want);
        }
        k = k + 1;
    }
}

/// Expand quads to vertices and indices.
///
/// Positions are in padded voxel space (usable coordinate plus one), offset by
/// the chunk coordinate times CS.
pub fn expand_quads(quads: &[Quad], chunk_coord: [i32; 3]) -> (r: (Vec<u8>, Vec<u32>))
    requires
        quads@.len() * 4 <= u32::MAX,
        forall|i: int|
            0 <= i < quads@.len() ==> (#[trigger] quads@[i]).face < 6 && quads@[i].x < u32::MAX
                && quads@[i].y < u32::MAX && quads@[i].z < u32::MAX,
    ensures
        r.0@ == vertex_bytes(quads@, chunk_coord@),
        r.1@ == quad_indices(quads@.len()),
{
    let mut vertices: Vec<u8> = Vec::new();
    let mut indices: Vec<u32> = Vec::new();
    let mut i: usize = 0;
    let mut base: u32 = 0;
    while i < quads.len()
        invariant
            i <= quads@.len(),
            quads@.len() * 4 <= u32::MAX,
            base == 4 * i,
            forall|i: int|
                0 <= i < quads@.len() ==> (#[trigger] quads@[i]).face < 6 && quads@[i].x < u32::MAX
                    && quads@[i].y < u32::MAX && quads@[i].z < u32::MAX,
            vertices@ == vertex_bytes(quads@.take(i as int), chunk_coord@),
            indices@ == quad_indices(i as nat),
        decreases quads@.len() - i,
    {
        let ghost bytes_before = vertices@;
        push_quad(&mut vertices, &quads[i], chunk_coord);
        indices.push(base);
        indices.push(base + 1);
        indices.push(base + 2);
        indices.push(base);
        indices.push(base + 2);
        indices.push(base + 3);
        proof {
            let more = quads@.take(i + 1);
            let want = vertex_bytes(more, chunk_coord@);
            let n = 64 * i;
            assert forall|j: int| 0 <= j < want.len() implies vertices@[j] == want[j] by {
                if j < n {
                    assert(more[j / 64] == quads@.take(i as int)[j / 64]);
                } else {
                    let t = j - n;
                    assert(j / 64 == i && j % 64 == t && j % 16 == t % 16 && j % 4 == t % 4);
                    assert(more[j / 64] == quads@[i as int]);
                }
            }
            assert(vertices@ =~= want);
            assert(indices@ =~= quad_indices((i + 1) as nat));
        }
        base = base + 4;
        i = i + 1;
    }
    proof {
        assert(quads@.take(i as int) =~= quads@);
    }
    (vertices, indices)
}

// Full pipeline.

/// Complete mesh rebuild result.
pub struct MeshResult {
    pub vertices: Vec<u8>,
    pub indices: Vec<u32>,
    pub draw_meta: DrawMeta,
    pub quad_count: u32,
}

/// Bits per entry that a palette metadata word states.
pub open spec fn meta_bpe(palette_meta: u32) -> int {
    palette_meta as int / 0x1_0000 % 0x100
}

/// `r` is the mesh of a list of quads.
pub open spec fn is_mesh_of(r: MeshResult, quads: Seq<Quad>, coord: Seq<i32>) -> bool {
    &&& r.vertices@ == vertex_bytes(quads, coord)
    &&& r.indices@ == quad_indices(quads.len())
    &&& r.quad_count == quads.len()
    &&& r.draw_meta.words_spec() == seq![
        0u32,
        (4 * quads.len()) as u32,
        0u32,
        (6 * quads.len()) as u32,
        0u32,
        0u32,
        0u32,
        0u32,
    ]
}

/// Run the complete greedy mesh pipeline for one chunk.
///
/// `palette` holds 16-bit material ids, two per word; `index_buf` the
/// bitpacked per-voxel palette indices; `palette_meta` the palette size in
/// bits 0-15 and the bits per entry in bits 16-23.
pub fn mesh_rebuild_cpu(
    occupancy: &[u32],
    palette: &[u32],
    index_buf: &[u32],
    palette_meta: u32,
    chunk_coord: [i32; 3],
) -> (r: MeshResult)
    requires
        columns_readable(occupancy@),
        index_buf@.len() == 0 || meta_bpe(palette_meta) < 32,
    ensures
        exists|masks: Seq<Vec<u64>>| #[trigger]
            are_face_masks(occupancy@, masks) && is_mesh_of(
                r,
                chunk_quads(masks, palette@, index_buf@, meta_bpe(palette_meta)),
                chunk_coord@,
            ),
{
    let bpe: u32 = palette_meta / 0x1_0000 % 0x100;
    let masks: [Vec<u64>; 6] = cull_faces_cpu(occupancy);
    let quads: Vec<Quad> = greedy_merge(occupancy, &masks, palette, index_buf, bpe);
    proof {
        mesh_laws::quad_count_bound(
            masks@,
            palette@,
            index_buf@,
            bpe as int,
            ALL_SLICES as nat,
        );
        mesh_laws::quads_are_usable(masks@, palette@, index_buf@, bpe as int);
    }
    let (vertices, indices) = expand_quads(quads.as_slice(), chunk_coord);
    let quad_count: u32 = quads.len() as u32;
    MeshResult {
        draw_meta: DrawMeta {
            vertex_offset: 0,
            vertex_count: (vertices.len() / VERTEX_BYTES as usize) as u32,
            index_offset: 0,
            index_count: indices.len() as u32,
            material_base: 0,
            _pad: [0, 0, 0],
        },
        vertices,
        indices,
        quad_count,
    }
}

} // verus!
