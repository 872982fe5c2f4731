//! Greedy merging of a chunk's visible faces into packed quads.

use vstd::prelude::*;

use crate::binary_chunk;
use crate::binary_chunk::{BinaryChunk, FaceMasks};
use crate::mesh_cpu;
use crate::plane;
use crate::plane::{Rect, PLANE_CELLS};
use crate::pool::{CS, FACE_POS_X, FACE_POS_Y, FACE_POS_Z};

verus! {

/// What a cell of a slice holds: the material of the voxel where the face is
/// visible. `axis` is a face direction along the slices' axis.
pub open spec fn chunk_cell(
    c: BinaryChunk,
    masks: Seq<Vec<u64>>,
    face: int,
    axis: int,
    slice: int,
    a: int,
    b: int,
) -> Option<u32> {
    let v = mesh_cpu::slice_voxel(axis, slice, a, b);
    if mesh_cpu::mask_bit(masks, face, v.0 + 1, v.1, v.2 + 1) {
        Some(c.at(v.0 + 1, v.1 + 1, v.2 + 1) as u32)
    } else {
        None
    }
}

/// A slice as a plane of cells.
pub open spec fn chunk_cells(
    c: BinaryChunk,
    masks: Seq<Vec<u64>>,
    face: int,
    axis: int,
    slice: int,
) -> Seq<Option<u32>> {
    Seq::new(
        PLANE_CELLS as nat,
        |i: int| chunk_cell(c, masks, face, axis, slice, i / (CS as int), i % (CS as int)),
    )
}

/// The packed quad of a rectangle of a slice.
pub open spec fn packed_rect(axis: int, slice: int, r: Rect) -> u64 {
    let v = mesh_cpu::slice_voxel(axis, slice, r.a as int, r.b as int);
    binary_chunk::packed(
        v.0,
        v.1,
        v.2,
        r.width as int,
        r.height as int,
        r.material as int,
    ) as u64
}

/// The rectangles of one slice.
pub open spec fn slice_rects(
    c: BinaryChunk,
    masks: Seq<Vec<u64>>,
    face: int,
    axis: int,
    slice: int,
) -> Seq<Rect> {
    plane::greedy_cover(chunk_cells(c, masks, face, axis, slice))
}

/// The quads of one slice.
pub open spec fn slice_packed(
    c: BinaryChunk,
    masks: Seq<Vec<u64>>,
    face: int,
    axis: int,
    slice: int,
) -> Seq<u64> {
    slice_rects(c, masks, face, axis, slice).map_values(|r: Rect| packed_rect(axis, slice, r))
}

/// The quads of the first `n` slices.
pub open spec fn packed_upto(
    c: BinaryChunk,
    masks: Seq<Vec<u64>>,
    face: int,
    axis: int,
    n: nat,
) -> Seq<u64>
    decreases n,
{
    if n == 0 {
        Seq::empty()
    } else {
        packed_upto(c, masks, face, axis, (n - 1) as nat) + slice_packed(
            c,
            masks,
            face,
            axis,
            n - 1,
        )
    }
}

/// The quads of one face direction.
pub open spec fn face_quads(c: BinaryChunk, masks: Seq<Vec<u64>>, face: int, axis: int) -> Seq<u64> {
    packed_upto(c, masks, face, axis, CS as nat)
}

/// The cells of a slice.
fn read_cells(
    chunk: &BinaryChunk,
    masks: &FaceMasks,
    face: usize,
    axis: usize,
    slice: usize,
) -> (cells: Vec<Option<u32>>)
    requires
        chunk.wf(),
        masks.wf(),
        face < 6,
        axis < 6,
        slice < CS,
    ensures
        cells@ == chunk_cells(*chunk, masks@, face as int, axis as int, slice as int),
{
    let ghost want = chunk_cells(*chunk, masks@, face as int, axis as int, slice as int);
    let mut cells: Vec<Option<u32>> = Vec::new();
    let mut i: usize = 0;
    while i < 3844
        invariant
            i <= 3844,
            chunk.wf(),
            masks.wf(),
            face < 6,
            axis < 6,
            slice < CS,
            want == chunk_cells(*chunk, masks@, face as int, axis as int, slice as int),
            cells@ =~= want.take(i as int),
        decreases 3844 - i,
    {
        let a: usize = i / 62;
        let b: usize = i % 62;
        let x: usize = if axis < 2 || axis >= 4 {
            a
        } else {
            slice
        };
        let y: usize = if axis < 2 {
            slice
        } else if axis < 4 {
            a
        } else {
            b
        };
        let z: usize = if axis < 4 {
            b
        } else {
            slice
        };
        let mask: u64 = masks.get(face, x + 1, z + 1);
        let c: Option<u32> = if (mask >> (y as u64)) & 1 == 1 {
            Some(chunk.get_material(x + 1, y + 1, z + 1) as u32)
        } else {
            None
        };
        assert(want[i as int] == c);
        cells.push(c);
        i = i + 1;
    }
    assert(want.take(3844) =~= want);
    cells
}

/// Facts on a rectangle of a slice.
proof fn lemma_rect(c: BinaryChunk, masks: Seq<Vec<u64>>, face: int, axis: int, slice: int, i: int)
    requires
        0 <= i < slice_rects(c, masks, face, axis, slice).len(),
    ensures
        ({
            let r = slice_rects(c, masks, face, axis, slice)[i];
            &&& r.width >= 1 && r.height >= 1
            &&& 0 <= r.a && r.a + r.width <= CS
            &&& 0 <= r.b && r.b + r.height <= CS
            &&& r.material < 0x1_0000
        }),
{
    let cells = chunk_cells(c, masks, face, axis, slice);
    let rects = plane::greedy_cover(cells);
    plane::greedy_cover_exists(cells);
    let r = rects[i];
    assert(plane::is_next(cells, rects.take(i), rects[i]));
    plane::rects_are_uniform(cells, rects, i, r.a as int, r.b as int);
    plane::rects_are_uniform(cells, rects, i, r.a + r.width - 1, r.b + r.height - 1);
    lemma_cell(c, masks, face, axis, slice, r.a as int, r.b as int);
}

/// A cell of a slice's plane.
proof fn lemma_cell(
    c: BinaryChunk,
    masks: Seq<Vec<u64>>,
    face: int,
    axis: int,
    slice: int,
    a: int,
    b: int,
)
    requires
        plane::in_plane(a, b),
    ensures
        plane::cell(chunk_cells(c, masks, face, axis, slice), a, b) == chunk_cell(
            c,
            masks,
            face,
            axis,
            slice,
            a,
            b,
        ),
{
    let i = plane::cell_index(a, b);
    assert(i / (CS as int) == a && i % (CS as int) == b);
}

/// Merge one slice and append its quads.
fn merge_slice(
    chunk: &BinaryChunk,
    masks: &FaceMasks,
    face: usize,
    axis: usize,
    slice: usize,
    output: &mut Vec<u64>,
)
    requires
        chunk.wf(),
        masks.wf(),
        face < 6,
        axis < 6,
        slice < CS,
    ensures
        final(output)@ == old(output)@ + slice_packed(
            *chunk,
            masks@,
            face as int,
            axis as int,
            slice as int,
        ),
{
    let cells = read_cells(chunk, masks, face, axis, slice);
    let rects = plane::greedy_rects(&cells);
    let ghost before = output@;
    let ghost want = slice_packed(*chunk, masks@, face as int, axis as int, slice as int);
    let mut i: usize = 0;
    while i < rects.len()
        invariant
            i <= rects@.len(),
            axis < 6,
            slice < CS,
            before == old(output)@,
            rects@ == slice_rects(*chunk, masks@, face as int, axis as int, slice as int),
            want == rects@.map_values(|r: Rect| packed_rect(axis as int, slice as int, r)),
            output@ =~= before + want.take(i as int),
        decreases rects@.len() - i,
    {
        let r = rects[i];
        proof {
            lemma_rect(
                *chunk,
                masks@,
                face as int,
                axis as int,
                slice as int,
                i as int,
            );
        }
        let s: u32 = slice as u32;
        let x: u32 = if axis < 2 || axis >= 4 {
            r.a
        } else {
            s
        };
        let y: u32 = if axis < 2 {
            s
        } else if axis < 4 {
            r.a
        } else {
            r.b
        };
        let z: u32 = if axis < 4 {
            r.b
        } else {
            s
        };
        proof {
            let v = mesh_cpu::slice_voxel(axis as int, slice as int, r.a as int, r.b as int);
            binary_chunk::pack_roundtrip(
                v.0,
                v.1,
                v.2,
                r.width as int,
                r.height as int,
                r.material as int,
            );
        }
        let q: u64 = binary_chunk::pack_quad(x, y, z, r.width, r.height, r.material as u16);
        assert(q == want[i as int]);
        output.push(q);
        i = i + 1;
    }
    assert(want.take(want.len() as int) =~= want);
}

/// Merge all slices along an axis and append their quads.
fn merge_axis(
    face: usize,
    axis: usize,
    chunk: &BinaryChunk,
    masks: &FaceMasks,
    output: &mut Vec<u64>,
)
    requires
        chunk.wf(),
        masks.wf(),
        face < 6,
        axis < 6,
    ensures
        final(output)@ == old(output)@ + face_quads(*chunk, masks@, face as int, axis as int),
{
    let ghost before = output@;
    let mut slice: usize = 0;
    while slice < 62
        invariant
            slice <= 62,
            chunk.wf(),
            masks.wf(),
            face < 6,
            axis < 6,
            before == old(output)@,
            output@ =~= before + packed_upto(
                *chunk,
                masks@,
                face as int,
                axis as int,
                slice as nat,
            ),
        decreases 62 - slice,
    {
        merge_slice(chunk, masks, face, axis, slice, output);
        slice = slice + 1;
    }
}

/// Merge faces along Y: for each Y slice, faces of one material in the XZ plane
/// are merged, width along X, height along Z.
pub fn greedy_merge_y_faces(
    face: usize,
    chunk: &BinaryChunk,
    masks: &FaceMasks,
    output: &mut Vec<u64>,
)
    requires
        chunk.wf(),
        masks.wf(),
        face < 6,
    ensures
        final(output)@ == old(output)@ + face_quads(
            *chunk,
            masks@,
            face as int,
            FACE_POS_Y as int,
        ),
{
    merge_axis(face, FACE_POS_Y, chunk, masks, output);
}

/// Merge faces along X: for each X slice, faces of one material in the YZ plane
/// are merged, width along Y, height along Z.
pub fn greedy_merge_x_faces(
    face: usize,
    chunk: &BinaryChunk,
    masks: &FaceMasks,
    output: &mut Vec<u64>,
)
    requires
        chunk.wf(),
        masks.wf(),
        face < 6,
    ensures
        final(output)@ == old(output)@ + face_quads(
            *chunk,
            masks@,
            face as int,
            FACE_POS_X as int,
        ),
{
    merge_axis(face, FACE_POS_X, chunk, masks, output);
}

/// Merge faces along Z: for each Z slice, faces of one material in the XY plane
/// are merged, width along X, height along Y.
pub fn greedy_merge_z_faces(
    face: usize,
    chunk: &BinaryChunk,
    masks: &FaceMasks,
    output: &mut Vec<u64>,
)
    requires
        chunk.wf(),
        masks.wf(),
        face < 6,
    ensures
        final(output)@ == old(output)@ + face_quads(
            *chunk,
            masks@,
            face as int,
            FACE_POS_Z as int,
        ),
{
    merge_axis(face, FACE_POS_Z, chunk, masks, output);
}

/// Whether a packed quad covers the face of a usable voxel; `axis` says along
/// which axis the quad was merged.
pub open spec fn packed_covers(q: u64, axis: int, x: int, y: int, z: int) -> bool {
    let f = binary_chunk::unpacked(q);
    if axis < 2 {
        f.0 <= x < f.0 + f.3 && y == f.1 && f.2 <= z < f.2 + f.4
    } else if axis < 4 {
        x == f.0 && f.1 <= y < f.1 + f.3 && f.2 <= z < f.2 + f.4
    } else {
        f.0 <= x < f.0 + f.3 && f.1 <= y < f.1 + f.4 && z == f.2
    }
}

/// Whether the face of a usable voxel is visible.
pub open spec fn face_visible(masks: Seq<Vec<u64>>, face: int, x: int, y: int, z: int) -> bool {
    0 <= x < CS && 0 <= y < CS && 0 <= z < CS && mesh_cpu::mask_bit(masks, face, x + 1, y, z + 1)
}

spec fn slice_at(axis: int, x: int, y: int, z: int) -> int {
    if axis < 2 {
        y
    } else if axis < 4 {
        x
    } else {
        z
    }
}

spec fn place_at(axis: int, x: int, y: int, z: int) -> (int, int) {
    if axis < 2 {
        (x, z)
    } else if axis < 4 {
        (y, z)
    } else {
        (x, y)
    }
}

/// A packed quad covers what its rectangle contains.
proof fn lemma_packed_rect(
    c: BinaryChunk,
    masks: Seq<Vec<u64>>,
    face: int,
    axis: int,
    slice: int,
    i: int,
    x: int,
    y: int,
    z: int,
)
    requires
        0 <= axis < 6,
        0 <= slice < CS,
        0 <= i < slice_rects(c, masks, face, axis, slice).len(),
    ensures
        ({
            let r = slice_rects(c, masks, face, axis, slice)[i];
            let q = slice_packed(c, masks, face, axis, slice)[i];
            let p = place_at(axis, x, y, z);
            &&& packed_covers(q, axis, x, y, z) <==> slice_at(axis, x, y, z) == slice
                && r.contains(p.0, p.1)
            &&& binary_chunk::unpacked(q).3 == r.width
            &&& binary_chunk::unpacked(q).4 == r.height
            &&& packed_covers(q, axis, x, y, z) ==> face_visible(masks, face, x, y, z)
                && binary_chunk::unpacked(q).5 == c.at(x + 1, y + 1, z + 1)
        }),
{
    let cells = chunk_cells(c, masks, face, axis, slice);
    let rects = plane::greedy_cover(cells);
    let r = rects[i];
    lemma_rect(c, masks, face, axis, slice, i);
    let v = mesh_cpu::slice_voxel(axis, slice, r.a as int, r.b as int);
    binary_chunk::pack_roundtrip(
        v.0,
        v.1,
        v.2,
        r.width as int,
        r.height as int,
        r.material as int,
    );
    let q = slice_packed(c, masks, face, axis, slice)[i];
    assert(q == packed_rect(axis, slice, r));
    let p = place_at(axis, x, y, z);
    if packed_covers(q, axis, x, y, z) {
        plane::greedy_cover_exists(cells);
        plane::rects_are_uniform(cells, rects, i, p.0, p.1);
        lemma_cell(c, masks, face, axis, slice, p.0, p.1);
    }
}

/// A quad of a slice stands among the quads of its direction.
proof fn lemma_included(
    c: BinaryChunk,
    masks: Seq<Vec<u64>>,
    face: int,
    axis: int,
    n: nat,
    slice: int,
    i: int,
) -> (k: int)
    requires
        0 <= slice < n,
        0 <= i < slice_packed(c, masks, face, axis, slice).len(),
    ensures
        0 <= k < packed_upto(c, masks, face, axis, n).len(),
        packed_upto(c, masks, face, axis, n)[k] == slice_packed(c, masks, face, axis, slice)[i],
    decreases n,
{
    let front = packed_upto(c, masks, face, axis, (n - 1) as nat);
    if slice < n - 1 {
        lemma_included(c, masks, face, axis, (n - 1) as nat, slice, i)
    } else {
        front.len() + i
    }
}

/// The slice, and the place in it, that a quad comes from.
proof fn lemma_located(
    c: BinaryChunk,
    masks: Seq<Vec<u64>>,
    face: int,
    axis: int,
    n: nat,
    k: int,
) -> (at: (int, int))
    requires
        0 <= k < packed_upto(c, masks, face, axis, n).len(),
    ensures
        0 <= at.0 < n,
        0 <= at.1 < slice_packed(c, masks, face, axis, at.0).len(),
        packed_upto(c, masks, face, axis, n)[k] == slice_packed(c, masks, face, axis, at.0)[at.1],
    decreases n,
{
    let front = packed_upto(c, masks, face, axis, (n - 1) as nat);
    if k < front.len() {
        lemma_located(c, masks, face, axis, (n - 1) as nat, k)
    } else {
        (n - 1, k - front.len())
    }
}

/// Every visible face is covered by a quad of its direction.
pub proof fn visible_faces_are_covered(
    c: BinaryChunk,
    masks: Seq<Vec<u64>>,
    face: int,
    axis: int,
    x: int,
    y: int,
    z: int,
)
    requires
        0 <= axis < 6,
        face_visible(masks, face, x, y, z),
    ensures
        exists|k: int|
            0 <= k < face_quads(c, masks, face, axis).len() && packed_covers(
                #[trigger] face_quads(c, masks, face, axis)[k],
                axis,
                x,
                y,
                z,
            ),
{
    let slice = slice_at(axis, x, y, z);
    let p = place_at(axis, x, y, z);
    let cells = chunk_cells(c, masks, face, axis, slice);
    let rects = plane::greedy_cover(cells);
    plane::greedy_cover_exists(cells);
    lemma_cell(c, masks, face, axis, slice, p.0, p.1);
    assert(plane::in_plane(p.0, p.1));
    assert(plane::covered(rects, p.0, p.1));
    let i = choose|i: int| 0 <= i < rects.len() && (#[trigger] rects[i]).contains(p.0, p.1);
    lemma_packed_rect(c, masks, face, axis, slice, i, x, y, z);
    let k = lemma_included(c, masks, face, axis, CS as nat, slice, i);
    assert(packed_covers(face_quads(c, masks, face, axis)[k], axis, x, y, z));
}

/// A quad covers visible faces of its own material only.
pub proof fn quads_cover_visible_faces(
    c: BinaryChunk,
    masks: Seq<Vec<u64>>,
    face: int,
    axis: int,
    k: int,
    x: int,
    y: int,
    z: int,
)
    requires
        0 <= axis < 6,
        0 <= k < face_quads(c, masks, face, axis).len(),
        packed_covers(face_quads(c, masks, face, axis)[k], axis, x, y, z),
    ensures
        face_visible(masks, face, x, y, z),
        binary_chunk::unpacked(face_quads(c, masks, face, axis)[k]).5 == c.at(x + 1, y + 1, z + 1),
{
    let at = lemma_located(c, masks, face, axis, CS as nat, k);
    lemma_packed_rect(c, masks, face, axis, at.0, at.1, x, y, z);
}

/// No face is covered by two quads of its direction.
pub proof fn quads_do_not_overlap(
    c: BinaryChunk,
    masks: Seq<Vec<u64>>,
    face: int,
    axis: int,
    n: nat,
    j: int,
    k: int,
    x: int,
    y: int,
    z: int,
)
    requires
        0 <= axis < 6,
        n <= CS,
        0 <= j < packed_upto(c, masks, face, axis, n).len(),
        0 <= k < packed_upto(c, masks, face, axis, n).len(),
        packed_covers(packed_upto(c, masks, face, axis, n)[j], axis, x, y, z),
        packed_covers(packed_upto(c, masks, face, axis, n)[k], axis, x, y, z),
    ensures
        j == k,
    decreases n,
{
    let m = (n - 1) as nat;
    let front = packed_upto(c, masks, face, axis, m);
    let at_j = lemma_located(c, masks, face, axis, n, j);
    let at_k = lemma_located(c, masks, face, axis, n, k);
    lemma_packed_rect(c, masks, face, axis, at_j.0, at_j.1, x, y, z);
    lemma_packed_rect(c, masks, face, axis, at_k.0, at_k.1, x, y, z);
    if j < front.len() && k < front.len() {
        quads_do_not_overlap(c, masks, face, axis, m, j, k, x, y, z);
    } else if j >= front.len() && k >= front.len() {
        let p = place_at(axis, x, y, z);
        let cells = chunk_cells(c, masks, face, axis, m as int);
        plane::greedy_cover_exists(cells);
        lemma_packed_rect(c, masks, face, axis, m as int, j - front.len(), x, y, z);
        lemma_packed_rect(c, masks, face, axis, m as int, k - front.len(), x, y, z);
        plane::rects_are_disjoint(
            cells,
            plane::greedy_cover(cells),
            j - front.len(),
            k - front.len(),
            p.0,
            p.1,
        );
    } else if j < front.len() {
        let early = lemma_located(c, masks, face, axis, m, j);
        lemma_packed_rect(c, masks, face, axis, early.0, early.1, x, y, z);
        lemma_packed_rect(c, masks, face, axis, m as int, k - front.len(), x, y, z);
    } else {
        let early = lemma_located(c, masks, face, axis, m, k);
        lemma_packed_rect(c, masks, face, axis, early.0, early.1, x, y, z);
        lemma_packed_rect(c, masks, face, axis, m as int, j - front.len(), x, y, z);
    }
}

/// Summed areas of packed quads.
pub open spec fn packed_area(quads: Seq<u64>) -> int
    decreases quads.len(),
{
    if quads.len() == 0 {
        0
    } else {
        let f = binary_chunk::unpacked(quads.last());
        packed_area(quads.drop_last()) + f.3 * f.4
    }
}

/// The visible faces of one direction.
pub open spec fn visible_set(masks: Seq<Vec<u64>>, face: int) -> Set<(int, int, int)> {
    Set::new(|v: (int, int, int)| face_visible(masks, face, v.0, v.1, v.2))
}

spec fn visible_before(masks: Seq<Vec<u64>>, face: int, axis: int, n: int) -> Set<(int, int, int)> {
    Set::new(
        |v: (int, int, int)|
            face_visible(masks, face, v.0, v.1, v.2) && slice_at(axis, v.0, v.1, v.2) < n,
    )
}

spec fn visible_slice(masks: Seq<Vec<u64>>, face: int, axis: int, n: int) -> Set<(int, int, int)> {
    Set::new(
        |v: (int, int, int)|
            face_visible(masks, face, v.0, v.1, v.2) && slice_at(axis, v.0, v.1, v.2) == n,
    )
}

proof fn lemma_area_append(front: Seq<u64>, back: Seq<u64>)
    ensures
        packed_area(front + back) == packed_area(front) + packed_area(back),
    decreases back.len(),
{
    if back.len() == 0 {
        assert(front + back =~= front);
    } else {
        lemma_area_append(front, back.drop_last());
        assert((front + back).drop_last() =~= front + back.drop_last());
    }
}

proof fn lemma_area_of_rects(
    c: BinaryChunk,
    masks: Seq<Vec<u64>>,
    face: int,
    axis: int,
    slice: int,
    n: nat,
)
    requires
        0 <= axis < 6,
        0 <= slice < CS,
        n <= slice_rects(c, masks, face, axis, slice).len(),
    ensures
        packed_area(slice_packed(c, masks, face, axis, slice).take(n as int)) == plane::total_area(
            slice_rects(c, masks, face, axis, slice).take(n as int),
        ),
    decreases n,
{
    let quads = slice_packed(c, masks, face, axis, slice);
    let rects = slice_rects(c, masks, face, axis, slice);
    if n > 0 {
        lemma_area_of_rects(c, masks, face, axis, slice, (n - 1) as nat);
        lemma_packed_rect(c, masks, face, axis, slice, n - 1, 0, 0, 0);
        assert(quads.take(n as int).drop_last() =~= quads.take(n - 1));
        assert(rects.take(n as int).drop_last() =~= rects.take(n - 1));
        let f = binary_chunk::unpacked(quads[n - 1]);
        assert(f.3 * f.4 == rects[n - 1].width * rects[n - 1].height);
    }
}

proof fn lemma_slice_area(c: BinaryChunk, masks: Seq<Vec<u64>>, face: int, axis: int, slice: int)
    requires
        0 <= axis < 6,
        0 <= slice < CS,
    ensures
        visible_slice(masks, face, axis, slice).finite(),
        visible_slice(masks, face, axis, slice).len() == packed_area(
            slice_packed(c, masks, face, axis, slice),
        ),
{
    let cells = chunk_cells(c, masks, face, axis, slice);
    let rects = plane::greedy_cover(cells);
    plane::greedy_cover_exists(cells);
    plane::areas_sum_to_visible(cells, rects);
    lemma_area_of_rects(c, masks, face, axis, slice, rects.len());
    assert(rects.take(rects.len() as int) =~= rects);
    let quads = slice_packed(c, masks, face, axis, slice);
    assert(quads.take(rects.len() as int) =~= quads);
    let f = |p: (int, int)| mesh_cpu::slice_voxel(axis, slice, p.0, p.1);
    let faces = visible_slice(masks, face, axis, slice);
    let places = plane::visible_cells(cells);
    assert(places.map(f) =~= faces) by {
        assert forall|p: (int, int)| places.contains(p) implies faces.contains(#[trigger] f(p)) by {
            lemma_cell(c, masks, face, axis, slice, p.0, p.1);
        }
        assert forall|v: (int, int, int)| faces.contains(v) implies places.map(f).contains(v) by {
            let p = place_at(axis, v.0, v.1, v.2);
            lemma_cell(c, masks, face, axis, slice, p.0, p.1);
            assert(places.contains(p));
            assert(f(p) == v);
        }
    }
    vstd::set_lib::lemma_map_size(places, faces, f);
}

proof fn lemma_area_upto(c: BinaryChunk, masks: Seq<Vec<u64>>, face: int, axis: int, n: nat)
    requires
        0 <= axis < 6,
        n <= CS,
    ensures
        visible_before(masks, face, axis, n as int).finite(),
        visible_before(masks, face, axis, n as int).len() == packed_area(
            packed_upto(c, masks, face, axis, n),
        ),
    decreases n,
{
    if n == 0 {
        assert(visible_before(masks, face, axis, 0) =~= Set::empty());
    } else {
        let m = (n - 1) as nat;
        lemma_area_upto(c, masks, face, axis, m);
        lemma_slice_area(c, masks, face, axis, m as int);
        lemma_area_append(
            packed_upto(c, masks, face, axis, m),
            slice_packed(c, masks, face, axis, m as int),
        );
        let front = visible_before(masks, face, axis, m as int);
        let last = visible_slice(masks, face, axis, m as int);
        assert(visible_before(masks, face, axis, n as int) =~= front.union(last));
        assert(front.disjoint(last));
        vstd::set_lib::lemma_set_disjoint_lens(front, last);
    }
}

/// The quads of a direction have, in sum, as many cells as it has visible
/// faces.
pub proof fn merged_area_is_face_count(c: BinaryChunk, masks: Seq<Vec<u64>>, face: int, axis: int)
    requires
        0 <= axis < 6,
    ensures
        visible_set(masks, face).finite(),
        visible_set(masks, face).len() == packed_area(face_quads(c, masks, face, axis)),
{
    lemma_area_upto(c, masks, face, axis, CS as nat);
    assert(visible_before(masks, face, axis, CS as int) =~= visible_set(masks, face));
}

/// There are no more quads than a direction has faces.
pub proof fn face_quads_bound(c: BinaryChunk, masks: Seq<Vec<u64>>, face: int, axis: int, n: nat)
    ensures
        packed_upto(c, masks, face, axis, n).len() <= n * PLANE_CELLS,
    decreases n,
{
    if n > 0 {
        face_quads_bound(c, masks, face, axis, (n - 1) as nat);
        plane::cover_len_bound(chunk_cells(c, masks, face, axis, n - 1));
    }
}

/// All packed quads of a chunk, by face direction.
pub open spec fn are_chunk_quads(c: BinaryChunk, masks: Seq<Vec<u64>>, quads: Seq<Vec<u64>>) -> bool {
    &&& quads.len() == 6
    &&& forall|face: int|
        0 <= face < 6 ==> (#[trigger] quads[face])@ == face_quads(c, masks, face, face)
}

/// Merge the faces of all six directions.
pub fn merge_all(chunk: &BinaryChunk, masks: &FaceMasks) -> (quads: [Vec<u64>; 6])
    requires
        chunk.wf(),
        masks.wf(),
    ensures
        are_chunk_quads(*chunk, masks@, quads@),
{
    let mut q0: Vec<u64> = Vec::new();
    let mut q1: Vec<u64> = Vec::new();
    let mut q2: Vec<u64> = Vec::new();
    let mut q3: Vec<u64> = Vec::new();
    let mut q4: Vec<u64> = Vec::new();
    let mut q5: Vec<u64> = Vec::new();
    greedy_merge_y_faces(0, chunk, masks, &mut q0);
    greedy_merge_y_faces(1, chunk, masks, &mut q1);
    greedy_merge_x_faces(2, chunk, masks, &mut q2);
    greedy_merge_x_faces(3, chunk, masks, &mut q3);
    greedy_merge_z_faces(4, chunk, masks, &mut q4);
    greedy_merge_z_faces(5, chunk, masks, &mut q5);
    proof {
        lemma_same_axis(*chunk, masks@, 0, 0, 0, CS as nat);
        lemma_same_axis(*chunk, masks@, 1, 0, 1, CS as nat);
        lemma_same_axis(*chunk, masks@, 2, 2, 2, CS as nat);
        lemma_same_axis(*chunk, masks@, 3, 2, 3, CS as nat);
        lemma_same_axis(*chunk, masks@, 4, 4, 4, CS as nat);
        lemma_same_axis(*chunk, masks@, 5, 4, 5, CS as nat);
    }
    let quads: [Vec<u64>; 6] = [q0, q1, q2, q3, q4, q5];
    proof {
        assert(quads@[0] == q0 && quads@[1] == q1 && quads@[2] == q2 && quads@[3] == q3
            && quads@[4] == q4 && quads@[5] == q5);
    }
    quads
}

/// Both directions of an axis name it.
proof fn lemma_same_axis(
    c: BinaryChunk,
    masks: Seq<Vec<u64>>,
    face: int,
    axis: int,
    other: int,
    n: nat,
)
    requires
        0 <= axis < 6,
        0 <= other < 6,
        axis / 2 == other / 2,
    ensures
        packed_upto(c, masks, face, axis, n) == packed_upto(c, masks, face, other, n),
    decreases n,
{
    if n > 0 {
        lemma_same_axis(c, masks, face, axis, other, (n - 1) as nat);
        assert(chunk_cells(c, masks, face, axis, n - 1) =~= chunk_cells(
            c,
            masks,
            face,
            other,
            n - 1,
        ));
        assert(slice_packed(c, masks, face, axis, n - 1) =~= slice_packed(
            c,
            masks,
            face,
            other,
            n - 1,
        ));
    }
}

proof fn lemma_len_at_most_area(quads: Seq<u64>)
    requires
        forall|i: int|
            0 <= i < quads.len() ==> {
                let f = binary_chunk::unpacked(#[trigger] quads[i]);
                f.3 >= 1 && f.4 >= 1
            },
    ensures
        quads.len() <= packed_area(quads),
    decreases quads.len(),
{
    if quads.len() > 0 {
        let rest = quads.drop_last();
        assert forall|i: int| 0 <= i < rest.len() implies {
            let f = binary_chunk::unpacked(#[trigger] rest[i]);
            f.3 >= 1 && f.4 >= 1
        } by {
            assert(rest[i] == quads[i]);
        }
        lemma_len_at_most_area(rest);
        let f = binary_chunk::unpacked(quads[quads.len() - 1]);
        let w = f.3;
        let h = f.4;
        assert(1 <= w * h) by (nonlinear_arith)
            requires
                w >= 1,
                h >= 1,
        ;
    }
}

/// Merging never makes more quads than a direction has visible faces.
pub proof fn merging_never_adds_quads(c: BinaryChunk, masks: Seq<Vec<u64>>, face: int, axis: int)
    requires
        0 <= axis < 6,
    ensures
        face_quads(c, masks, face, axis).len() <= visible_set(masks, face).len(),
{
    let quads = face_quads(c, masks, face, axis);
    merged_area_is_face_count(c, masks, face, axis);
    assert forall|i: int| 0 <= i < quads.len() implies {
        let f = binary_chunk::unpacked(#[trigger] quads[i]);
        f.3 >= 1 && f.4 >= 1
    } by {
        let at = lemma_located(c, masks, face, axis, CS as nat, i);
        lemma_rect(c, masks, face, axis, at.0, at.1);
        lemma_packed_rect(c, masks, face, axis, at.0, at.1, 0, 0, 0);
    }
    lemma_len_at_most_area(quads);
}

/// The slice that a packed quad lies in.
pub open spec fn quad_slice(q: u64, axis: int) -> int {
    let f = binary_chunk::unpacked(q);
    if axis < 2 {
        f.1
    } else if axis < 4 {
        f.0
    } else {
        f.2
    }
}

proof fn lemma_quad_slice(
    c: BinaryChunk,
    masks: Seq<Vec<u64>>,
    face: int,
    axis: int,
    slice: int,
    i: int,
)
    requires
        0 <= axis < 6,
        0 <= slice < CS,
        0 <= i < slice_packed(c, masks, face, axis, slice).len(),
    ensures
        quad_slice(slice_packed(c, masks, face, axis, slice)[i], axis) == slice,
{
    lemma_rect(c, masks, face, axis, slice, i);
    let r = slice_rects(c, masks, face, axis, slice)[i];
    let v = mesh_cpu::slice_voxel(axis, slice, r.a as int, r.b as int);
    binary_chunk::pack_roundtrip(
        v.0,
        v.1,
        v.2,
        r.width as int,
        r.height as int,
        r.material as int,
    );
}

/// The quads of a direction come slice by slice, from the lowest up.
pub proof fn slices_come_in_order(
    c: BinaryChunk,
    masks: Seq<Vec<u64>>,
    face: int,
    axis: int,
    i: int,
    j: int,
)
    requires
        0 <= axis < 6,
        0 <= i < j < face_quads(c, masks, face, axis).len(),
    ensures
        quad_slice(face_quads(c, masks, face, axis)[i], axis) <= quad_slice(
            face_quads(c, masks, face, axis)[j],
            axis,
        ),
{
    lemma_slices_in_order(c, masks, face, axis, CS as nat, i, j);
}

proof fn lemma_slices_in_order(
    c: BinaryChunk,
    masks: Seq<Vec<u64>>,
    face: int,
    axis: int,
    n: nat,
    i: int,
    j: int,
)
    requires
        0 <= axis < 6,
        n <= CS,
        0 <= i < j < packed_upto(c, masks, face, axis, n).len(),
    ensures
        quad_slice(packed_upto(c, masks, face, axis, n)[i], axis) <= quad_slice(
            packed_upto(c, masks, face, axis, n)[j],
            axis,
        ),
    decreases n,
{
    let front = packed_upto(c, masks, face, axis, (n - 1) as nat);
    if j < front.len() {
        lemma_slices_in_order(c, masks, face, axis, (n - 1) as nat, i, j);
    } else {
        lemma_quad_slice(c, masks, face, axis, n - 1, j - front.len());
        if i < front.len() {
            let at = lemma_located(c, masks, face, axis, (n - 1) as nat, i);
            lemma_quad_slice(c, masks, face, axis, at.0, at.1);
        } else {
            lemma_quad_slice(c, masks, face, axis, n - 1, i - front.len());
        }
    }
}

} // verus!
