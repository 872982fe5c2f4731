//! What holds of merged meshes as a whole: every visible face is covered by
//! exactly one quad, and no quad covers anything else.

use vstd::prelude::*;

use crate::bits;
use crate::ieee;
use crate::mesh_cpu;
use crate::mesh_cpu::{MeshResult, Quad};
use crate::occupancy;
use crate::plane;
use crate::plane::Rect;
use crate::pool::{
    COLUMNS_PER_CHUNK, CS, FACE_NEG_X, FACE_NEG_Y, FACE_NEG_Z, FACE_POS_X, FACE_POS_Y, FACE_POS_Z,
    OCCUPANCY_WORDS_PER_SLOT,
};

verus! {

/// Whether a quad covers the face of a usable voxel, on the quad's own side.
pub open spec fn quad_covers(q: Quad, x: int, y: int, z: int) -> bool {
    if q.face < 2 {
        q.x <= x < q.x + q.width && y == q.y && q.z <= z < q.z + q.height
    } else if q.face < 4 {
        x == q.x && q.y <= y < q.y + q.width && q.z <= z < q.z + q.height
    } else {
        q.x <= x < q.x + q.width && q.y <= y < q.y + q.height && z == q.z
    }
}

/// Whether the face of a usable voxel is visible.
pub open spec fn visible(masks: Seq<Vec<u64>>, face: int, x: int, y: int, z: int) -> bool {
    &&& 0 <= face < 6 && 0 <= x < CS && 0 <= y < CS && 0 <= z < CS
    &&& mesh_cpu::mask_bit(masks, face, x + 1, y, z + 1)
}

spec fn slice_of(face: int, x: int, y: int, z: int) -> int {
    if face < 2 {
        y
    } else if face < 4 {
        x
    } else {
        z
    }
}

spec fn place_of(face: int, x: int, y: int, z: int) -> (int, int) {
    if face < 2 {
        (x, z)
    } else if face < 4 {
        (y, z)
    } else {
        (x, y)
    }
}

proof fn lemma_slice_cell(
    masks: Seq<Vec<u64>>,
    palette: Seq<u32>,
    index_buf: Seq<u32>,
    bpe: int,
    face: int,
    slice: int,
    a: int,
    b: int,
)
    requires
        plane::in_plane(a, b),
    ensures
        plane::cell(
            mesh_cpu::slice_cells(masks, palette, index_buf, bpe, face, slice),
            a,
            b,
        ) == mesh_cpu::slice_cell(masks, palette, index_buf, bpe, face, slice, a, b),
{
    let i = plane::cell_index(a, b);
    assert(i / (CS as int) == a && i % (CS as int) == b);
}

/// Facts on one rectangle of a slice and its quad.
proof fn lemma_slice_quad(
    masks: Seq<Vec<u64>>,
    palette: Seq<u32>,
    index_buf: Seq<u32>,
    bpe: int,
    face: int,
    slice: int,
    i: int,
    x: int,
    y: int,
    z: int,
)
    requires
        0 <= face < 6,
        0 <= slice < CS,
        0 <= i < mesh_cpu::slice_quads(masks, palette, index_buf, bpe, face, slice).len(),
    ensures
        ({
            let q = mesh_cpu::slice_quads(masks, palette, index_buf, bpe, face, slice)[i];
            let r = plane::greedy_cover(
                mesh_cpu::slice_cells(masks, palette, index_buf, bpe, face, slice),
            )[i];
            let p = place_of(face, x, y, z);
            &&& q.face == face
            &&& quad_covers(q, x, y, z) <==> slice_of(face, x, y, z) == slice && r.contains(
                p.0,
                p.1,
            )
            &&& q.width == r.width && q.height == r.height
            &&& quad_covers(q, x, y, z) ==> visible(masks, face, x, y, z) && q.material_id
                == mesh_cpu::material_id(palette, index_buf, bpe, x + 1, y + 1, z + 1) as u32 % 256
            &&& quad_covers(q, x, y, z) ==> mesh_cpu::material_id(
                palette,
                index_buf,
                bpe,
                x + 1,
                y + 1,
                z + 1,
            ) == r.material
        }),
{
    let cells = mesh_cpu::slice_cells(masks, palette, index_buf, bpe, face, slice);
    let rects = plane::greedy_cover(cells);
    let r = rects[i];
    let q = mesh_cpu::slice_quads(masks, palette, index_buf, bpe, face, slice)[i];
    plane::greedy_cover_exists(cells);
    assert(plane::is_next(cells, rects.take(i), rects[i]));
    assert(plane::joinable(cells, rects.take(i), r.a + 0, r.b as int, r.material));
    assert(q == mesh_cpu::rect_quad(face, slice, r));
    let p = place_of(face, x, y, z);
    if quad_covers(q, x, y, z) {
        plane::rects_are_uniform(cells, rects, i, p.0, p.1);
        lemma_slice_cell(masks, palette, index_buf, bpe, face, slice, p.0, p.1);
    }
}

/// The slice and the place in it that a merged quad comes from.
proof fn lemma_locate(
    masks: Seq<Vec<u64>>,
    palette: Seq<u32>,
    index_buf: Seq<u32>,
    bpe: int,
    n: nat,
    k: int,
) -> (at: (int, int))
    requires
        n <= mesh_cpu::ALL_SLICES,
        0 <= k < mesh_cpu::merged_quads(masks, palette, index_buf, bpe, n).len(),
    ensures
        0 <= at.0 < n,
        ({
            let part = mesh_cpu::slice_quads(
                masks,
                palette,
                index_buf,
                bpe,
                at.0 / (CS as int),
                at.0 % (CS as int),
            );
            0 <= at.1 < part.len() && part[at.1] == mesh_cpu::merged_quads(
                masks,
                palette,
                index_buf,
                bpe,
                n,
            )[k]
        }),
    decreases n,
{
    let m = (n - 1) as nat;
    let front = mesh_cpu::merged_quads(masks, palette, index_buf, bpe, m);
    if k < front.len() {
        lemma_locate(masks, palette, index_buf, bpe, m, k)
    } else {
        (m as int, k - front.len())
    }
}

/// A quad of a slice stands among the merged quads.
proof fn lemma_included(
    masks: Seq<Vec<u64>>,
    palette: Seq<u32>,
    index_buf: Seq<u32>,
    bpe: int,
    n: nat,
    j: int,
    i: int,
) -> (k: int)
    requires
        0 <= j < n,
        0 <= i < mesh_cpu::slice_quads(
            masks,
            palette,
            index_buf,
            bpe,
            j / (CS as int),
            j % (CS as int),
        ).len(),
    ensures
        0 <= k < mesh_cpu::merged_quads(masks, palette, index_buf, bpe, n).len(),
        mesh_cpu::merged_quads(masks, palette, index_buf, bpe, n)[k] == mesh_cpu::slice_quads(
            masks,
            palette,
            index_buf,
            bpe,
            j / (CS as int),
            j % (CS as int),
        )[i],
    decreases n,
{
    let m = (n - 1) as nat;
    let front = mesh_cpu::merged_quads(masks, palette, index_buf, bpe, m);
    if j < m {
        lemma_included(masks, palette, index_buf, bpe, m, j, i)
    } else {
        front.len() + i
    }
}

/// Every visible face is covered by a merged quad.
pub proof fn every_visible_face_is_covered(
    masks: Seq<Vec<u64>>,
    palette: Seq<u32>,
    index_buf: Seq<u32>,
    bpe: int,
    face: int,
    x: int,
    y: int,
    z: int,
)
    requires
        visible(masks, face, x, y, z),
    ensures
        exists|k: int|
            0 <= k < mesh_cpu::chunk_quads(masks, palette, index_buf, bpe).len() && (
            #[trigger] mesh_cpu::chunk_quads(masks, palette, index_buf, bpe)[k]).face == face
                && quad_covers(
                mesh_cpu::chunk_quads(masks, palette, index_buf, bpe)[k],
                x,
                y,
                z,
            ),
{
    let slice = slice_of(face, x, y, z);
    let p = place_of(face, x, y, z);
    let cells = mesh_cpu::slice_cells(masks, palette, index_buf, bpe, face, slice);
    let rects = plane::greedy_cover(cells);
    plane::greedy_cover_exists(cells);
    lemma_slice_cell(masks, palette, index_buf, bpe, face, slice, p.0, p.1);
    assert(plane::in_plane(p.0, p.1));
    assert(plane::covered(rects, p.0, p.1));
    let i = choose|i: int| 0 <= i < rects.len() && (#[trigger] rects[i]).contains(p.0, p.1);
    lemma_slice_quad(masks, palette, index_buf, bpe, face, slice, i, x, y, z);
    let j = face * CS + slice;
    assert(j / (CS as int) == face && j % (CS as int) == slice);
    let k = lemma_included(
        masks,
        palette,
        index_buf,
        bpe,
        mesh_cpu::ALL_SLICES as nat,
        j,
        i,
    );
    let quads = mesh_cpu::chunk_quads(masks, palette, index_buf, bpe);
    assert(quads[k].face == face);
}

/// A merged quad covers visible faces of its own direction and material only,
/// and nothing outside the usable interior. The quad keeps the lowest eight bits
/// of the material.
pub proof fn quads_cover_only_visible_faces(
    masks: Seq<Vec<u64>>,
    palette: Seq<u32>,
    index_buf: Seq<u32>,
    bpe: int,
    k: int,
    x: int,
    y: int,
    z: int,
)
    requires
        0 <= k < mesh_cpu::chunk_quads(masks, palette, index_buf, bpe).len(),
        quad_covers(
            mesh_cpu::chunk_quads(masks, palette, index_buf, bpe)[k],
            x,
            y,
            z,
        ),
    ensures
        ({
            let q = mesh_cpu::chunk_quads(masks, palette, index_buf, bpe)[k];
            &&& visible(masks, q.face as int, x, y, z)
            &&& q.material_id == mesh_cpu::material_id(
                palette,
                index_buf,
                bpe,
                x + 1,
                y + 1,
                z + 1,
            ) as u32 % 256
        }),
{
    let at = lemma_locate(masks, palette, index_buf, bpe, mesh_cpu::ALL_SLICES as nat, k);
    lemma_slice_quad(
        masks,
        palette,
        index_buf,
        bpe,
        at.0 / (CS as int),
        at.0 % (CS as int),
        at.1,
        x,
        y,
        z,
    );
}

/// All voxels under a merged quad have the same material, in full.
pub proof fn quad_voxels_share_material(
    masks: Seq<Vec<u64>>,
    palette: Seq<u32>,
    index_buf: Seq<u32>,
    bpe: int,
    k: int,
    x: int,
    y: int,
    z: int,
    x2: int,
    y2: int,
    z2: int,
)
    requires
        0 <= k < mesh_cpu::chunk_quads(masks, palette, index_buf, bpe).len(),
        quad_covers(mesh_cpu::chunk_quads(masks, palette, index_buf, bpe)[k], x, y, z),
        quad_covers(mesh_cpu::chunk_quads(masks, palette, index_buf, bpe)[k], x2, y2, z2),
    ensures
        mesh_cpu::material_id(palette, index_buf, bpe, x + 1, y + 1, z + 1)
            == mesh_cpu::material_id(palette, index_buf, bpe, x2 + 1, y2 + 1, z2 + 1),
{
    let at = lemma_locate(masks, palette, index_buf, bpe, mesh_cpu::ALL_SLICES as nat, k);
    let face = at.0 / (CS as int);
    let slice = at.0 % (CS as int);
    lemma_slice_quad(masks, palette, index_buf, bpe, face, slice, at.1, x, y, z);
    lemma_slice_quad(masks, palette, index_buf, bpe, face, slice, at.1, x2, y2, z2);
}

proof fn lemma_disjoint(
    masks: Seq<Vec<u64>>,
    palette: Seq<u32>,
    index_buf: Seq<u32>,
    bpe: int,
    n: nat,
    j: int,
    k: int,
    x: int,
    y: int,
    z: int,
)
    requires
        n <= mesh_cpu::ALL_SLICES,
        0 <= j < k < mesh_cpu::merged_quads(masks, palette, index_buf, bpe, n).len(),
    ensures
        ({
            let quads = mesh_cpu::merged_quads(masks, palette, index_buf, bpe, n);
            !(quads[j].face == quads[k].face && quad_covers(quads[j], x, y, z) && quad_covers(
                quads[k],
                x,
                y,
                z,
            ))
        }),
    decreases n,
{
    let quads = mesh_cpu::merged_quads(masks, palette, index_buf, bpe, n);
    let m = (n - 1) as nat;
    let front = mesh_cpu::merged_quads(masks, palette, index_buf, bpe, m);
    let face = m as int / (CS as int);
    let slice = m as int % (CS as int);
    if quads[j].face == quads[k].face && quad_covers(quads[j], x, y, z) && quad_covers(
        quads[k],
        x,
        y,
        z,
    ) {
        if k < front.len() {
            lemma_disjoint(masks, palette, index_buf, bpe, m, j, k, x, y, z);
        } else {
            let i = k - front.len();
            lemma_slice_quad(masks, palette, index_buf, bpe, face, slice, i, x, y, z);
            if j < front.len() {
                let at = lemma_locate(masks, palette, index_buf, bpe, m, j);
                lemma_slice_quad(
                    masks,
                    palette,
                    index_buf,
                    bpe,
                    at.0 / (CS as int),
                    at.0 % (CS as int),
                    at.1,
                    x,
                    y,
                    z,
                );
            } else {
                let h = j - front.len();
                let cells = mesh_cpu::slice_cells(masks, palette, index_buf, bpe, face, slice);
                lemma_slice_quad(masks, palette, index_buf, bpe, face, slice, h, x, y, z);
                plane::greedy_cover_exists(cells);
                let p = place_of(face, x, y, z);
                plane::rects_are_disjoint(cells, plane::greedy_cover(cells), h, i, p.0, p.1);
            }
        }
    }
}

/// No face is covered by two merged quads.
pub proof fn quads_are_disjoint(
    masks: Seq<Vec<u64>>,
    palette: Seq<u32>,
    index_buf: Seq<u32>,
    bpe: int,
    j: int,
    k: int,
    x: int,
    y: int,
    z: int,
)
    requires
        ({
            let quads = mesh_cpu::chunk_quads(masks, palette, index_buf, bpe);
            &&& 0 <= j < quads.len() && 0 <= k < quads.len()
            &&& quads[j].face == quads[k].face
            &&& quad_covers(quads[j], x, y, z) && quad_covers(quads[k], x, y, z)
        }),
    ensures
        j == k,
{
    if j < k {
        lemma_disjoint(
            masks,
            palette,
            index_buf,
            bpe,
            mesh_cpu::ALL_SLICES as nat,
            j,
            k,
            x,
            y,
            z,
        );
    } else if k < j {
        lemma_disjoint(
            masks,
            palette,
            index_buf,
            bpe,
            mesh_cpu::ALL_SLICES as nat,
            k,
            j,
            x,
            y,
            z,
        );
    }
}

/// The summed areas of quads.
pub open spec fn quad_area(quads: Seq<Quad>) -> int
    decreases quads.len(),
{
    if quads.len() == 0 {
        0
    } else {
        quad_area(quads.drop_last()) + quads.last().width * quads.last().height
    }
}

/// The visible faces of a chunk: direction and usable voxel.
pub open spec fn visible_faces(masks: Seq<Vec<u64>>) -> Set<(int, int, int, int)> {
    Set::new(|f: (int, int, int, int)| visible(masks, f.0, f.1, f.2, f.3))
}

spec fn faces_of_slices(masks: Seq<Vec<u64>>, n: int) -> Set<(int, int, int, int)> {
    Set::new(
        |f: (int, int, int, int)|
            visible(masks, f.0, f.1, f.2, f.3) && f.0 * CS + slice_of(f.0, f.1, f.2, f.3) < n,
    )
}

spec fn faces_of_slice(masks: Seq<Vec<u64>>, face: int, slice: int) -> Set<(int, int, int, int)> {
    Set::new(
        |f: (int, int, int, int)|
            visible(masks, f.0, f.1, f.2, f.3) && f.0 == face && slice_of(f.0, f.1, f.2, f.3)
                == slice,
    )
}

proof fn lemma_quad_area_append(front: Seq<Quad>, back: Seq<Quad>)
    ensures
        quad_area(front + back) == quad_area(front) + quad_area(back),
    decreases back.len(),
{
    if back.len() == 0 {
        assert(front + back =~= front);
    } else {
        lemma_quad_area_append(front, back.drop_last());
        assert((front + back).drop_last() =~= front + back.drop_last());
    }
}

proof fn lemma_quad_area_of_rects(face: int, slice: int, rects: Seq<Rect>)
    ensures
        quad_area(rects.map_values(|r: Rect| mesh_cpu::rect_quad(face, slice, r)))
            == plane::total_area(rects),
    decreases rects.len(),
{
    let quads = rects.map_values(|r: Rect| mesh_cpu::rect_quad(face, slice, r));
    if rects.len() > 0 {
        lemma_quad_area_of_rects(face, slice, rects.drop_last());
        assert(quads.drop_last() =~= rects.drop_last().map_values(
            |r: Rect| mesh_cpu::rect_quad(face, slice, r),
        ));
    }
}

proof fn lemma_slice_area(
    masks: Seq<Vec<u64>>,
    palette: Seq<u32>,
    index_buf: Seq<u32>,
    bpe: int,
    face: int,
    slice: int,
)
    requires
        0 <= face < 6,
        0 <= slice < CS,
    ensures
        faces_of_slice(masks, face, slice).finite(),
        faces_of_slice(masks, face, slice).len() == quad_area(
            mesh_cpu::slice_quads(masks, palette, index_buf, bpe, face, slice),
        ),
{
    let cells = mesh_cpu::slice_cells(masks, palette, index_buf, bpe, face, slice);
    let rects = plane::greedy_cover(cells);
    plane::greedy_cover_exists(cells);
    plane::areas_sum_to_visible(cells, rects);
    lemma_quad_area_of_rects(face, slice, rects);
    let f = |c: (int, int)|
        {
            let v = mesh_cpu::slice_voxel(face, slice, c.0, c.1);
            (face, v.0, v.1, v.2)
        };
    let faces = faces_of_slice(masks, face, slice);
    let places = plane::visible_cells(cells);
    assert(places.map(f) =~= faces) by {
        assert forall|c: (int, int)| places.contains(c) implies faces.contains(#[trigger] f(c)) by {
            lemma_slice_cell(masks, palette, index_buf, bpe, face, slice, c.0, c.1);
        }
        assert forall|g: (int, int, int, int)| faces.contains(g) implies places.map(f).contains(
            g,
        ) by {
            let p = place_of(face, g.1, g.2, g.3);
            lemma_slice_cell(masks, palette, index_buf, bpe, face, slice, p.0, p.1);
            assert(places.contains(p));
            assert(f(p) == g);
        }
    }
    vstd::set_lib::lemma_map_size(places, faces, f);
}

proof fn lemma_area_upto(
    masks: Seq<Vec<u64>>,
    palette: Seq<u32>,
    index_buf: Seq<u32>,
    bpe: int,
    n: nat,
)
    requires
        n <= mesh_cpu::ALL_SLICES,
    ensures
        faces_of_slices(masks, n as int).finite(),
        faces_of_slices(masks, n as int).len() == quad_area(
            mesh_cpu::merged_quads(masks, palette, index_buf, bpe, n),
        ),
    decreases n,
{
    if n == 0 {
        assert(faces_of_slices(masks, 0) =~= Set::empty());
    } else {
        let m = (n - 1) as nat;
        let face = m as int / (CS as int);
        let slice = m as int % (CS as int);
        lemma_area_upto(masks, palette, index_buf, bpe, m);
        lemma_slice_area(masks, palette, index_buf, bpe, face, slice);
        lemma_quad_area_append(
            mesh_cpu::merged_quads(masks, palette, index_buf, bpe, m),
            mesh_cpu::slice_quads(masks, palette, index_buf, bpe, face, slice),
        );
        let front = faces_of_slices(masks, m as int);
        let last = faces_of_slice(masks, face, slice);
        assert(faces_of_slices(masks, n as int) =~= front.union(last));
        assert(front.disjoint(last));
        vstd::set_lib::lemma_set_disjoint_lens(front, last);
    }
}

/// The merged quads have, in sum, as many cells as there are visible faces.
pub proof fn quad_area_is_face_count(
    masks: Seq<Vec<u64>>,
    palette: Seq<u32>,
    index_buf: Seq<u32>,
    bpe: int,
)
    ensures
        visible_faces(masks).finite(),
        visible_faces(masks).len() == quad_area(
            mesh_cpu::chunk_quads(masks, palette, index_buf, bpe),
        ),
{
    lemma_area_upto(masks, palette, index_buf, bpe, mesh_cpu::ALL_SLICES as nat);
    assert(faces_of_slices(masks, mesh_cpu::ALL_SLICES as int) =~= visible_faces(masks));
}

/// There are at most as many merged quads as a chunk has faces.
pub proof fn quad_count_bound(
    masks: Seq<Vec<u64>>,
    palette: Seq<u32>,
    index_buf: Seq<u32>,
    bpe: int,
    n: nat,
)
    ensures
        mesh_cpu::merged_quads(masks, palette, index_buf, bpe, n).len() <= n * CS * CS,
    decreases n,
{
    if n > 0 {
        let m = (n - 1) as nat;
        quad_count_bound(masks, palette, index_buf, bpe, m);
        plane::cover_len_bound(
            mesh_cpu::slice_cells(
                masks,
                palette,
                index_buf,
                bpe,
                m as int / (CS as int),
                m as int % (CS as int),
            ),
        );
    }
}

/// The usable voxels with an exposed face of one direction, in padded
/// coordinates.
pub open spec fn exposed_set(words: Seq<u32>, face: int) -> Set<(int, int, int)> {
    Set::new(
        |v: (int, int, int)|
            1 <= v.0 <= CS && 1 <= v.1 <= CS && 1 <= v.2 <= CS && mesh_cpu::exposed(
                words,
                face,
                v.0,
                v.1,
                v.2,
            ),
    )
}

/// Counting the bits of a face mask counts the exposed faces.
pub proof fn mask_bits_count_exposed_faces(words: Seq<u32>, masks: Seq<Vec<u64>>, face: int)
    requires
        mesh_cpu::are_face_masks(words, masks),
        0 <= face < 6,
    ensures
        exposed_set(words, face).finite(),
        exposed_set(words, face).len() == bits::ones_sum(masks[face]@),
        bits::ones_sum(masks[face]@) <= 64 * COLUMNS_PER_CHUNK,
{
    let m = masks[face]@;
    bits::ones_sum_counts_positions(m);
    bits::lemma_ones_sum_prefix(m, 0);
    assert(m.take(0) =~= Seq::empty());
    let f = |p: (int, int)| (p.0 / 64, p.1 + 1, p.0 % 64);
    let positions = bits::ones_set(m);
    let voxels = exposed_set(words, face);
    assert(positions.map(f) =~= voxels) by {
        assert forall|p: (int, int)| positions.contains(p) implies voxels.contains(
            #[trigger] f(p),
        ) by {
            let v = f(p);
            assert(mesh_cpu::mask_bit(masks, face, v.0, p.1, v.2));
        }
        assert forall|v: (int, int, int)| voxels.contains(v) implies positions.map(f).contains(
            v,
        ) by {
            let p = (occupancy::column_index(v.0, v.2), v.1 - 1);
            assert(mesh_cpu::mask_bit(masks, face, v.0, v.1 - 1, v.2));
            assert(positions.contains(p));
            assert(f(p) == v);
        }
    }
    vstd::set_lib::lemma_map_size(positions, voxels, f);
}

/// No voxel of the padding is occupied.
pub open spec fn border_is_empty(words: Seq<u32>) -> bool {
    forall|x: int, y: int, z: int|
        occupancy::in_chunk(x, y, z) && (x == 0 || x == 63 || y == 0 || y == 63 || z == 0 || z
            == 63) ==> !#[trigger] occupancy::occupied(words, x, y, z)
}

/// Faces of opposite directions are equally many: along the axis, every run of
/// voxels has one front and one back.
proof fn lemma_opposite_faces(words: Seq<u32>, face: int)
    requires
        words.len() == OCCUPANCY_WORDS_PER_SLOT,
        border_is_empty(words),
        face == 0 || face == 2 || face == 4,
    ensures
        exposed_set(words, face).len() == exposed_set(words, face + 1).len(),
{
    occupancy::occupied_set_len(words);
    let d = mesh_cpu::face_step(face);
    let all = occupancy::occupied_set(words);
    let ahead = |v: (int, int, int)| (v.0 + d.0, v.1 + d.1, v.2 + d.2);
    let followed = all.filter(|v: (int, int, int)| all.contains((v.0 + d.0, v.1 + d.1, v.2 + d.2)));
    let preceded = all.filter(|v: (int, int, int)| all.contains((v.0 - d.0, v.1 - d.1, v.2 - d.2)));
    assert(followed.map(ahead) =~= preceded) by {
        assert forall|v: (int, int, int)| preceded.contains(v) implies followed.map(ahead).contains(
            v,
        ) by {
            let u = (v.0 - d.0, v.1 - d.1, v.2 - d.2);
            assert(ahead(u) == v);
            assert(followed.contains(u));
        }
    }
    vstd::set_lib::lemma_map_size(followed, preceded, ahead);
    assert(exposed_set(words, face) =~= all.difference(followed)) by {
        assert forall|v: (int, int, int)| exposed_set(words, face).contains(v)
            == all.difference(followed).contains(v) by {
            if all.contains(v) {
                assert(!(v.0 == 0 || v.0 == 63 || v.1 == 0 || v.1 == 63 || v.2 == 0 || v.2 == 63));
            }
        }
    }
    assert(exposed_set(words, face + 1) =~= all.difference(preceded)) by {
        assert forall|v: (int, int, int)| exposed_set(words, face + 1).contains(v)
            == all.difference(preceded).contains(v) by {
            if all.contains(v) {
                assert(!(v.0 == 0 || v.0 == 63 || v.1 == 0 || v.1 == 63 || v.2 == 0 || v.2 == 63));
            }
        }
    }
    lemma_difference_len(all, followed);
    lemma_difference_len(all, preceded);
}

/// Taking a part out of a finite set takes its size away.
proof fn lemma_difference_len(s: Set<(int, int, int)>, part: Set<(int, int, int)>)
    requires
        s.finite(),
        part.subset_of(s),
    ensures
        s.difference(part).len() + part.len() == s.len(),
{
    vstd::set_lib::lemma_len_subset(part, s);
    let rest = s.difference(part);
    assert(rest.union(part) =~= s);
    assert(rest.disjoint(part));
    vstd::set_lib::lemma_set_disjoint_lens(rest, part);
}

/// A chunk with empty padding has as many faces in each direction as in the
/// opposite one.
pub proof fn opposite_directions_have_equally_many_faces(words: Seq<u32>, masks: Seq<Vec<u64>>)
    requires
        words.len() == OCCUPANCY_WORDS_PER_SLOT,
        mesh_cpu::are_face_masks(words, masks),
        border_is_empty(words),
    ensures
        bits::ones_sum(masks[FACE_POS_X as int]@) == bits::ones_sum(masks[FACE_NEG_X as int]@),
        bits::ones_sum(masks[FACE_POS_Y as int]@) == bits::ones_sum(masks[FACE_NEG_Y as int]@),
        bits::ones_sum(masks[FACE_POS_Z as int]@) == bits::ones_sum(masks[FACE_NEG_Z as int]@),
{
    assert forall|face: int| 0 <= face < 6 implies exposed_set(words, face).len()
        == bits::ones_sum((#[trigger] masks[face])@) by {
        mask_bits_count_exposed_faces(words, masks, face);
    }
    lemma_opposite_faces(words, 0);
    lemma_opposite_faces(words, 2);
    lemma_opposite_faces(words, 4);
}

/// Merged quads have a direction, a size of at least one and usable
/// coordinates.
pub proof fn quads_are_usable(
    masks: Seq<Vec<u64>>,
    palette: Seq<u32>,
    index_buf: Seq<u32>,
    bpe: int,
)
    ensures
        forall|k: int|
            0 <= k < mesh_cpu::chunk_quads(masks, palette, index_buf, bpe).len() ==> {
                let q = #[trigger] mesh_cpu::chunk_quads(masks, palette, index_buf, bpe)[k];
                &&& q.face < 6
                &&& q.width >= 1 && q.height >= 1
                &&& q.x < CS && q.y < CS && q.z < CS
            },
{
    assert forall|k: int|
        0 <= k < mesh_cpu::chunk_quads(masks, palette, index_buf, bpe).len() implies {
        let q = #[trigger] mesh_cpu::chunk_quads(masks, palette, index_buf, bpe)[k];
        &&& q.face < 6
        &&& q.width >= 1 && q.height >= 1
        &&& q.x < CS && q.y < CS && q.z < CS
    } by {
        let q = mesh_cpu::chunk_quads(masks, palette, index_buf, bpe)[k];
        let at = lemma_locate(masks, palette, index_buf, bpe, mesh_cpu::ALL_SLICES as nat, k);
        let face = at.0 / (CS as int);
        let slice = at.0 % (CS as int);
        let cells = mesh_cpu::slice_cells(masks, palette, index_buf, bpe, face, slice);
        let rects = plane::greedy_cover(cells);
        plane::greedy_cover_exists(cells);
        assert(plane::is_next(cells, rects.take(at.1), rects[at.1]));
        let r = rects[at.1];
        assert(plane::joinable(cells, rects.take(at.1), r.a + 0, r.b as int, r.material));
    }
}

/// The merged quads depend on the occupancy alone, not on how its face masks
/// are stored.
pub proof fn occupancy_determines_quads(
    words: Seq<u32>,
    masks: Seq<Vec<u64>>,
    other: Seq<Vec<u64>>,
    palette: Seq<u32>,
    index_buf: Seq<u32>,
    bpe: int,
    n: nat,
)
    requires
        mesh_cpu::are_face_masks(words, masks),
        mesh_cpu::are_face_masks(words, other),
        n <= mesh_cpu::ALL_SLICES,
    ensures
        mesh_cpu::merged_quads(masks, palette, index_buf, bpe, n) == mesh_cpu::merged_quads(
            other,
            palette,
            index_buf,
            bpe,
            n,
        ),
    decreases n,
{
    if n > 0 {
        let m = (n - 1) as nat;
        let face = m as int / (CS as int);
        let slice = m as int % (CS as int);
        occupancy_determines_quads(words, masks, other, palette, index_buf, bpe, m);
        let x = mesh_cpu::slice_cells(masks, palette, index_buf, bpe, face, slice);
        let y = mesh_cpu::slice_cells(other, palette, index_buf, bpe, face, slice);
        assert forall|i: int| 0 <= i < x.len() implies x[i] == y[i] by {
            let v = mesh_cpu::slice_voxel(face, slice, i / (CS as int), i % (CS as int));
            assert(mesh_cpu::mask_bit(masks, face, v.0 + 1, v.1, v.2 + 1) == mesh_cpu::mask_bit(
                other,
                face,
                v.0 + 1,
                v.1,
                v.2 + 1,
            ));
        }
        assert(x =~= y);
    }
}

/// Cross product of the edges from corner `i` to corners `j` and `k` of a quad.
pub open spec fn corner_cross(q: Quad, i: int, j: int, k: int) -> (int, int, int) {
    let o = mesh_cpu::corner_offset(q, i);
    let p = mesh_cpu::corner_offset(q, j);
    let r = mesh_cpu::corner_offset(q, k);
    let e = (p.0 - o.0, p.1 - o.1, p.2 - o.2);
    let f = (r.0 - o.0, r.1 - o.1, r.2 - o.2);
    (e.1 * f.2 - e.2 * f.1, e.2 * f.0 - e.0 * f.2, e.0 * f.1 - e.1 * f.0)
}

/// Both triangles of a quad wind counter-clockwise as seen from outside: their
/// cross products are the face normal times the quad's area.
pub proof fn winding_faces_outward(q: Quad)
    requires
        q.face < 6,
    ensures
        ({
            let n = mesh_cpu::face_step(q.face as int);
            let area = q.width as int * q.height as int;
            &&& corner_cross(q, 0, 1, 2) == (n.0 * area, n.1 * area, n.2 * area)
            &&& corner_cross(q, 0, 2, 3) == (n.0 * area, n.1 * area, n.2 * area)
        }),
{
    let w = q.width as int;
    let h = q.height as int;
    lemma_cross_products(w, h);
}

proof fn lemma_cross_products(w: int, h: int)
    by (nonlinear_arith)
    ensures
        w * h == h * w,
        0 * w == 0 && w * 0 == 0 && 0 * h == 0 && h * 0 == 0 && 0 * 0 == 0,
        0 * (w * h) == 0 && 1 * (w * h) == w * h && (-1) * (w * h) == -(w * h),
{
}

/// Near the origin no vertex position is rounded.
pub proof fn nearby_positions_are_exact(c: int, u: int, d: int)
    requires
        -200_000 <= c <= 200_000,
        0 <= u <= CS,
        0 <= d <= CS,
    ensures
        mesh_cpu::moved(mesh_cpu::base_position(c, u), d) == c * CS + u + 1 + d,
{
    ieee::small_integers_are_exact(c);
    ieee::small_integers_are_exact(c * CS);
    ieee::small_integers_are_exact(u + 1);
    ieee::small_integers_are_exact(c * CS + u + 1);
    ieee::small_integers_are_exact(d);
    ieee::small_integers_are_exact(c * CS + u + 1 + d);
}

/// Whether a unit step or extent along one axis lies between four corners. Along
/// the normal's axis all corners lie on the far side of the voxel where the
/// normal points that way, and on the near side where it points back.
pub open spec fn axis_between(a: int, b: int, c: int, d: int, normal: int, v: int) -> bool {
    if normal == 0 {
        &&& a <= v || b <= v || c <= v || d <= v
        &&& v < a || v < b || v < c || v < d
    } else {
        a == v + (1 + normal) / 2 && b == a && c == a && d == a
    }
}

/// Whether the face of a voxel lies between four corners of a rectangle: the unit
/// square of that voxel and direction is part of it.
pub open spec fn face_between(
    p: Seq<(int, int, int)>,
    normal: (int, int, int),
    x: int,
    y: int,
    z: int,
) -> bool {
    &&& axis_between(p[0].0, p[1].0, p[2].0, p[3].0, normal.0, x)
    &&& axis_between(p[0].1, p[1].1, p[2].1, p[3].1, normal.1, y)
    &&& axis_between(p[0].2, p[1].2, p[2].2, p[3].2, normal.2, z)
}

/// Whether two points differ along exactly one axis.
pub open spec fn one_axis_apart(p: (int, int, int), q: (int, int, int)) -> bool {
    ||| p.0 != q.0 && p.1 == q.1 && p.2 == q.2
    ||| p.0 == q.0 && p.1 != q.1 && p.2 == q.2
    ||| p.0 == q.0 && p.1 == q.1 && p.2 != q.2
}

/// The corners of a quad in usable coordinates of its chunk.
pub open spec fn quad_corners(q: Quad) -> Seq<(int, int, int)> {
    Seq::new(
        4,
        |c: int|
            {
                let d = mesh_cpu::corner_offset(q, c);
                (q.x + d.0, q.y + d.1, q.z + d.2)
            },
    )
}

/// A quad covers exactly the faces of its direction that lie between its corners:
/// it is drawn on the side of the voxels that its direction names, from the least
/// covered coordinate to one past the greatest.
pub proof fn quads_cover_what_lies_between_corners(q: Quad, x: int, y: int, z: int)
    requires
        q.face < 6,
    ensures
        quad_covers(q, x, y, z) <==> face_between(
            quad_corners(q),
            mesh_cpu::face_step(q.face as int),
            x,
            y,
            z,
        ),
{
}

/// The corners of a quad go round a rectangle: each lies along one axis from the
/// next, and the two diagonals have one middle.
pub proof fn quad_corners_form_a_rectangle(q: Quad)
    requires
        q.face < 6,
        q.width >= 1,
        q.height >= 1,
    ensures
        ({
            let p = quad_corners(q);
            &&& one_axis_apart(p[0], p[1]) && one_axis_apart(p[1], p[2])
            &&& one_axis_apart(p[2], p[3]) && one_axis_apart(p[3], p[0])
            &&& p[0].0 + p[2].0 == p[1].0 + p[3].0
            &&& p[0].1 + p[2].1 == p[1].1 + p[3].1
            &&& p[0].2 + p[2].2 == p[1].2 + p[3].2
            &&& p[0] != p[2] && p[1] != p[3]
        }),
{
}

/// The word at a place of a byte sequence, least significant byte first.
pub open spec fn word_at(bytes: Seq<u8>, at: int) -> int {
    bytes[at] + bytes[at + 1] * 0x100 + bytes[at + 2] * 0x1_0000 + bytes[at + 3] * 0x100_0000
}

/// A byte in two's complement.
pub open spec fn signed_byte(b: u8) -> int {
    if b < 128 {
        b as int
    } else {
        b - 256
    }
}

/// Vertex `v` of some vertex bytes stands at a point: its first three words are
/// the coordinates in single precision.
#[verifier::opaque]
pub open spec fn vertex_stands_at(bytes: Seq<u8>, v: int, p: (int, int, int)) -> bool {
    &&& ieee::stands_for(word_at(bytes, 16 * v), p.0)
    &&& ieee::stands_for(word_at(bytes, 16 * v + 4), p.1)
    &&& ieee::stands_for(word_at(bytes, 16 * v + 8), p.2)
}

/// The last word of vertex `v` names a normal of full length, and a material.
#[verifier::opaque]
pub open spec fn vertex_shows(
    bytes: Seq<u8>,
    v: int,
    normal: (int, int, int),
    material: u8,
) -> bool {
    &&& signed_byte(bytes[16 * v + 12]) == 127 * normal.0
    &&& signed_byte(bytes[16 * v + 13]) == 127 * normal.1
    &&& signed_byte(bytes[16 * v + 14]) == 127 * normal.2
    &&& bytes[16 * v + 15] == material
}

proof fn lemma_word_of_le_bytes(w: int)
    requires
        0 <= w < 0x1_0000_0000,
    ensures
        mesh_cpu::le_byte(w, 0) + mesh_cpu::le_byte(w, 1) * 0x100 + mesh_cpu::le_byte(w, 2)
            * 0x1_0000 + mesh_cpu::le_byte(w, 3) * 0x100_0000 == w,
{
    let a = w / 0x100;
    let b = w / 0x1_0000;
    let c = w / 0x100_0000;
    assert(w == 0x100 * a + w % 0x100);
    assert(b == a / 0x100 && a == 0x100 * b + a % 0x100);
    assert(c == b / 0x100 && b == 0x100 * c + b % 0x100);
    assert(0 <= c < 0x100 && c % 0x100 == c);
    assert(mesh_cpu::le_byte(w, 0) == w % 0x100);
    assert(mesh_cpu::le_byte(w, 1) == a % 0x100);
    assert(mesh_cpu::le_byte(w, 2) == b % 0x100);
    assert(mesh_cpu::le_byte(w, 3) == c);
}

proof fn lemma_vertex_byte(quads: Seq<Quad>, coord: Seq<i32>, k: int, c: int, i: int, b: int)
    requires
        0 <= k < quads.len(),
        0 <= c < 4,
        0 <= i < 4,
        0 <= b < 4,
    ensures
        mesh_cpu::vertex_bytes(quads, coord)[64 * k + 16 * c + 4 * i + b] == mesh_cpu::le_byte(
            mesh_cpu::vertex_word(quads[k], coord, c, i),
            b,
        ),
{
    let j = 64 * k + 16 * c + 4 * i + b;
    assert(j / 64 == k && j % 64 / 16 == c && j % 16 / 4 == i && j % 4 == b);
}

proof fn lemma_vertex_word(quads: Seq<Quad>, coord: Seq<i32>, k: int, c: int, i: int)
    requires
        0 <= k < quads.len(),
        0 <= c < 4,
        0 <= i < 4,
        0 <= mesh_cpu::vertex_word(quads[k], coord, c, i) < 0x1_0000_0000,
    ensures
        word_at(mesh_cpu::vertex_bytes(quads, coord), 16 * (4 * k + c) + 4 * i)
            == mesh_cpu::vertex_word(quads[k], coord, c, i),
{
    let at = 64 * k + 16 * c + 4 * i;
    let w = mesh_cpu::vertex_word(quads[k], coord, c, i);
    let bytes = mesh_cpu::vertex_bytes(quads, coord);
    lemma_vertex_byte(quads, coord, k, c, i, 0);
    lemma_vertex_byte(quads, coord, k, c, i, 1);
    lemma_vertex_byte(quads, coord, k, c, i, 2);
    lemma_vertex_byte(quads, coord, k, c, i, 3);
    lemma_word_of_le_bytes(w);
}

/// A chunk coordinate near enough to the origin that no position is rounded.
pub open spec fn near_origin(coord: Seq<i32>) -> bool {
    &&& -200_000 <= coord[0] <= 200_000
    &&& -200_000 <= coord[1] <= 200_000
    &&& -200_000 <= coord[2] <= 200_000
}

/// A quad within the usable interior.
pub open spec fn is_usable(q: Quad) -> bool {
    &&& q.face < 6
    &&& q.x < CS && q.y < CS && q.z < CS
    &&& 1 <= q.width <= CS && 1 <= q.height <= CS
}

/// A point in usable coordinates of a chunk, in the world: chunks are CS voxels
/// apart, and the first usable voxel lies behind one voxel of padding.
pub open spec fn in_world(coord: Seq<i32>, p: (int, int, int)) -> (int, int, int) {
    (coord[0] * CS + 1 + p.0, coord[1] * CS + 1 + p.1, coord[2] * CS + 1 + p.2)
}

proof fn lemma_axis_stands(c: int, u: int, d: int)
    requires
        -200_000 <= c <= 200_000,
        0 <= u <= CS,
        0 <= d <= CS,
    ensures
        ieee::stands_for(
            ieee::single_bits(mesh_cpu::moved(mesh_cpu::base_position(c, u), d)),
            c * CS + 1 + u + d,
        ),
{
    nearby_positions_are_exact(c, u, d);
    let v = c * CS + 1 + u + d;
    let m: nat = (if v >= 0 { v } else { -v }) as nat;
    ieee::small_integers_are_exact(v);
    ieee::rounding_is_representable(m);
    assert(ieee::round_magnitude(m) == m);
    ieee::bits_stand_for_value(v);
}

/// The vertices of near quads stand at the quads' corners in the world.
pub proof fn vertices_stand_at_corners(quads: Seq<Quad>, coord: Seq<i32>, k: int, c: int)
    requires
        0 <= k < quads.len(),
        0 <= c < 4,
        is_usable(quads[k]),
        near_origin(coord),
    ensures
        vertex_stands_at(
            mesh_cpu::vertex_bytes(quads, coord),
            4 * k + c,
            in_world(coord, quad_corners(quads[k])[c]),
        ),
{
    let q = quads[k];
    let d = mesh_cpu::corner_offset(q, c);
    lemma_axis_stands(coord[0] as int, q.x as int, d.0);
    lemma_axis_stands(coord[1] as int, q.y as int, d.1);
    lemma_axis_stands(coord[2] as int, q.z as int, d.2);
    lemma_vertex_word(quads, coord, k, c, 0);
    lemma_vertex_word(quads, coord, k, c, 1);
    lemma_vertex_word(quads, coord, k, c, 2);
    reveal(vertex_stands_at);
}

/// The bytes of a packed normal and material.
proof fn lemma_normal_bytes(nx: i8, ny: i8, nz: i8, material: u8)
    ensures
        ({
            let w = mesh_cpu::packed_normal_material(nx, ny, nz, material);
            &&& signed_byte(mesh_cpu::le_byte(w, 0)) == nx
            &&& signed_byte(mesh_cpu::le_byte(w, 1)) == ny
            &&& signed_byte(mesh_cpu::le_byte(w, 2)) == nz
            &&& mesh_cpu::le_byte(w, 3) == material
        }),
{
    let a = mesh_cpu::snorm_byte(nx);
    let b = mesh_cpu::snorm_byte(ny);
    let c = mesh_cpu::snorm_byte(nz);
    let d = material as int;
    lemma_four_bytes(a, b, c, d);
}

proof fn lemma_four_bytes(a: int, b: int, c: int, d: int)
    requires
        0 <= a < 256,
        0 <= b < 256,
        0 <= c < 256,
        0 <= d < 256,
    ensures
        ({
            let w = a + b * 0x100 + c * 0x1_0000 + d * 0x100_0000;
            &&& w % 0x100 == a
            &&& w / 0x100 % 0x100 == b
            &&& w / 0x1_0000 % 0x100 == c
            &&& w / 0x100_0000 % 0x100 == d
        }),
{
    let w = a + b * 0x100 + c * 0x1_0000 + d * 0x100_0000;
    assert(w / 0x100 == b + c * 0x100 + d * 0x1_0000);
    assert(w / 0x1_0000 == c + d * 0x100);
    assert(w / 0x100_0000 == d);
}

/// Every vertex of a quad shows the direction and the material of the quad.
pub proof fn vertices_show_direction_and_material(
    quads: Seq<Quad>,
    coord: Seq<i32>,
    k: int,
    c: int,
)
    requires
        0 <= k < quads.len(),
        0 <= c < 4,
        quads[k].face < 6,
    ensures
        vertex_shows(
            mesh_cpu::vertex_bytes(quads, coord),
            4 * k + c,
            mesh_cpu::face_step(quads[k].face as int),
            quads[k].material_id,
        ),
{
    let at = 64 * k + 16 * c + 12;
    let w = mesh_cpu::quad_normal_word(quads[k]);
    let bytes = mesh_cpu::vertex_bytes(quads, coord);
    lemma_vertex_byte(quads, coord, k, c, 3, 0);
    lemma_vertex_byte(quads, coord, k, c, 3, 1);
    lemma_vertex_byte(quads, coord, k, c, 3, 2);
    lemma_vertex_byte(quads, coord, k, c, 3, 3);
    let d = mesh_cpu::face_step(quads[k].face as int);
    lemma_normal_bytes(
        (d.0 * 127) as i8,
        (d.1 * 127) as i8,
        (d.2 * 127) as i8,
        quads[k].material_id,
    );
    reveal(vertex_shows);
}

/// The two triangles of a quad are made of its own vertices, use all four of them
/// and face the way the quad does.
pub proof fn drawn_triangles_face_outward(quads: Seq<Quad>, t: int)
    requires
        0 <= t < 2 * quads.len(),
        4 * quads.len() <= u32::MAX,
        quads[t / 2].face < 6,
    ensures
        ({
            let i = mesh_cpu::quad_indices(quads.len());
            let (a, b, c) = (i[3 * t] as int, i[3 * t + 1] as int, i[3 * t + 2] as int);
            let q = quads[t / 2];
            let n = mesh_cpu::face_step(q.face as int);
            let area = q.width as int * q.height as int;
            &&& a / 4 == t / 2 && b / 4 == t / 2 && c / 4 == t / 2
            &&& corner_cross(q, a % 4, b % 4, c % 4) == (n.0 * area, n.1 * area, n.2 * area)
            &&& forall|v: int| #![trigger i[v]]
                t % 2 == 0 && v == 3 * t + 5 ==> i[v] != a && i[v] != b && i[v] != c
        }),
{
    winding_faces_outward(quads[t / 2]);
    let i = mesh_cpu::quad_indices(quads.len());
    assert((3 * t) / 6 == t / 2);
    if t % 2 == 0 {
        assert((3 * t) % 6 == 0 && (3 * t + 1) / 6 == t / 2 && (3 * t + 2) / 6 == t / 2);
        assert((3 * t + 5) / 6 == t / 2 && (3 * t + 5) % 6 == 5);
    } else {
        assert((3 * t) % 6 == 3 && (3 * t + 1) / 6 == t / 2 && (3 * t + 2) / 6 == t / 2);
    }
}

/// Quad `k` of a mesh has its vertices at four points, in this order.
pub open spec fn quad_stands_at(bytes: Seq<u8>, k: int, p: Seq<(int, int, int)>) -> bool {
    &&& p.len() == 4
    &&& vertex_stands_at(bytes, 4 * k, p[0])
    &&& vertex_stands_at(bytes, 4 * k + 1, p[1])
    &&& vertex_stands_at(bytes, 4 * k + 2, p[2])
    &&& vertex_stands_at(bytes, 4 * k + 3, p[3])
}

/// Whether the face of a chunk's voxel, given in padded coordinates, lies between
/// four points of the world.
pub open spec fn voxel_between(
    p: Seq<(int, int, int)>,
    normal: (int, int, int),
    coord: Seq<i32>,
    x: int,
    y: int,
    z: int,
) -> bool {
    face_between(p, normal, coord[0] * CS + x, coord[1] * CS + y, coord[2] * CS + z)
}

/// Quad `k` of a mesh shows the face of a voxel, given in padded coordinates: it
/// faces that way and the face lies between its vertices.
pub open spec fn shows_face(
    bytes: Seq<u8>,
    coord: Seq<i32>,
    k: int,
    normal: (int, int, int),
    material: u8,
    x: int,
    y: int,
    z: int,
) -> bool {
    &&& vertex_shows(bytes, 4 * k, normal, material)
    &&& vertex_shows(bytes, 4 * k + 1, normal, material)
    &&& vertex_shows(bytes, 4 * k + 2, normal, material)
    &&& vertex_shows(bytes, 4 * k + 3, normal, material)
    &&& exists|p: Seq<(int, int, int)>| #[trigger]
        quad_stands_at(bytes, k, p) && voxel_between(p, normal, coord, x, y, z)
}

proof fn lemma_usable(
    masks: Seq<Vec<u64>>,
    palette: Seq<u32>,
    index_buf: Seq<u32>,
    bpe: int,
    k: int,
)
    requires
        0 <= k < mesh_cpu::chunk_quads(masks, palette, index_buf, bpe).len(),
    ensures
        is_usable(mesh_cpu::chunk_quads(masks, palette, index_buf, bpe)[k]),
{
    let q = mesh_cpu::chunk_quads(masks, palette, index_buf, bpe)[k];
    quads_are_usable(masks, palette, index_buf, bpe);
    let w = q.width - 1;
    let h = q.height - 1;
    if q.face < 2 {
        quads_cover_only_visible_faces(masks, palette, index_buf, bpe, k, q.x + w, q.y as int, q.z + h);
    } else if q.face < 4 {
        quads_cover_only_visible_faces(masks, palette, index_buf, bpe, k, q.x as int, q.y + w, q.z + h);
    } else {
        quads_cover_only_visible_faces(masks, palette, index_buf, bpe, k, q.x + w, q.y + h, q.z as int);
    }
}

/// A mesh shows every exposed face of its chunk, with the material of the voxel,
/// where the voxel is in the world.
pub proof fn exposed_faces_are_shown(
    words: Seq<u32>,
    masks: Seq<Vec<u64>>,
    palette: Seq<u32>,
    index_buf: Seq<u32>,
    bpe: int,
    r: MeshResult,
    coord: Seq<i32>,
    face: int,
    x: int,
    y: int,
    z: int,
)
    requires
        mesh_cpu::are_face_masks(words, masks),
        mesh_cpu::is_mesh_of(r, mesh_cpu::chunk_quads(masks, palette, index_buf, bpe), coord),
        near_origin(coord),
        0 <= face < 6,
        1 <= x <= CS && 1 <= y <= CS && 1 <= z <= CS,
        mesh_cpu::exposed(words, face, x, y, z),
    ensures
        exists|k: int|
            0 <= k < r.quad_count && #[trigger] shows_face(
                r.vertices@,
                coord,
                k,
                mesh_cpu::face_step(face),
                (mesh_cpu::material_id(palette, index_buf, bpe, x, y, z) as u32 % 256) as u8,
                x,
                y,
                z,
            ),
{
    let quads = mesh_cpu::chunk_quads(masks, palette, index_buf, bpe);
    assert(mesh_cpu::mask_bit(masks, face, x, y - 1, z));
    every_visible_face_is_covered(masks, palette, index_buf, bpe, face, x - 1, y - 1, z - 1);
    let k = choose|k: int|
        0 <= k < quads.len() && (#[trigger] quads[k]).face == face && quad_covers(
            quads[k],
            x - 1,
            y - 1,
            z - 1,
        );
    quads_cover_only_visible_faces(masks, palette, index_buf, bpe, k, x - 1, y - 1, z - 1);
    lemma_shown(masks, palette, index_buf, bpe, coord, k, x, y, z);
    assert(shows_face(
        r.vertices@,
        coord,
        k,
        mesh_cpu::face_step(face),
        (mesh_cpu::material_id(palette, index_buf, bpe, x, y, z) as u32 % 256) as u8,
        x,
        y,
        z,
    ));
}

/// The corners of a merged quad in the world.
spec fn world_corners(q: Quad, coord: Seq<i32>) -> Seq<(int, int, int)> {
    Seq::new(4, |c: int| in_world(coord, quad_corners(q)[c]))
}

proof fn lemma_stands(
    masks: Seq<Vec<u64>>,
    palette: Seq<u32>,
    index_buf: Seq<u32>,
    bpe: int,
    coord: Seq<i32>,
    k: int,
)
    requires
        near_origin(coord),
        0 <= k < mesh_cpu::chunk_quads(masks, palette, index_buf, bpe).len(),
    ensures
        ({
            let quads = mesh_cpu::chunk_quads(masks, palette, index_buf, bpe);
            let bytes = mesh_cpu::vertex_bytes(quads, coord);
            let n = mesh_cpu::face_step(quads[k].face as int);
            &&& quad_stands_at(bytes, k, world_corners(quads[k], coord))
            &&& vertex_shows(bytes, 4 * k, n, quads[k].material_id)
            &&& vertex_shows(bytes, 4 * k + 1, n, quads[k].material_id)
            &&& vertex_shows(bytes, 4 * k + 2, n, quads[k].material_id)
            &&& vertex_shows(bytes, 4 * k + 3, n, quads[k].material_id)
        }),
{
    let quads = mesh_cpu::chunk_quads(masks, palette, index_buf, bpe);
    lemma_usable(masks, palette, index_buf, bpe, k);
    vertices_stand_at_corners(quads, coord, k, 0);
    vertices_stand_at_corners(quads, coord, k, 1);
    vertices_stand_at_corners(quads, coord, k, 2);
    vertices_stand_at_corners(quads, coord, k, 3);
    vertices_show_direction_and_material(quads, coord, k, 0);
    vertices_show_direction_and_material(quads, coord, k, 1);
    vertices_show_direction_and_material(quads, coord, k, 2);
    vertices_show_direction_and_material(quads, coord, k, 3);
}

proof fn lemma_shown(
    masks: Seq<Vec<u64>>,
    palette: Seq<u32>,
    index_buf: Seq<u32>,
    bpe: int,
    coord: Seq<i32>,
    k: int,
    x: int,
    y: int,
    z: int,
)
    requires
        near_origin(coord),
        0 <= k < mesh_cpu::chunk_quads(masks, palette, index_buf, bpe).len(),
        quad_covers(
            mesh_cpu::chunk_quads(masks, palette, index_buf, bpe)[k],
            x - 1,
            y - 1,
            z - 1,
        ),
    ensures
        ({
            let quads = mesh_cpu::chunk_quads(masks, palette, index_buf, bpe);
            shows_face(
                mesh_cpu::vertex_bytes(quads, coord),
                coord,
                k,
                mesh_cpu::face_step(quads[k].face as int),
                quads[k].material_id,
                x,
                y,
                z,
            )
        }),
{
    let quads = mesh_cpu::chunk_quads(masks, palette, index_buf, bpe);
    let q = quads[k];
    lemma_usable(masks, palette, index_buf, bpe, k);
    lemma_stands(masks, palette, index_buf, bpe, coord, k);
    quads_cover_what_lies_between_corners(q, x - 1, y - 1, z - 1);
    let p = world_corners(q, coord);
    assert(quad_stands_at(mesh_cpu::vertex_bytes(quads, coord), k, p));
    assert(voxel_between(p, mesh_cpu::face_step(q.face as int), coord, x, y, z));
}

/// A mesh shows nothing but exposed faces: each quad has four vertices, and every
/// face that lies between them is exposed. Gives the points at which the vertices
/// stand, and the direction.
pub proof fn only_exposed_faces_are_shown(
    words: Seq<u32>,
    masks: Seq<Vec<u64>>,
    palette: Seq<u32>,
    index_buf: Seq<u32>,
    bpe: int,
    r: MeshResult,
    coord: Seq<i32>,
    k: int,
) -> (at: (Seq<(int, int, int)>, int))
    requires
        mesh_cpu::are_face_masks(words, masks),
        mesh_cpu::is_mesh_of(r, mesh_cpu::chunk_quads(masks, palette, index_buf, bpe), coord),
        near_origin(coord),
        0 <= k < r.quad_count,
    ensures
        0 <= at.1 < 6,
        quad_stands_at(r.vertices@, k, at.0),
        vertex_shows(
            r.vertices@,
            4 * k,
            mesh_cpu::face_step(at.1),
            r.vertices@[64 * k + 15],
        ),
        forall|x: int, y: int, z: int| #[trigger]
            voxel_between(at.0, mesh_cpu::face_step(at.1), coord, x, y, z) ==> 1 <= x <= CS && 1
                <= y <= CS && 1 <= z <= CS && mesh_cpu::exposed(words, at.1, x, y, z),
{
    let quads = mesh_cpu::chunk_quads(masks, palette, index_buf, bpe);
    let q = quads[k];
    let face = q.face as int;
    lemma_usable(masks, palette, index_buf, bpe, k);
    lemma_stands(masks, palette, index_buf, bpe, coord, k);
    let p = world_corners(q, coord);
    let n = mesh_cpu::face_step(face);
    assert forall|x: int, y: int, z: int| #[trigger]
        voxel_between(p, n, coord, x, y, z) implies 1 <= x <= CS && 1 <= y <= CS && 1 <= z <= CS
        && mesh_cpu::exposed(words, face, x, y, z) by {
        assert(face_between(quad_corners(q), n, x - 1, y - 1, z - 1));
        quads_cover_what_lies_between_corners(q, x - 1, y - 1, z - 1);
        quads_cover_only_visible_faces(masks, palette, index_buf, bpe, k, x - 1, y - 1, z - 1);
        assert(mesh_cpu::mask_bit(masks, face, x, y - 1, z));
    }
    assert(r.vertices@[64 * k + 15] == q.material_id) by {
        reveal(vertex_shows);
    }
    assert(vertex_shows(r.vertices@, 4 * k, mesh_cpu::face_step(face), r.vertices@[64 * k + 15]));
    (p, face)
}

/// What is drawn of a mesh is all of it: the counts of the draw metadata are those
/// of its vertices, of 16 bytes each, and of its indices.
pub proof fn draw_meta_counts_the_mesh(r: MeshResult, quads: Seq<Quad>, coord: Seq<i32>)
    requires
        mesh_cpu::is_mesh_of(r, quads, coord),
        6 * quads.len() <= u32::MAX,
    ensures
        r.vertices@.len() == 16 * r.draw_meta.vertex_count,
        r.indices@.len() == r.draw_meta.index_count,
        r.draw_meta.vertex_offset == 0 && r.draw_meta.index_offset == 0,
        forall|i: int| 0 <= i < r.indices@.len() ==> (#[trigger] r.indices@[i])
            < r.draw_meta.vertex_count,
{
    let w = r.draw_meta.words_spec();
    assert(w[0] == r.draw_meta.vertex_offset && w[1] == r.draw_meta.vertex_count && w[2]
        == r.draw_meta.index_offset && w[3] == r.draw_meta.index_count);
}

/// Number of the slice that a quad lies in, counted over all directions.
pub open spec fn slice_number(q: Quad) -> int {
    q.face * 62 + (if q.face < 2 {
        q.y as int
    } else if q.face < 4 {
        q.x as int
    } else {
        q.z as int
    })
}

proof fn lemma_slice_numbers(
    masks: Seq<Vec<u64>>,
    palette: Seq<u32>,
    index_buf: Seq<u32>,
    bpe: int,
    n: nat,
    i: int,
)
    requires
        n <= mesh_cpu::ALL_SLICES,
        0 <= i < mesh_cpu::merged_quads(masks, palette, index_buf, bpe, n).len(),
    ensures
        0 <= slice_number(mesh_cpu::merged_quads(masks, palette, index_buf, bpe, n)[i]) < n,
    decreases n,
{
    let m = (n - 1) as nat;
    let front = mesh_cpu::merged_quads(masks, palette, index_buf, bpe, m);
    if i < front.len() {
        lemma_slice_numbers(masks, palette, index_buf, bpe, m, i);
    } else {
        lemma_slice_number(masks, palette, index_buf, bpe, m as int, i - front.len());
    }
}

proof fn lemma_slice_number(
    masks: Seq<Vec<u64>>,
    palette: Seq<u32>,
    index_buf: Seq<u32>,
    bpe: int,
    m: int,
    i: int,
)
    requires
        0 <= m < mesh_cpu::ALL_SLICES,
        0 <= i < mesh_cpu::slice_quads(
            masks,
            palette,
            index_buf,
            bpe,
            m / (CS as int),
            m % (CS as int),
        ).len(),
    ensures
        slice_number(
            mesh_cpu::slice_quads(
                masks,
                palette,
                index_buf,
                bpe,
                m / (CS as int),
                m % (CS as int),
            )[i],
        ) == m,
{
    let face = m / (CS as int);
    let slice = m % (CS as int);
    let cells = mesh_cpu::slice_cells(masks, palette, index_buf, bpe, face, slice);
    let rects = plane::greedy_cover(cells);
    plane::greedy_cover_exists(cells);
    let r = rects[i];
    assert(r.contains(r.a as int, r.b as int)) by {
        assert(plane::is_next(cells, rects.take(i), rects[i]));
    }
    plane::rects_are_uniform(cells, rects, i, r.a as int, r.b as int);
}

/// Quads come direction by direction, and within a direction slice by slice.
pub proof fn quads_come_in_order(
    masks: Seq<Vec<u64>>,
    palette: Seq<u32>,
    index_buf: Seq<u32>,
    bpe: int,
    i: int,
    j: int,
)
    requires
        0 <= i < j < mesh_cpu::chunk_quads(masks, palette, index_buf, bpe).len(),
    ensures
        slice_number(mesh_cpu::chunk_quads(masks, palette, index_buf, bpe)[i]) <= slice_number(
            mesh_cpu::chunk_quads(masks, palette, index_buf, bpe)[j],
        ),
        mesh_cpu::chunk_quads(masks, palette, index_buf, bpe)[i].face <= mesh_cpu::chunk_quads(
            masks,
            palette,
            index_buf,
            bpe,
        )[j].face,
{
    lemma_in_order(masks, palette, index_buf, bpe, mesh_cpu::ALL_SLICES as nat, i, j);
    let q = mesh_cpu::chunk_quads(masks, palette, index_buf, bpe);
    quads_are_usable(masks, palette, index_buf, bpe);
    assert(q[i].face < 6 && q[j].face < 6);
}

proof fn lemma_in_order(
    masks: Seq<Vec<u64>>,
    palette: Seq<u32>,
    index_buf: Seq<u32>,
    bpe: int,
    n: nat,
    i: int,
    j: int,
)
    requires
        n <= mesh_cpu::ALL_SLICES,
        0 <= i < j < mesh_cpu::merged_quads(masks, palette, index_buf, bpe, n).len(),
    ensures
        slice_number(mesh_cpu::merged_quads(masks, palette, index_buf, bpe, n)[i]) <= slice_number(
            mesh_cpu::merged_quads(masks, palette, index_buf, bpe, n)[j],
        ),
    decreases n,
{
    let m = (n - 1) as nat;
    let front = mesh_cpu::merged_quads(masks, palette, index_buf, bpe, m);
    if j < front.len() {
        lemma_in_order(masks, palette, index_buf, bpe, m, i, j);
    } else {
        lemma_slice_numbers(masks, palette, index_buf, bpe, n, i);
        lemma_slice_number(masks, palette, index_buf, bpe, m as int, j - front.len());
    }
}

/// Palette indices run along z, then y, then x.
pub proof fn indices_run_along_z(x: int, y: int, z: int)
    ensures
        mesh_cpu::voxel_index(x, y, z) == z + 64 * (y + 64 * x),
{
}

/// The two triangles of a quad have its four vertices: the first the first three, the
/// second the first, third and fourth.
pub proof fn two_triangles_make_a_quad(r: MeshResult, quads: Seq<Quad>, coord: Seq<i32>, k: int)
    requires
        mesh_cpu::is_mesh_of(r, quads, coord),
        6 * quads.len() <= u32::MAX,
        0 <= k < quads.len(),
    ensures
        r.indices@.len() == 6 * quads.len(),
        r.indices@[6 * k] == 4 * k && r.indices@[6 * k + 1] == 4 * k + 1 && r.indices@[6 * k + 2]
            == 4 * k + 2,
        r.indices@[6 * k + 3] == 4 * k && r.indices@[6 * k + 4] == 4 * k + 2 && r.indices@[6 * k + 5]
            == 4 * k + 3,
{
}

} // verus!
