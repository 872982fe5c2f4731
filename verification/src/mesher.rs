//! Meshing a chunk into packed quads, with counts.

use vstd::prelude::*;

use crate::binary_chunk;
use crate::binary_chunk::{BinaryChunk, FaceMasks};
use crate::merge;
use crate::mesh_cpu;
use crate::mesh_laws;

verus! {

/// Counts of a mesh.
#[derive(Debug, Clone, Copy)]
pub struct MeshStats {
    /// Number of quads.
    pub quad_count: usize,
    /// Quads by face direction.
    pub quads_per_face: [usize; 6],
    /// Number of vertices.
    pub vertex_count: usize,
    /// Number of triangles.
    pub triangle_count: usize,
    /// Number of quads there would be without merging.
    pub max_possible_quads: usize,
}

/// Number of quads of all directions.
pub open spec fn quad_total(quads: Seq<Vec<u64>>) -> nat {
    quads[0]@.len() + quads[1]@.len() + quads[2]@.len() + quads[3]@.len() + quads[4]@.len()
        + quads[5]@.len()
}

/// The counts of some quads.
pub open spec fn are_stats(s: MeshStats, quads: Seq<Vec<u64>>, faces: int) -> bool {
    &&& s.quad_count == quad_total(quads)
    &&& forall|f: int| 0 <= f < 6 ==> (#[trigger] s.quads_per_face[f]) == quads[f]@.len()
    &&& s.vertex_count == 4 * s.quad_count
    &&& s.triangle_count == 2 * s.quad_count
    &&& s.max_possible_quads == faces
}

/// A meshed chunk.
#[derive(Debug)]
pub struct ChunkMesh {
    /// Packed quads by face direction.
    pub quads: [Vec<u64>; 6],
    pub stats: MeshStats,
}

/// `m` is the mesh of a chunk: its visible faces, merged.
pub open spec fn is_mesh_of_chunk(m: ChunkMesh, c: BinaryChunk) -> bool {
    if binary_chunk::solid_set(c) == Set::<(int, int, int)>::empty() {
        &&& are_stats(m.stats, m.quads@, 0)
        &&& m.stats.quad_count == 0
    } else {
        exists|masks: Seq<Vec<u64>>| #[trigger]
            mesh_cpu::are_face_masks(c.words(), masks) && binary_chunk::are_masks_of(c, masks)
                && merge::are_chunk_quads(c, masks, m.quads@) && are_stats(m.stats, m.quads@, mesh_cpu::all_faces(masks) as int)
    }
}

/// Count the quads of each direction.
fn count_quads(quads: &[Vec<u64>; 6], faces: usize) -> (s: MeshStats)
    requires
        forall|f: int| 0 <= f < 6 ==> (#[trigger] quads@[f])@.len() <= 238_328,
    ensures
        are_stats(s, quads@, faces as int),
{
    assert(quads@[0]@.len() <= 238_328 && quads@[1]@.len() <= 238_328 && quads@[2]@.len() <= 238_328
        && quads@[3]@.len() <= 238_328 && quads@[4]@.len() <= 238_328 && quads@[5]@.len()
        <= 238_328);
    let per: [usize; 6] = [
        quads[0].len(),
        quads[1].len(),
        quads[2].len(),
        quads[3].len(),
        quads[4].len(),
        quads[5].len(),
    ];
    let total: usize = per[0] + per[1] + per[2] + per[3] + per[4] + per[5];
    MeshStats {
        quad_count: total,
        quads_per_face: per,
        vertex_count: total * 4,
        triangle_count: total * 2,
        max_possible_quads: faces,
    }
}

/// Mesh a chunk: find its visible faces and merge them. An empty chunk has no
/// quads and zero counts.
pub fn mesh_chunk_with_stats(chunk: &BinaryChunk) -> (m: ChunkMesh)
    requires
        chunk.wf(),
    ensures
        is_mesh_of_chunk(m, *chunk),
{
    if chunk.is_empty() {
        let quads: [Vec<u64>; 6] = [
            Vec::new(),
            Vec::new(),
            Vec::new(),
            Vec::new(),
            Vec::new(),
            Vec::new(),
        ];
        let stats = count_quads(&quads, 0);
        return ChunkMesh { quads, stats };
    }
    let mut masks = FaceMasks::new();
    binary_chunk::cull_faces(chunk, &mut masks);
    let faces: usize = masks.total_faces();
    let quads = merge::merge_all(chunk, &masks);
    proof {
        assert forall|f: int| 0 <= f < 6 implies (#[trigger] quads@[f])@.len() <= 238_328 by {
            merge::face_quads_bound(*chunk, masks@, f, f, 62);
        }
    }
    let stats = count_quads(&quads, faces);
    assert(mesh_cpu::are_face_masks(chunk.words(), masks@));
    ChunkMesh { quads, stats }
}

/// Counts by face direction.
#[derive(Debug, Clone, Copy)]
pub struct FaceDirectionStats {
    /// Faces that each direction's quads cover.
    pub face_counts: [usize; 6],
    /// Quads of each direction.
    pub quad_counts: [usize; 6],
    /// Faces before merging.
    pub total_faces: usize,
    /// Quads after merging.
    pub total_quads: usize,
    /// Triangles without merging: two a face.
    pub naive_triangles: usize,
    /// Triangles after merging: two a quad.
    pub merged_triangles: usize,
}

/// Number of faces that quads cover.
fn covered_faces(quads: &Vec<u64>) -> (n: usize)
    requires
        merge::packed_area(quads@) <= usize::MAX,
    ensures
        n == merge::packed_area(quads@),
{
    let mut n: usize = 0;
    let mut i: usize = 0;
    assert(quads@.take(0) =~= Seq::empty());
    while i < quads.len()
        invariant
            i <= quads@.len(),
            n == merge::packed_area(quads@.take(i as int)),
            merge::packed_area(quads@) <= usize::MAX,
        decreases quads@.len() - i,
    {
        let f = binary_chunk::unpack_quad(quads[i]);
        proof {
            let next = quads@.take(i + 1);
            assert(next.drop_last() =~= quads@.take(i as int));
            lemma_area_prefix(quads@, (i + 1) as nat);
            let w = f.3 as int;
            let h = f.4 as int;
            assert(0 <= w * h <= 3969) by (nonlinear_arith)
                requires
                    0 <= w < 64,
                    0 <= h < 64,
            ;
        }
        let w: usize = f.3 as usize;
        let h: usize = f.4 as usize;
        n = n + w * h;
        i = i + 1;
    }
    assert(quads@.take(quads@.len() as int) =~= quads@);
    n
}

proof fn lemma_area_prefix(quads: Seq<u64>, n: nat)
    requires
        n <= quads.len(),
    ensures
        0 <= merge::packed_area(quads.take(n as int)) <= merge::packed_area(quads),
    decreases quads.len(),
{
    if n == quads.len() {
        assert(quads.take(n as int) =~= quads);
        if n > 0 {
            lemma_area_prefix(quads.drop_last(), (n - 1) as nat);
            assert(quads.drop_last().take(n - 1) =~= quads.drop_last());
            lemma_unpacked(quads.last());
        }
    } else {
        lemma_area_prefix(quads.drop_last(), n);
        assert(quads.drop_last().take(n as int) =~= quads.take(n as int));
        lemma_unpacked(quads.last());
    }
}

proof fn lemma_unpacked(q: u64)
    ensures
        0 <= binary_chunk::unpacked(q).3 * binary_chunk::unpacked(q).4,
{
    let w = binary_chunk::unpacked(q).3;
    let h = binary_chunk::unpacked(q).4;
    assert(0 <= w * h) by (nonlinear_arith)
        requires
            0 <= w,
            0 <= h,
    ;
}

/// The counts of some quads by direction.
pub open spec fn are_direction_stats(
    s: FaceDirectionStats,
    quads: Seq<Vec<u64>>,
    faces: int,
) -> bool {
    &&& forall|f: int| 0 <= f < 6 ==> (#[trigger] s.face_counts[f]) == merge::packed_area(quads[f]@)
    &&& forall|f: int| 0 <= f < 6 ==> (#[trigger] s.quad_counts[f]) == quads[f]@.len()
    &&& s.total_faces == faces
    &&& s.total_quads == quad_total(quads)
    &&& s.naive_triangles == 2 * faces
    &&& s.merged_triangles == 2 * quad_total(quads)
}

/// Count faces, quads and triangles by direction.
pub fn compute_direction_stats(quads: &[Vec<u64>; 6], max_possible_quads: usize) -> (s: FaceDirectionStats)
    requires
        forall|f: int|
            0 <= f < 6 ==> merge::packed_area((#[trigger] quads@[f])@) <= usize::MAX,
        2 * quad_total(quads@) <= usize::MAX,
        2 * max_possible_quads <= usize::MAX,
    ensures
        forall|f: int|
            0 <= f < 6 ==> (#[trigger] s.face_counts[f]) == merge::packed_area(quads@[f]@),
        forall|f: int| 0 <= f < 6 ==> (#[trigger] s.quad_counts[f]) == quads@[f]@.len(),
        s.total_faces == max_possible_quads,
        s.total_quads == quad_total(quads@),
        s.naive_triangles == 2 * max_possible_quads,
        s.merged_triangles == 2 * quad_total(quads@),
        are_direction_stats(s, quads@, max_possible_quads as int),
{
    assert(merge::packed_area(quads@[0]@) <= usize::MAX && merge::packed_area(quads@[1]@)
        <= usize::MAX && merge::packed_area(quads@[2]@) <= usize::MAX && merge::packed_area(
        quads@[3]@,
    ) <= usize::MAX && merge::packed_area(quads@[4]@) <= usize::MAX && merge::packed_area(
        quads@[5]@,
    ) <= usize::MAX);
    let face_counts: [usize; 6] = [
        covered_faces(&quads[0]),
        covered_faces(&quads[1]),
        covered_faces(&quads[2]),
        covered_faces(&quads[3]),
        covered_faces(&quads[4]),
        covered_faces(&quads[5]),
    ];
    let quad_counts: [usize; 6] = [
        quads[0].len(),
        quads[1].len(),
        quads[2].len(),
        quads[3].len(),
        quads[4].len(),
        quads[5].len(),
    ];
    let total_quads: usize = quad_counts[0] + quad_counts[1] + quad_counts[2] + quad_counts[3]
        + quad_counts[4] + quad_counts[5];
    FaceDirectionStats {
        face_counts,
        quad_counts,
        total_faces: max_possible_quads,
        total_quads,
        naive_triangles: max_possible_quads * 2,
        merged_triangles: total_quads * 2,
    }
}

/// A corner of a quad, in voxels from the quad's first voxel.
#[derive(Debug, Clone, Copy, PartialEq, Eq, Structural)]
pub struct Corner {
    pub x: u32,
    pub y: u32,
    pub z: u32,
}

/// The corners of a quad of one direction. Width runs along X on Y and Z faces
/// and along Y on X faces; height along Z on Y and X faces and along Y on Z
/// faces.
pub open spec fn corners_of(face: int, w: u32, h: u32) -> Seq<Corner> {
    if face == 0 {
        seq![
            Corner { x: 0, y: 1, z: 0 },
            Corner { x: w, y: 1, z: 0 },
            Corner { x: w, y: 1, z: h },
            Corner { x: 0, y: 1, z: h },
        ]
    } else if face == 1 {
        seq![
            Corner { x: 0, y: 0, z: 0 },
            Corner { x: 0, y: 0, z: h },
            Corner { x: w, y: 0, z: h },
            Corner { x: w, y: 0, z: 0 },
        ]
    } else if face == 2 {
        seq![
            Corner { x: 1, y: 0, z: 0 },
            Corner { x: 1, y: w, z: 0 },
            Corner { x: 1, y: w, z: h },
            Corner { x: 1, y: 0, z: h },
        ]
    } else if face == 3 {
        seq![
            Corner { x: 0, y: 0, z: 0 },
            Corner { x: 0, y: 0, z: h },
            Corner { x: 0, y: w, z: h },
            Corner { x: 0, y: w, z: 0 },
        ]
    } else if face == 4 {
        seq![
            Corner { x: 0, y: 0, z: 1 },
            Corner { x: w, y: 0, z: 1 },
            Corner { x: w, y: h, z: 1 },
            Corner { x: 0, y: h, z: 1 },
        ]
    } else {
        seq![
            Corner { x: 0, y: 0, z: 0 },
            Corner { x: 0, y: h, z: 0 },
            Corner { x: w, y: h, z: 0 },
            Corner { x: w, y: 0, z: 0 },
        ]
    }
}

/// The corners of a quad of one direction.
pub fn quad_corners(face: usize, width: u32, height: u32) -> (c: [Corner; 4])
    requires
        face < 6,
    ensures
        c@ == corners_of(face as int, width, height),
{
    let w: u32 = width;
    let h: u32 = height;
    let c: [Corner; 4] = if face == 0 {
        [
            Corner { x: 0, y: 1, z: 0 },
            Corner { x: w, y: 1, z: 0 },
            Corner { x: w, y: 1, z: h },
            Corner { x: 0, y: 1, z: h },
        ]
    } else if face == 1 {
        [
            Corner { x: 0, y: 0, z: 0 },
            Corner { x: 0, y: 0, z: h },
            Corner { x: w, y: 0, z: h },
            Corner { x: w, y: 0, z: 0 },
        ]
    } else if face == 2 {
        [
            Corner { x: 1, y: 0, z: 0 },
            Corner { x: 1, y: w, z: 0 },
            Corner { x: 1, y: w, z: h },
            Corner { x: 1, y: 0, z: h },
        ]
    } else if face == 3 {
        [
            Corner { x: 0, y: 0, z: 0 },
            Corner { x: 0, y: 0, z: h },
            Corner { x: 0, y: w, z: h },
            Corner { x: 0, y: w, z: 0 },
        ]
    } else if face == 4 {
        [
            Corner { x: 0, y: 0, z: 1 },
            Corner { x: w, y: 0, z: 1 },
            Corner { x: w, y: h, z: 1 },
            Corner { x: 0, y: h, z: 1 },
        ]
    } else {
        [
            Corner { x: 0, y: 0, z: 0 },
            Corner { x: 0, y: h, z: 0 },
            Corner { x: w, y: h, z: 0 },
            Corner { x: w, y: 0, z: 0 },
        ]
    };
    assert(c@ =~= corners_of(face as int, width, height));
    c
}

/// The corners of a quad are those of a flat rectangle: going round, opposite
/// edges run the same way and have the same length.
pub proof fn corners_form_a_rectangle(face: int, w: u32, h: u32)
    requires
        0 <= face < 6,
    ensures
        ({
            let c = corners_of(face, w, h);
            &&& c.len() == 4
            &&& c[1].x - c[0].x == c[2].x - c[3].x
            &&& c[1].y - c[0].y == c[2].y - c[3].y
            &&& c[1].z - c[0].z == c[2].z - c[3].z
            &&& face < 2 ==> c[0].y == c[1].y == c[2].y == c[3].y
            &&& 2 <= face < 4 ==> c[0].x == c[1].x == c[2].x == c[3].x
            &&& 4 <= face ==> c[0].z == c[1].z == c[2].z == c[3].z
        }),
{
}

/// The corners of a quad bound the faces it stands for: along the axis of its
/// direction they lie on the side of the voxels that the direction names, one
/// voxel on for a positive direction; along the other axes they reach from the
/// first voxel to one past the last.
pub proof fn corners_bound_the_faces(face: int, w: u32, h: u32, q: u64, x: int, y: int, z: int)
    requires
        0 <= face < 6,
        binary_chunk::unpacked(q).3 == w,
        binary_chunk::unpacked(q).4 == h,
    ensures
        merge::packed_covers(q, face, x, y, z) <==> mesh_laws::face_between(
            corner_points(q, corners_of(face, w, h)),
            mesh_cpu::face_step(face),
            x,
            y,
            z,
        ),
{
}

/// The corners of a packed quad in usable coordinates of its chunk.
pub open spec fn corner_points(q: u64, c: Seq<Corner>) -> Seq<(int, int, int)> {
    let at = binary_chunk::unpacked(q);
    Seq::new(4, |k: int| (at.0 + c[k].x, at.1 + c[k].y, at.2 + c[k].z))
}

/// Going round a quad, each corner lies along one axis from the next.
pub proof fn corners_go_along_one_axis(face: int, w: u32, h: u32, k: int)
    requires
        0 <= face < 6,
        w >= 1 && h >= 1,
        0 <= k < 4,
    ensures
        ({
            let c = corners_of(face, w, h);
            let a = c[k];
            let b = c[(k + 1) % 4];
            mesh_laws::one_axis_apart(
                (a.x as int, a.y as int, a.z as int),
                (b.x as int, b.y as int, b.z as int),
            )
        }),
{
}

/// The counts of a meshed chunk: a quad has four vertices and two triangles, all
/// directions add up, and without merging there would be a quad for each visible face.
pub proof fn counts_of_a_mesh_add_up(m: ChunkMesh, c: BinaryChunk)
    requires
        is_mesh_of_chunk(m, c),
        binary_chunk::solid_set(c) != Set::<(int, int, int)>::empty(),
    ensures
        ({
            let s = m.stats;
            let per = s.quads_per_face;
            let visible = |f: int| mesh_laws::exposed_set(c.words(), f).len();
            &&& per[0] == m.quads@[0]@.len() && per[1] == m.quads@[1]@.len() && per[2]
                == m.quads@[2]@.len()
            &&& per[3] == m.quads@[3]@.len() && per[4] == m.quads@[4]@.len() && per[5]
                == m.quads@[5]@.len()
            &&& s.quad_count == per[0] + per[1] + per[2] + per[3] + per[4] + per[5]
            &&& s.vertex_count == 2 * s.triangle_count
            &&& s.triangle_count == s.quad_count + s.quad_count
            &&& s.max_possible_quads == visible(0) + visible(1) + visible(2) + visible(3) + visible(4)
                + visible(5)
        }),
{
    let masks = choose|masks: Seq<Vec<u64>>| #[trigger]
        mesh_cpu::are_face_masks(c.words(), masks) && binary_chunk::are_masks_of(c, masks)
            && merge::are_chunk_quads(c, masks, m.quads@) && are_stats(
            m.stats,
            m.quads@,
            mesh_cpu::all_faces(masks) as int,
        );
    binary_chunk::mask_bits_count_visible_faces(c, masks, 0);
    binary_chunk::mask_bits_count_visible_faces(c, masks, 1);
    binary_chunk::mask_bits_count_visible_faces(c, masks, 2);
    binary_chunk::mask_bits_count_visible_faces(c, masks, 3);
    binary_chunk::mask_bits_count_visible_faces(c, masks, 4);
    binary_chunk::mask_bits_count_visible_faces(c, masks, 5);
}

/// Counted by direction, the quads of a chunk cover its visible faces: as many as the
/// direction has, with one quad each at most.
pub proof fn direction_counts_are_visible_faces(
    s: FaceDirectionStats,
    c: BinaryChunk,
    masks: Seq<Vec<u64>>,
    quads: Seq<Vec<u64>>,
    faces: int,
    f: int,
)
    requires
        merge::are_chunk_quads(c, masks, quads),
        are_direction_stats(s, quads, faces),
        0 <= f < 6,
    ensures
        s.face_counts[f] == merge::visible_set(masks, f).len(),
        s.quad_counts[f] <= s.face_counts[f],
        s.total_quads == s.quad_counts[0] + s.quad_counts[1] + s.quad_counts[2] + s.quad_counts[3]
            + s.quad_counts[4] + s.quad_counts[5],
        s.merged_triangles == s.total_quads + s.total_quads,
        s.naive_triangles == s.total_faces + s.total_faces,
        s.total_faces == faces,
{
    merge::merged_area_is_face_count(c, masks, f, f);
    merge::merging_never_adds_quads(c, masks, f, f);
    assert(quads[f]@ == merge::face_quads(c, masks, f, f));
}

} // verus!
