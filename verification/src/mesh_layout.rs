//! Vertices, triangles and outlines of packed quads.

use vstd::prelude::*;

use crate::binary_chunk;
use crate::binary_chunk::BinaryChunk;
use crate::merge;
use crate::mesh_cpu;
use crate::mesh_laws;
use crate::mesher;
use crate::mesher::Corner;

verus! {

/// A packed quad with its face direction.
#[derive(Debug, Clone, Copy, PartialEq, Eq, Structural)]
pub struct PlacedQuad {
    pub face: u8,
    pub quad: u64,
}

/// A vertex of a quad.
#[derive(Debug, Clone, Copy, PartialEq, Eq, Structural)]
pub struct LayoutVertex {
    /// Face direction of the quad.
    pub face: u8,
    /// First voxel of the quad.
    pub x: u32,
    pub y: u32,
    pub z: u32,
    /// The corner, counted from the first voxel.
    pub corner: Corner,
    /// Size of the quad in voxels.
    pub width: u32,
    pub height: u32,
    /// Texture coordinates in tiles: one tile a voxel.
    pub u: u32,
    pub v: u32,
    pub material: u16,
}

/// The vertices, triangles and outlines of quads, before they are scaled and
/// placed in the world.
#[derive(Debug)]
pub struct MeshLayout {
    /// Four vertices a quad.
    pub vertices: Vec<LayoutVertex>,
    /// Two triangles a quad, three vertex numbers each.
    pub indices: Vec<u32>,
    /// Four edges a quad, as pairs of vertex numbers.
    pub edges: Vec<(u32, u32)>,
}

/// The quads of one direction.
pub open spec fn quads_of_face(face: u8, quads: Seq<u64>) -> Seq<PlacedQuad> {
    Seq::new(quads.len(), |i: int| PlacedQuad { face, quad: quads[i] })
}

/// The quads of all directions, direction by direction.
pub open spec fn placed_quads(quads: Seq<Vec<u64>>) -> Seq<PlacedQuad> {
    quads_of_face(0, quads[0]@) + quads_of_face(1, quads[1]@) + quads_of_face(2, quads[2]@)
        + quads_of_face(3, quads[3]@) + quads_of_face(4, quads[4]@) + quads_of_face(5, quads[5]@)
}

/// Texture coordinates of a corner: how far it is from the first voxel along
/// the quad's width and along its height.
pub open spec fn tile_of(face: int, c: Corner) -> (u32, u32) {
    if face < 2 {
        (c.x, c.z)
    } else if face < 4 {
        (c.y, c.z)
    } else {
        (c.x, c.y)
    }
}

/// Corner `k` of a quad.
pub open spec fn vertex_of(p: PlacedQuad, k: int) -> LayoutVertex {
    let (x, y, z, w, h, material) = binary_chunk::unpacked(p.quad);
    let corner = mesher::corners_of(p.face as int, w as u32, h as u32)[k];
    let tile = tile_of(p.face as int, corner);
    LayoutVertex {
        face: p.face,
        x: x as u32,
        y: y as u32,
        z: z as u32,
        corner,
        width: w as u32,
        height: h as u32,
        u: tile.0,
        v: tile.1,
        material: material as u16,
    }
}

/// The corner that place `k` of a quad's two triangles names. The corners of
/// quads that face up or down are taken the other way round.
pub open spec fn triangle_corner(face: int, k: int) -> int {
    let outward = if face < 2 {
        seq![0int, 2, 1, 0, 3, 2]
    } else {
        seq![0int, 1, 2, 0, 2, 3]
    };
    outward[k]
}

/// `m` lays out some quads.
pub open spec fn is_layout(m: MeshLayout, quads: Seq<PlacedQuad>) -> bool {
    &&& m.vertices@.len() == 4 * quads.len()
    &&& m.indices@.len() == 6 * quads.len()
    &&& m.edges@.len() == 4 * quads.len()
    &&& forall|i: int|
        0 <= i < m.vertices@.len() ==> (#[trigger] m.vertices@[i]) == vertex_of(
            quads[i / 4],
            i % 4,
        )
    &&& forall|i: int|
        0 <= i < m.indices@.len() ==> (#[trigger] m.indices@[i]) == 4 * (i / 6) + triangle_corner(
            quads[i / 6].face as int,
            i % 6,
        )
    &&& forall|i: int|
        0 <= i < m.edges@.len() ==> (#[trigger] m.edges@[i]).0 == i && m.edges@[i].1 == 4 * (i / 4)
            + (i + 1) % 4
}

/// Add the quads of one direction.
fn add_face(out: &mut Vec<PlacedQuad>, face: u8, quads: &Vec<u64>)
    ensures
        final(out)@ == old(out)@ + quads_of_face(face, quads@),
{
    let mut i: usize = 0;
    while i < quads.len()
        invariant
            i <= quads@.len(),
            out@ == old(out)@ + quads_of_face(face, quads@).take(i as int),
        decreases quads@.len() - i,
    {
        out.push(PlacedQuad { face, quad: quads[i] });
        i = i + 1;
    }
    assert(quads_of_face(face, quads@).take(i as int) =~= quads_of_face(face, quads@));
}

/// Add the vertices of a quad.
fn add_vertices(out: &mut Vec<LayoutVertex>, p: PlacedQuad)
    requires
        p.face < 6,
    ensures
        final(out)@ == old(out)@ + Seq::new(4, |k: int| vertex_of(p, k)),
{
    let (x, y, z, w, h, material) = binary_chunk::unpack_quad(p.quad);
    let corners = mesher::quad_corners(p.face as usize, w, h);
    let mut k: usize = 0;
    while k < 4
        invariant
            k <= 4,
            p.face < 6,
            corners@ == mesher::corners_of(p.face as int, w, h),
            (x as int, y as int, z as int, w as int, h as int, material as int)
                == binary_chunk::unpacked(p.quad),
            out@ == old(out)@ + Seq::new(k as nat, |j: int| vertex_of(p, j)),
        decreases 4 - k,
    {
        let corner = corners[k];
        let u: u32 = if p.face < 2 || p.face >= 4 { corner.x } else { corner.y };
        let v: u32 = if p.face < 4 { corner.z } else { corner.y };
        let vertex = LayoutVertex {
            face: p.face,
            x,
            y,
            z,
            corner,
            width: w,
            height: h,
            u,
            v,
            material,
        };
        assert(vertex == vertex_of(p, k as int));
        out.push(vertex);
        k = k + 1;
    }
}

/// Add the triangles of a quad.
fn add_triangles(out: &mut Vec<u32>, first: u32, face: u8)
    requires
        first <= u32::MAX - 3,
    ensures
        final(out)@.len() == old(out)@.len() + 6,
        forall|i: int| 0 <= i < old(out)@.len() ==> final(out)@[i] == old(out)@[i],
        forall|k: int|
            0 <= k < 6 ==> (#[trigger] final(out)@[old(out)@.len() + k]) == first
                + triangle_corner(face as int, k),
{
    let ghost n = out@.len() as int;
    let (second, third, fifth, sixth): (u32, u32, u32, u32) = if face < 2 {
        (first + 2, first + 1, first + 3, first + 2)
    } else {
        (first + 1, first + 2, first + 2, first + 3)
    };
    out.push(first);
    out.push(second);
    out.push(third);
    out.push(first);
    out.push(fifth);
    out.push(sixth);
    proof {
        assert(out@[n] == first && out@[n + 1] == second && out@[n + 2] == third && out@[n + 3]
            == first && out@[n + 4] == fifth && out@[n + 5] == sixth);
        assert forall|k: int| 0 <= k < 6 implies (#[trigger] out@[n + k]) == first
            + triangle_corner(face as int, k) by {
            assert(k == 0 || k == 1 || k == 2 || k == 3 || k == 4 || k == 5);
        }
    }
}

/// Lay out the quads of all directions.
pub fn layout_quads(quads: &[Vec<u64>; 6]) -> (m: MeshLayout)
    requires
        4 * mesher::quad_total(quads@) <= u32::MAX,
    ensures
        is_layout(m, placed_quads(quads@)),
{
    let mut placed: Vec<PlacedQuad> = Vec::new();
    add_face(&mut placed, 0, &quads[0]);
    add_face(&mut placed, 1, &quads[1]);
    add_face(&mut placed, 2, &quads[2]);
    add_face(&mut placed, 3, &quads[3]);
    add_face(&mut placed, 4, &quads[4]);
    add_face(&mut placed, 5, &quads[5]);
    assert(placed@ =~= placed_quads(quads@));
    let mut m = MeshLayout { vertices: Vec::new(), indices: Vec::new(), edges: Vec::new() };
    let mut n: usize = 0;
    while n < placed.len()
        invariant
            n <= placed@.len(),
            4 * placed@.len() <= u32::MAX,
            forall|i: int| 0 <= i < placed@.len() ==> (#[trigger] placed@[i]).face < 6,
            is_layout(m, placed@.take(n as int)),
        decreases placed@.len() - n,
    {
        let ghost before = m;
        add_vertices(&mut m.vertices, placed[n]);
        let first: u32 = 4 * n as u32;
        add_triangles(&mut m.indices, first, placed[n].face);
        m.edges.push((first, first + 1));
        m.edges.push((first + 1, first + 2));
        m.edges.push((first + 2, first + 3));
        m.edges.push((first + 3, first));
        proof {
            let done = placed@.take(n + 1);
            let old_done = placed@.take(n as int);
            assert forall|i: int| 0 <= i < m.vertices@.len() implies (#[trigger] m.vertices@[i])
                == vertex_of(done[i / 4], i % 4) by {
                if i < 4 * n {
                    assert(m.vertices@[i] == before.vertices@[i]);
                    assert(done[i / 4] == old_done[i / 4]);
                } else {
                    assert(i / 4 == n && i % 4 == i - 4 * n);
                }
            }
            assert forall|i: int| 0 <= i < m.indices@.len() implies (#[trigger] m.indices@[i]) == 4
                * (i / 6) + triangle_corner(done[i / 6].face as int, i % 6) by {
                if i < 6 * n {
                    assert(m.indices@[i] == before.indices@[i]);
                    assert(done[i / 6] == old_done[i / 6]);
                } else {
                    assert(i / 6 == n && i % 6 == i - 6 * n);
                    let k = i - 6 * n;
                    assert(m.indices@[before.indices@.len() + k] == first + triangle_corner(
                        placed@[n as int].face as int,
                        k,
                    ));
                }
            }
            assert forall|i: int| 0 <= i < m.edges@.len() implies (#[trigger] m.edges@[i]).0 == i
                && m.edges@[i].1 == 4 * (i / 4) + (i + 1) % 4 by {
                if i < 4 * n {
                    assert(m.edges@[i] == before.edges@[i]);
                } else {
                    assert(i / 4 == n);
                }
            }
        }
        n = n + 1;
    }
    assert(placed@.take(n as int) =~= placed@);
    m
}

/// A triangle's corners are three different vertices of one quad.
pub proof fn triangles_stay_in_their_quad(m: MeshLayout, quads: Seq<PlacedQuad>, t: int)
    requires
        is_layout(m, quads),
        0 <= t < 2 * quads.len(),
    ensures
        ({
            let (a, b, c) = (m.indices@[3 * t], m.indices@[3 * t + 1], m.indices@[3 * t + 2]);
            &&& a < m.vertices@.len() && b < m.vertices@.len() && c < m.vertices@.len()
            &&& a as int / 4 == t / 2 && b as int / 4 == t / 2 && c as int / 4 == t / 2
            &&& a != b && b != c && a != c
        }),
{
}

/// A step between corners, as a vector.
pub open spec fn corner_step(from: Corner, to: Corner) -> (int, int, int) {
    (to.x - from.x, to.y - from.y, to.z - from.z)
}

/// Cross product of two vectors.
pub open spec fn cross(e: (int, int, int), f: (int, int, int)) -> (int, int, int) {
    (e.1 * f.2 - e.2 * f.1, e.2 * f.0 - e.0 * f.2, e.0 * f.1 - e.1 * f.0)
}

/// Cross product of the edges of a quad's triangle `t`, at its first corner.
pub open spec fn triangle_cross(face: int, w: u32, h: u32, t: int) -> (int, int, int) {
    let c = mesher::corners_of(face, w, h);
    let a = c[triangle_corner(face, 3 * t)];
    let b = c[triangle_corner(face, 3 * t + 1)];
    let d = c[triangle_corner(face, 3 * t + 2)];
    cross(corner_step(a, b), corner_step(a, d))
}

/// Both triangles of a quad of any direction wind counter-clockwise as seen from
/// outside: their cross products are the face normal times the quad's area.
pub proof fn triangles_wind_outward(face: int, w: u32, h: u32, t: int)
    requires
        0 <= face < 6,
        t == 0 || t == 1,
    ensures
        ({
            let n = mesh_cpu::face_step(face);
            let area = w * h;
            triangle_cross(face, w, h, t) == (n.0 * area, n.1 * area, n.2 * area)
        }),
{
    lemma_products(w as int, h as int);
    assert(face == 0 || face == 1 || face == 2 || face == 3 || face == 4 || face == 5);
}

proof fn lemma_products(w: int, h: int)
    by (nonlinear_arith)
    ensures
        w * h == h * w,
        0 * w == 0 && w * 0 == 0 && 0 * h == 0 && h * 0 == 0 && 0 * 0 == 0,
        0 * (w * h) == 0 && 1 * (w * h) == w * h && (-1) * (w * h) == -(w * h),
{
}

/// The edges of a quad go round it: each ends where the next begins.
pub proof fn edges_go_round(m: MeshLayout, quads: Seq<PlacedQuad>, q: int, k: int)
    requires
        is_layout(m, quads),
        0 <= q < quads.len(),
        0 <= k < 4,
    ensures
        m.edges@[4 * q + k].1 == m.edges@[4 * q + (k + 1) % 4].0,
        m.edges@[4 * q + k].0 < m.vertices@.len(),
{
    assert((4 * q + k) / 4 == q);
}

/// The texture tiles a quad: its corners have the texture coordinates of a
/// rectangle of the quad's width and height.
pub proof fn texture_spans_the_quad(p: PlacedQuad)
    requires
        p.face < 6,
    ensures
        ({
            let w = vertex_of(p, 0).width;
            let h = vertex_of(p, 0).height;
            let at = |k: int| (vertex_of(p, k).u, vertex_of(p, k).v);
            &&& at(0) == (0u32, 0u32)
            &&& at(2) == (w, h)
            &&& (at(1) == (w, 0u32) && at(3) == (0u32, h)) || (at(1) == (0u32, h) && at(3) == (
                w,
                0u32,
            ))
        }),
{
}

/// The place of vertex `v` in usable coordinates of the chunk.
pub open spec fn vertex_point(v: LayoutVertex) -> (int, int, int) {
    (v.x + v.corner.x, v.y + v.corner.y, v.z + v.corner.z)
}

/// The places of the four vertices of quad `k`.
pub open spec fn quad_points(m: MeshLayout, k: int) -> Seq<(int, int, int)> {
    seq![
        vertex_point(m.vertices@[4 * k]),
        vertex_point(m.vertices@[4 * k + 1]),
        vertex_point(m.vertices@[4 * k + 2]),
        vertex_point(m.vertices@[4 * k + 3]),
    ]
}

/// All four vertices of quad `k` have a direction and a material.
pub open spec fn quad_is(m: MeshLayout, k: int, face: int, material: int) -> bool {
    forall|v: int|
        4 * k <= v < 4 * k + 4 ==> (#[trigger] m.vertices@[v]).face == face && m.vertices@[v].material
            == material
}

/// The vertices of a quad stand round the faces that the quad covers, and show its
/// direction and material.
pub proof fn vertices_bound_the_faces(
    m: MeshLayout,
    quads: Seq<PlacedQuad>,
    k: int,
    x: int,
    y: int,
    z: int,
)
    requires
        is_layout(m, quads),
        0 <= k < quads.len(),
        quads[k].face < 6,
    ensures
        merge::packed_covers(quads[k].quad, quads[k].face as int, x, y, z)
            <==> mesh_laws::face_between(
            quad_points(m, k),
            mesh_cpu::face_step(quads[k].face as int),
            x,
            y,
            z,
        ),
        quad_is(m, k, quads[k].face as int, binary_chunk::unpacked(quads[k].quad).5),
{
    let q = quads[k].quad;
    let f = binary_chunk::unpacked(q);
    mesher::corners_bound_the_faces(quads[k].face as int, f.3 as u32, f.4 as u32, q, x, y, z);
    assert(m.vertices@[4 * k] == vertex_of(quads[k], 0));
    assert(m.vertices@[4 * k + 1] == vertex_of(quads[k], 1));
    assert(m.vertices@[4 * k + 2] == vertex_of(quads[k], 2));
    assert(m.vertices@[4 * k + 3] == vertex_of(quads[k], 3));
    assert forall|v: int| 4 * k <= v < 4 * k + 4 implies (#[trigger] m.vertices@[v]).face
        == quads[k].face && m.vertices@[v].material == f.5 by {
        assert(v / 4 == k);
    }
}

/// Where a quad of one direction stands among the quads of all directions.
proof fn lemma_placed(quads: Seq<Vec<u64>>, face: int, k: int) -> (n: int)
    requires
        0 <= face < 6,
        0 <= k < quads[face]@.len(),
    ensures
        0 <= n < placed_quads(quads).len(),
        placed_quads(quads)[n] == (PlacedQuad { face: face as u8, quad: quads[face]@[k] }),
{
    let a = quads[0]@.len() as int;
    let b = a + quads[1]@.len();
    let c = b + quads[2]@.len();
    let d = c + quads[3]@.len();
    let e = d + quads[4]@.len();
    if face == 0 {
        k
    } else if face == 1 {
        a + k
    } else if face == 2 {
        b + k
    } else if face == 3 {
        c + k
    } else if face == 4 {
        d + k
    } else {
        e + k
    }
}

/// Every quad of all directions is one of its direction.
proof fn lemma_unplaced(quads: Seq<Vec<u64>>, n: int) -> (k: int)
    requires
        0 <= n < placed_quads(quads).len(),
    ensures
        ({
            let p = placed_quads(quads)[n];
            p.face < 6 && 0 <= k < quads[p.face as int]@.len() && quads[p.face as int]@[k] == p.quad
        }),
{
    let a = quads[0]@.len() as int;
    let b = a + quads[1]@.len();
    let c = b + quads[2]@.len();
    let d = c + quads[3]@.len();
    let e = d + quads[4]@.len();
    if n < a {
        n
    } else if n < b {
        n - a
    } else if n < c {
        n - b
    } else if n < d {
        n - c
    } else if n < e {
        n - d
    } else {
        n - e
    }
}

/// The layout of a chunk's merged quads shows every exposed face of the chunk, with
/// the material of its voxel. Voxels are given in padded coordinates.
pub proof fn exposed_faces_are_laid_out(
    c: BinaryChunk,
    masks: Seq<Vec<u64>>,
    quads: Seq<Vec<u64>>,
    m: MeshLayout,
    face: int,
    x: int,
    y: int,
    z: int,
) -> (k: int)
    requires
        binary_chunk::are_masks_of(c, masks),
        merge::are_chunk_quads(c, masks, quads),
        is_layout(m, placed_quads(quads)),
        0 <= face < 6,
        1 <= x <= 62 && 1 <= y <= 62 && 1 <= z <= 62,
        binary_chunk::face_exposed(c, face, x, y, z),
    ensures
        0 <= 4 * k < m.vertices@.len(),
        quad_is(m, k, face, c.at(x, y, z) as int),
        mesh_laws::face_between(
            quad_points(m, k),
            mesh_cpu::face_step(face),
            x - 1,
            y - 1,
            z - 1,
        ),
{
    assert(mesh_cpu::mask_bit(masks, face, x, y - 1, z));
    merge::visible_faces_are_covered(c, masks, face, face, x - 1, y - 1, z - 1);
    let j = choose|j: int|
        0 <= j < merge::face_quads(c, masks, face, face).len() && merge::packed_covers(
            #[trigger] merge::face_quads(c, masks, face, face)[j],
            face,
            x - 1,
            y - 1,
            z - 1,
        );
    merge::quads_cover_visible_faces(c, masks, face, face, j, x - 1, y - 1, z - 1);
    assert(quads[face]@ == merge::face_quads(c, masks, face, face));
    let k = lemma_placed(quads, face, j);
    vertices_bound_the_faces(m, placed_quads(quads), k, x - 1, y - 1, z - 1);
    k
}

/// The layout of a chunk's merged quads shows nothing but exposed faces, each with
/// the material of its voxel.
pub proof fn only_exposed_faces_are_laid_out(
    c: BinaryChunk,
    masks: Seq<Vec<u64>>,
    quads: Seq<Vec<u64>>,
    m: MeshLayout,
    k: int,
    x: int,
    y: int,
    z: int,
)
    requires
        binary_chunk::are_masks_of(c, masks),
        merge::are_chunk_quads(c, masks, quads),
        is_layout(m, placed_quads(quads)),
        0 <= 4 * k < m.vertices@.len(),
        mesh_laws::face_between(
            quad_points(m, k),
            mesh_cpu::face_step(m.vertices@[4 * k].face as int),
            x - 1,
            y - 1,
            z - 1,
        ),
    ensures
        binary_chunk::face_exposed(c, m.vertices@[4 * k].face as int, x, y, z),
        m.vertices@[4 * k].material == c.at(x, y, z),
{
    let p = placed_quads(quads)[k];
    let face = p.face as int;
    let j = lemma_unplaced(quads, k);
    vertices_bound_the_faces(m, placed_quads(quads), k, x - 1, y - 1, z - 1);
    assert(m.vertices@[4 * k].face == p.face);
    assert(quads[face]@ == merge::face_quads(c, masks, face, face));
    merge::quads_cover_visible_faces(c, masks, face, face, j, x - 1, y - 1, z - 1);
    assert(mesh_cpu::mask_bit(masks, face, x, y - 1, z));
}

/// Quads are laid out direction by direction, each direction's in order.
pub proof fn quads_are_placed_in_order(quads: Seq<Vec<u64>>, f: int, i: int) -> (k: int)
    requires
        quads.len() == 6,
        0 <= f < 6,
        0 <= i < quads[f]@.len(),
    ensures
        0 <= k < placed_quads(quads).len(),
        placed_quads(quads)[k].face == f,
        placed_quads(quads)[k].quad == quads[f]@[i],
        k == i + (if f > 0 {
            quads[0]@.len() as int
        } else {
            0
        }) + (if f > 1 {
            quads[1]@.len() as int
        } else {
            0
        }) + (if f > 2 {
            quads[2]@.len() as int
        } else {
            0
        }) + (if f > 3 {
            quads[3]@.len() as int
        } else {
            0
        }) + (if f > 4 {
            quads[4]@.len() as int
        } else {
            0
        }),
        placed_quads(quads).len() == quads[0]@.len() + quads[1]@.len() + quads[2]@.len()
            + quads[3]@.len() + quads[4]@.len() + quads[5]@.len(),
{
    i + (if f > 0 {
        quads[0]@.len() as int
    } else {
        0
    }) + (if f > 1 {
        quads[1]@.len() as int
    } else {
        0
    }) + (if f > 2 {
        quads[2]@.len() as int
    } else {
        0
    }) + (if f > 3 {
        quads[3]@.len() as int
    } else {
        0
    }) + (if f > 4 {
        quads[4]@.len() as int
    } else {
        0
    })
}

} // verus!
