use gestalt::binary_chunk::{BinaryChunk, pack_quad};
use gestalt::mesh_layout::layout_quads;
use gestalt::mesher::{Corner, mesh_chunk_with_stats};
use gestalt::pool::{FACE_NEG_Y, FACE_POS_X, FACE_POS_Y, FACE_NEG_Z};

#[test]
fn wireframe_single_quad() {
    let mut packed_quads: [Vec<u64>; 6] = Default::default();
    packed_quads[FACE_POS_Y].push(pack_quad(10, 10, 10, 5, 3, 1));

    let debug = layout_quads(&packed_quads);

    // 1 quad, 4 edges, 8 endpoints of 3 coordinates
    assert_eq!(debug.edges.len() * 2 * 3, 24);
    // 1 quad, 4 vertices of 3 color components
    assert_eq!(debug.vertices.len() * 3, 12);
}

#[test]
fn wireframe_multiple_faces() {
    let mut packed_quads: [Vec<u64>; 6] = Default::default();
    packed_quads[FACE_POS_Y].push(pack_quad(0, 0, 0, 1, 1, 1));
    packed_quads[FACE_NEG_Y].push(pack_quad(0, 0, 0, 1, 1, 1));
    packed_quads[FACE_POS_X].push(pack_quad(0, 0, 0, 1, 1, 1));

    let debug = layout_quads(&packed_quads);

    // 3 quads: 72 coordinates for lines, 36 color components
    assert_eq!(debug.edges.len() * 2 * 3, 72);
    assert_eq!(debug.vertices.len() * 3, 36);
}

#[test]
fn face_colors_match_direction() {
    let mut packed_quads: [Vec<u64>; 6] = Default::default();
    packed_quads[FACE_POS_Y].push(pack_quad(0, 0, 0, 1, 1, 1));

    let debug = layout_quads(&packed_quads);

    // All 4 vertices have the direction that their color is chosen by
    for i in 0..4 {
        assert_eq!(debug.vertices[i].face as usize, FACE_POS_Y);
    }
}

#[test]
fn mesh_with_uvs_has_material_ids() {
    let mut chunk = BinaryChunk::new();
    chunk.set(32, 32, 32, 42);

    let mesh = mesh_chunk_with_stats(&chunk);
    let layout = layout_quads(&mesh.quads);

    assert!(layout.vertices.iter().any(|v| v.u > 0 && v.v > 0));
    assert_eq!(layout.vertices.len(), mesh.stats.vertex_count);

    // All material IDs should be 42
    for v in &layout.vertices {
        assert_eq!(v.material, 42);
    }
}

#[test]
fn quad_is_laid_out() {
    let mut packed_quads: [Vec<u64>; 6] = Default::default();
    packed_quads[FACE_POS_Y].push(pack_quad(10, 11, 12, 5, 3, 7));
    packed_quads[FACE_NEG_Z].push(pack_quad(1, 2, 3, 4, 6, 8));

    let layout = layout_quads(&packed_quads);

    assert_eq!(layout.indices, [0, 2, 1, 0, 3, 2, 4, 5, 6, 4, 6, 7]);
    assert_eq!(
        layout.edges,
        [(0, 1), (1, 2), (2, 3), (3, 0), (4, 5), (5, 6), (6, 7), (7, 4)]
    );
    let v = layout.vertices[2];
    assert_eq!((v.face, v.x, v.y, v.z, v.material), (0, 10, 11, 12, 7));
    assert_eq!(v.corner, Corner { x: 5, y: 1, z: 3 });
    assert_eq!((v.u, v.v), (5, 3));
    let v = layout.vertices[5];
    assert_eq!((v.face, v.x, v.y, v.z, v.material), (5, 1, 2, 3, 8));
    assert_eq!(v.corner, Corner { x: 0, y: 6, z: 0 });
    assert_eq!((v.u, v.v), (0, 6));
    assert_eq!((v.width, v.height), (4, 6));
}

#[test]
fn triangles_face_outward() {
    let normals = [[0, 1, 0], [0, -1, 0], [1, 0, 0], [-1, 0, 0], [0, 0, 1], [0, 0, -1]];
    for face in 0..6 {
        let mut packed_quads: [Vec<u64>; 6] = Default::default();
        packed_quads[face].push(pack_quad(1, 2, 3, 5, 3, 1));
        let layout = layout_quads(&packed_quads);
        for triangle in layout.indices.chunks(3) {
            let p: Vec<[i32; 3]> = triangle
                .iter()
                .map(|i| layout.vertices[*i as usize].corner)
                .map(|c| [c.x as i32, c.y as i32, c.z as i32])
                .collect();
            let e = [p[1][0] - p[0][0], p[1][1] - p[0][1], p[1][2] - p[0][2]];
            let f = [p[2][0] - p[0][0], p[2][1] - p[0][1], p[2][2] - p[0][2]];
            let cross = [
                e[1] * f[2] - e[2] * f[1],
                e[2] * f[0] - e[0] * f[2],
                e[0] * f[1] - e[1] * f[0],
            ];
            assert_eq!(cross, normals[face].map(|n| n * 15));
        }
    }
}
