use gestalt::binary_chunk::{BinaryChunk, pack_quad};
use gestalt::mesher::{MeshStats, compute_direction_stats, mesh_chunk_with_stats};
use gestalt::pool::{FACE_NEG_Y, FACE_POS_Y};

fn merge_efficiency(stats: &MeshStats) -> f32 {
    if stats.max_possible_quads > 0 {
        1.0 - stats.quad_count as f32 / stats.max_possible_quads as f32
    } else {
        0.0
    }
}

#[test]
fn mesh_single_voxel() {
    let mut chunk = BinaryChunk::new();
    chunk.set(32, 32, 32, 1);

    let mesh = mesh_chunk_with_stats(&chunk);

    // Single voxel = 6 faces = 6 quads = 24 vertices, 12 triangles
    assert_eq!(mesh.stats.vertex_count, 24);
    assert_eq!(mesh.stats.triangle_count, 12);
}

#[test]
fn mesh_empty_chunk() {
    let chunk = BinaryChunk::new();
    let mesh = mesh_chunk_with_stats(&chunk);

    assert_eq!(mesh.stats.vertex_count, 0);
    assert_eq!(mesh.stats.triangle_count, 0);
}

#[test]
fn mesh_stats_merge_efficiency() {
    let mut chunk = BinaryChunk::new();
    // 10x10 slab - should merge well
    for x in 20..30 {
        for z in 20..30 {
            chunk.set(x, 32, z, 1);
        }
    }

    let mesh = mesh_chunk_with_stats(&chunk);
    let stats = &mesh.stats;

    // Should have very high merge efficiency for a solid slab
    assert!(merge_efficiency(stats) > 0.9, "Expected high merge efficiency, got {}", merge_efficiency(stats));

    // +Y and -Y faces should merge to 1 quad each, edges to few quads
    assert!(stats.quad_count < 50, "Expected few quads from merged slab, got {}", stats.quad_count);
}

#[test]
fn mesh_checkerboard_low_efficiency() {
    let mut chunk = BinaryChunk::new();
    // Checkerboard pattern - minimal merging possible
    for x in 20..30 {
        for y in 20..30 {
            for z in 20..30 {
                if (x + y + z) % 2 == 0 {
                    chunk.set(x, y, z, 1);
                }
            }
        }
    }

    let mesh = mesh_chunk_with_stats(&chunk);
    let stats = &mesh.stats;

    // Checkerboard has low merge efficiency
    assert!(merge_efficiency(stats) < 0.5, "Checkerboard should have low merge efficiency, got {}", merge_efficiency(stats));
}

#[test]
fn mesh_cube_interior_culled() {
    let mut chunk = BinaryChunk::new();
    // Solid 10x10x10 cube
    for x in 20..30 {
        for y in 20..30 {
            for z in 20..30 {
                chunk.set(x, y, z, 1);
            }
        }
    }

    let mesh = mesh_chunk_with_stats(&chunk);
    let stats = &mesh.stats;

    // Only surface faces should be generated (not interior)
    // 10x10 cube = 6 faces of 100 each = 600 potential faces
    // But with merging, we get 6 quads (one per side)
    assert_eq!(stats.quads_per_face, [1, 1, 1, 1, 1, 1], "Solid cube should have 1 merged quad per face");
    assert_eq!(stats.quad_count, 6);

    // 6 quads = 24 vertices, 12 triangles
    assert_eq!(mesh.stats.vertex_count, 24);
    assert_eq!(mesh.stats.triangle_count, 12);
}

#[test]
fn direction_stats() {
    let mut packed_quads: [Vec<u64>; 6] = Default::default();
    // +Y: one 10x10 quad (100 faces)
    packed_quads[FACE_POS_Y].push(pack_quad(0, 0, 0, 10, 10, 1));
    // -Y: two quads (5x5 = 25 each = 50 total)
    packed_quads[FACE_NEG_Y].push(pack_quad(0, 0, 0, 5, 5, 1));
    packed_quads[FACE_NEG_Y].push(pack_quad(5, 0, 0, 5, 5, 1));

    let stats = compute_direction_stats(&packed_quads, 150);

    assert_eq!(stats.quad_counts[FACE_POS_Y], 1);
    assert_eq!(stats.quad_counts[FACE_NEG_Y], 2);
    assert_eq!(stats.face_counts[FACE_POS_Y], 100);
    assert_eq!(stats.face_counts[FACE_NEG_Y], 50);
    assert_eq!(stats.total_quads, 3);
    assert_eq!(stats.total_faces, 150);
    assert_eq!(stats.naive_triangles, 300);
    assert_eq!(stats.merged_triangles, 6);
    assert!(stats.naive_triangles as f32 / stats.merged_triangles as f32 > 49.0);
}
