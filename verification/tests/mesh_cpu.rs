use gestalt::mesh_cpu::{
    count_faces, cull_faces_cpu, greedy_merge, mesh_rebuild_cpu, total_face_count,
};
use gestalt::pool::{
    CS, CS_P, FACE_NEG_X, FACE_NEG_Y, FACE_NEG_Z, FACE_POS_X, FACE_POS_Y, FACE_POS_Z,
    MATERIAL_DEFAULT, MAX_INDICES_PER_CHUNK, MAX_VERTS_PER_CHUNK, OCCUPANCY_WORDS_PER_SLOT,
    VERTEX_BYTES,
};
use gestalt::scene::{IndexBufBuilder, OccupancyBuilder, PaletteBuilder, generate_test_scene};

/// Build default single-material palette data for tests that don't care about materials.
/// Returns (palette_words, index_buf_words, palette_meta).
fn default_palette_data() -> (Vec<u32>, Vec<u32>, u32) {
    let mut pal = PaletteBuilder::new();
    pal.add(MATERIAL_DEFAULT);
    let palette_words = pal.as_words();
    let bpe = IndexBufBuilder::bits_per_entry(pal.len());
    let ib = IndexBufBuilder::new(); // all zeros = palette_idx 0 everywhere
    let index_words = ib.pack(bpe);
    let meta = IndexBufBuilder::palette_meta(pal.len());
    (palette_words, index_words, meta)
}

fn occ_with_voxel(x: u32, y: u32, z: u32) -> Vec<u32> {
    let mut b = OccupancyBuilder::new();
    b.set(x, y, z);
    b.as_words().to_vec()
}

fn occ_with_voxels(voxels: &[(u32, u32, u32)]) -> Vec<u32> {
    let mut b = OccupancyBuilder::new();
    for &(x, y, z) in voxels {
        b.set(x, y, z);
    }
    b.as_words().to_vec()
}

// Face culling tests
#[test]
fn empty_chunk_zero_faces() {
    let occ = vec![0u32; OCCUPANCY_WORDS_PER_SLOT as usize];
    let masks = cull_faces_cpu(&occ);
    assert_eq!(total_face_count(&masks), 0);
}

#[test]
fn single_voxel_six_faces() {
    // Voxel at padded (32, 32, 32) = usable (31, 31, 31)
    let occ = occ_with_voxel(32, 32, 32);
    let masks = cull_faces_cpu(&occ);
    let counts = count_faces(&masks);
    // Each direction should have exactly 1 face
    for (i, &c) in counts.iter().enumerate() {
        assert_eq!(c, 1, "face direction {i} should have 1 face, got {c}");
    }
    assert_eq!(total_face_count(&masks), 6);
}

#[test]
fn two_adjacent_y_shared_face_culled() {
    // Two voxels stacked vertically: (32,32,32) and (32,33,32)
    let occ = occ_with_voxels(&[(32, 32, 32), (32, 33, 32)]);
    let masks = cull_faces_cpu(&occ);
    let counts = count_faces(&masks);
    // +Y: only top voxel has +Y face = 1
    assert_eq!(counts[FACE_POS_Y], 1, "+Y should have 1 face");
    // -Y: only bottom voxel has -Y face = 1
    assert_eq!(counts[FACE_NEG_Y], 1, "-Y should have 1 face");
    // X/Z faces: each voxel has its own = 2 each
    assert_eq!(counts[FACE_POS_X], 2);
    assert_eq!(counts[FACE_NEG_X], 2);
    assert_eq!(counts[FACE_POS_Z], 2);
    assert_eq!(counts[FACE_NEG_Z], 2);
    assert_eq!(total_face_count(&masks), 10); // 6+6 - 2 shared = 10
}

#[test]
fn two_adjacent_x_shared_face_culled() {
    let occ = occ_with_voxels(&[(32, 32, 32), (33, 32, 32)]);
    let masks = cull_faces_cpu(&occ);
    let counts = count_faces(&masks);
    assert_eq!(counts[FACE_POS_X], 1);
    assert_eq!(counts[FACE_NEG_X], 1);
    assert_eq!(counts[FACE_POS_Y], 2);
    assert_eq!(total_face_count(&masks), 10);
}

#[test]
fn two_adjacent_z_shared_face_culled() {
    let occ = occ_with_voxels(&[(32, 32, 32), (32, 32, 33)]);
    let masks = cull_faces_cpu(&occ);
    let counts = count_faces(&masks);
    assert_eq!(counts[FACE_POS_Z], 1);
    assert_eq!(counts[FACE_NEG_Z], 1);
    assert_eq!(total_face_count(&masks), 10);
}

#[test]
fn full_slab_only_surface() {
    // Fill the entire usable Y=1 layer (padded y=2)
    let mut b = OccupancyBuilder::new();
    for x in 1..CS_P - 1 {
        for z in 1..CS_P - 1 {
            b.set(x, 2, z); // padded y=2
        }
    }
    let occ = b.as_words().to_vec();
    let masks = cull_faces_cpu(&occ);
    let counts = count_faces(&masks);

    // +Y and -Y: each interior voxel has a face = 62*62 = 3844 each
    assert_eq!(counts[FACE_POS_Y], CS * CS, "+Y should be full slab");
    assert_eq!(counts[FACE_NEG_Y], CS * CS, "-Y should be full slab");
    // X faces: only edge voxels (z=1..62 at x=1 and x=62) = 62 each
    assert_eq!(counts[FACE_POS_X], CS, "+X should be edge only");
    assert_eq!(counts[FACE_NEG_X], CS, "-X should be edge only");
    assert_eq!(counts[FACE_POS_Z], CS, "+Z should be edge only");
    assert_eq!(counts[FACE_NEG_Z], CS, "-Z should be edge only");
}

#[test]
fn boundary_voxel_correct() {
    // Voxel at usable (0,0,0) = padded (1,1,1)
    let occ = occ_with_voxel(1, 1, 1);
    let masks = cull_faces_cpu(&occ);
    assert_eq!(total_face_count(&masks), 6, "boundary voxel should have 6 faces");
}

#[test]
fn face_count_symmetry() {
    // Symmetric cross pattern: center + 6 neighbors
    let occ = occ_with_voxels(&[
        (32, 32, 32),
        (31, 32, 32), (33, 32, 32),
        (32, 31, 32), (32, 33, 32),
        (32, 32, 31), (32, 32, 33),
    ]);
    let masks = cull_faces_cpu(&occ);
    let counts = count_faces(&masks);
    // By symmetry, each direction should have the same count
    assert_eq!(counts[FACE_POS_X], counts[FACE_NEG_X]);
    assert_eq!(counts[FACE_POS_Y], counts[FACE_NEG_Y]);
    assert_eq!(counts[FACE_POS_Z], counts[FACE_NEG_Z]);
}

// Greedy merge tests
#[test]
fn single_voxel_six_quads() {
    let occ = occ_with_voxel(32, 32, 32);
    let masks = cull_faces_cpu(&occ);
    let (pal, idx, meta) = default_palette_data();
    let bpe = (meta >> 16) & 0xFF;
    let quads = greedy_merge(&occ, &masks, &pal, &idx, bpe);
    assert_eq!(quads.len(), 6, "single voxel should produce 6 quads");
    for q in &quads {
        assert_eq!(q.width, 1);
        assert_eq!(q.height, 1);
    }
}

#[test]
fn two_voxel_bar_merges_y_face() {
    // Two voxels adjacent in X at same Y: (32,32,32) and (33,32,32)
    let occ = occ_with_voxels(&[(32, 32, 32), (33, 32, 32)]);
    let masks = cull_faces_cpu(&occ);
    let (pal, idx, meta) = default_palette_data();
    let bpe = (meta >> 16) & 0xFF;
    let quads = greedy_merge(&occ, &masks, &pal, &idx, bpe);

    // +Y face should merge into one width=2 quad
    let pos_y_quads: Vec<_> = quads.iter().filter(|q| q.face == FACE_POS_Y).collect();
    assert_eq!(pos_y_quads.len(), 1, "+Y should have 1 merged quad");
    assert_eq!(pos_y_quads[0].width, 2);
    assert_eq!(pos_y_quads[0].height, 1);
}

#[test]
fn slab_3x3_single_quad_top() {
    // 3x3 slab at y=32
    let mut voxels = Vec::new();
    for x in 32..35 {
        for z in 32..35 {
            voxels.push((x, 32, z));
        }
    }
    let occ = occ_with_voxels(&voxels);
    let masks = cull_faces_cpu(&occ);
    let (pal, idx, meta) = default_palette_data();
    let bpe = (meta >> 16) & 0xFF;
    let quads = greedy_merge(&occ, &masks, &pal, &idx, bpe);

    let pos_y_quads: Vec<_> = quads.iter().filter(|q| q.face == FACE_POS_Y).collect();
    assert_eq!(pos_y_quads.len(), 1, "+Y should merge into 1 quad");
    assert_eq!(pos_y_quads[0].width, 3);
    assert_eq!(pos_y_quads[0].height, 3);
}

// Vertex expansion tests
#[test]
fn single_voxel_vertex_counts() {
    let occ = occ_with_voxel(32, 32, 32);
    let (pal, idx, meta) = default_palette_data();
    let result = mesh_rebuild_cpu(&occ, &pal, &idx, meta, [0, 0, 0]);
    assert_eq!(result.draw_meta.vertex_count, 24, "6 quads x 4 verts = 24");
    assert_eq!(result.draw_meta.index_count, 36, "6 quads x 6 indices = 36");
    assert_eq!(result.quad_count, 6);
}

#[test]
fn vertex_positions_in_bounds() {
    let occ = occ_with_voxel(32, 32, 32);
    let (pal, idx, meta) = default_palette_data();
    let result = mesh_rebuild_cpu(&occ, &pal, &idx, meta, [0, 0, 0]);
    for i in 0..result.draw_meta.vertex_count as usize {
        let base = i * VERTEX_BYTES as usize;
        let px = f32::from_le_bytes(result.vertices[base..base + 4].try_into().unwrap());
        let py = f32::from_le_bytes(result.vertices[base + 4..base + 8].try_into().unwrap());
        let pz = f32::from_le_bytes(result.vertices[base + 8..base + 12].try_into().unwrap());
        assert!(px >= 0.0 && px <= CS_P as f32, "px={px} out of bounds");
        assert!(py >= 0.0 && py <= CS_P as f32, "py={py} out of bounds");
        assert!(pz >= 0.0 && pz <= CS_P as f32, "pz={pz} out of bounds");
    }
}

#[test]
fn index_pattern_correct() {
    let occ = occ_with_voxel(32, 32, 32);
    let (pal, idx, meta) = default_palette_data();
    let result = mesh_rebuild_cpu(&occ, &pal, &idx, meta, [0, 0, 0]);
    for i in (0..result.indices.len()).step_by(6) {
        let b = result.indices[i];
        assert_eq!(result.indices[i + 1], b + 1);
        assert_eq!(result.indices[i + 2], b + 2);
        assert_eq!(result.indices[i + 3], b);
        assert_eq!(result.indices[i + 4], b + 2);
        assert_eq!(result.indices[i + 5], b + 3);
    }
}

#[test]
fn draw_meta_counts_match() {
    let occ = occ_with_voxel(32, 32, 32);
    let (pal, idx, meta) = default_palette_data();
    let result = mesh_rebuild_cpu(&occ, &pal, &idx, meta, [0, 0, 0]);
    assert_eq!(
        result.draw_meta.vertex_count as usize,
        result.vertices.len() / VERTEX_BYTES as usize
    );
    assert_eq!(
        result.draw_meta.index_count as usize,
        result.indices.len()
    );
}

#[test]
fn empty_chunk_zero_output() {
    let occ = vec![0u32; OCCUPANCY_WORDS_PER_SLOT as usize];
    let (pal, idx, meta) = default_palette_data();
    let result = mesh_rebuild_cpu(&occ, &pal, &idx, meta, [0, 0, 0]);
    assert_eq!(result.draw_meta.vertex_count, 0);
    assert_eq!(result.draw_meta.index_count, 0);
    assert_eq!(result.quad_count, 0);
}

#[test]
fn within_pool_limits() {
    let (chunks, _) = generate_test_scene();
    let chunk = &chunks[0];
    let pal_words = chunk.palette.as_words();
    let bpe = IndexBufBuilder::bits_per_entry(chunk.palette.len());
    let idx_words = chunk.index_buf.pack(bpe);
    let meta = IndexBufBuilder::palette_meta(chunk.palette.len());
    let result = mesh_rebuild_cpu(
        chunk.occupancy.as_words(), &pal_words, &idx_words, meta,
        [0, 0, 0],
    );
    assert!(
        result.draw_meta.vertex_count <= MAX_VERTS_PER_CHUNK,
        "vertex_count {} exceeds MAX_VERTS_PER_CHUNK {}",
        result.draw_meta.vertex_count, MAX_VERTS_PER_CHUNK
    );
    assert!(
        result.draw_meta.index_count <= MAX_INDICES_PER_CHUNK,
        "index_count {} exceeds MAX_INDICES_PER_CHUNK {}",
        result.draw_meta.index_count, MAX_INDICES_PER_CHUNK
    );
}

#[test]
fn test_scene_reasonable_counts() {
    let (chunks, _) = generate_test_scene();
    let chunk = &chunks[0];
    let pal_words = chunk.palette.as_words();
    let bpe = IndexBufBuilder::bits_per_entry(chunk.palette.len());
    let idx_words = chunk.index_buf.pack(bpe);
    let meta = IndexBufBuilder::palette_meta(chunk.palette.len());
    let result = mesh_rebuild_cpu(
        chunk.occupancy.as_words(), &pal_words, &idx_words, meta,
        [0, 0, 0],
    );
    // The room + sphere + emissive should produce a nontrivial mesh
    assert!(result.quad_count > 100, "too few quads: {}", result.quad_count);
    assert!(result.draw_meta.vertex_count > 400, "too few verts: {}", result.draw_meta.vertex_count);
    assert!(result.draw_meta.index_count > 600, "too few indices: {}", result.draw_meta.index_count);
}

// Material boundary tests
#[test]
fn two_material_merge_boundary() {
    // Two adjacent voxels with DIFFERENT materials should NOT merge
    let mut occ_b = OccupancyBuilder::new();
    let mut pal = PaletteBuilder::new();
    let mut ib = IndexBufBuilder::new();

    occ_b.set(32, 32, 32);
    occ_b.set(33, 32, 32);

    let mat_a = pal.add(2); // MaterialId 2
    let mat_b = pal.add(3); // MaterialId 3
    ib.set(32, 32, 32, mat_a);
    ib.set(33, 32, 32, mat_b);

    let occ = occ_b.as_words().to_vec();
    let pal_words = pal.as_words();
    let bpe = IndexBufBuilder::bits_per_entry(pal.len());
    let idx_words = ib.pack(bpe);

    let masks = cull_faces_cpu(&occ);
    let quads = greedy_merge(&occ, &masks, &pal_words, &idx_words, bpe as u32);

    // +Y face should have 2 separate quads (not merged)
    let pos_y: Vec<_> = quads.iter().filter(|q| q.face == FACE_POS_Y).collect();
    assert_eq!(pos_y.len(), 2, "+Y should have 2 quads (material boundary)");
    // And they should have different material_ids
    assert_ne!(pos_y[0].material_id, pos_y[1].material_id);
}

#[test]
fn same_material_still_merges() {
    // Two adjacent voxels with SAME material should still merge
    let mut occ_b = OccupancyBuilder::new();
    let mut pal = PaletteBuilder::new();
    let mut ib = IndexBufBuilder::new();

    occ_b.set(32, 32, 32);
    occ_b.set(33, 32, 32);

    let mat_a = pal.add(2); // same material for both
    ib.set(32, 32, 32, mat_a);
    ib.set(33, 32, 32, mat_a);

    let occ = occ_b.as_words().to_vec();
    let pal_words = pal.as_words();
    let bpe = IndexBufBuilder::bits_per_entry(pal.len());
    let idx_words = ib.pack(bpe);

    let masks = cull_faces_cpu(&occ);
    let quads = greedy_merge(&occ, &masks, &pal_words, &idx_words, bpe as u32);

    let pos_y: Vec<_> = quads.iter().filter(|q| q.face == FACE_POS_Y).collect();
    assert_eq!(pos_y.len(), 1, "+Y should merge into 1 quad (same material)");
    assert_eq!(pos_y[0].width, 2);
}

#[test]
fn material_region_boundary() {
    // 4x1 bar: first 2 voxels = mat A, next 2 = mat B
    let mut occ_b = OccupancyBuilder::new();
    let mut pal = PaletteBuilder::new();
    let mut ib = IndexBufBuilder::new();

    let mat_a = pal.add(2);
    let mat_b = pal.add(3);

    for x in 32..36 {
        occ_b.set(x, 32, 32);
        let m = if x < 34 { mat_a } else { mat_b };
        ib.set(x, 32, 32, m);
    }

    let occ = occ_b.as_words().to_vec();
    let pal_words = pal.as_words();
    let bpe = IndexBufBuilder::bits_per_entry(pal.len());
    let idx_words = ib.pack(bpe);

    let masks = cull_faces_cpu(&occ);
    let quads = greedy_merge(&occ, &masks, &pal_words, &idx_words, bpe as u32);

    let pos_y: Vec<_> = quads.iter().filter(|q| q.face == FACE_POS_Y).collect();
    assert_eq!(pos_y.len(), 2, "+Y should have 2 quads at material boundary");
    // Each should be width=2
    for q in &pos_y {
        assert_eq!(q.width, 2, "each material region should be width=2");
    }
}

