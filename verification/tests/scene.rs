use gestalt::coord::ChunkCoord;
use gestalt::half::pack_f16_pair;
use gestalt::materials::MaterialEntry;
use gestalt::pool::{
    CS_P, MATERIAL_EMPTY, MATERIAL_ENTRY_BYTES, MAX_MATERIALS, OCCUPANCY_WORDS_PER_SLOT,
};
use gestalt::scene::{
    ChunkData, IndexBufBuilder, MAT_BLUE, MAT_EMISSIVE, MAT_STONE, OccupancyBuilder, PaletteBuilder,
    generate_emissive_clusters, generate_room, generate_sphere, generate_test_scene,
    merge_chunk_layer,
};

#[test]
fn occupancy_builder_set_get() {
    let mut b = OccupancyBuilder::new();
    assert!(!b.get(10, 20, 30));
    b.set(10, 20, 30);
    assert!(b.get(10, 20, 30));
    assert!(!b.get(10, 20, 31));
    assert!(!b.get(10, 21, 30));
    assert!(!b.get(11, 20, 30));
}

#[test]
fn occupancy_builder_clear() {
    let mut b = OccupancyBuilder::new();
    b.set(5, 5, 5);
    assert!(b.get(5, 5, 5));
    b.clear(5, 5, 5);
    assert!(!b.get(5, 5, 5));
}

#[test]
fn occupancy_builder_corners() {
    let mut b = OccupancyBuilder::new();
    // All 8 corners of the 64^3 grid
    let corners = [
        (0, 0, 0), (63, 0, 0), (0, 63, 0), (0, 0, 63),
        (63, 63, 0), (63, 0, 63), (0, 63, 63), (63, 63, 63),
    ];
    for &(x, y, z) in &corners {
        b.set(x, y, z);
    }
    for &(x, y, z) in &corners {
        assert!(b.get(x, y, z), "Corner ({x},{y},{z}) not set");
    }
    assert_eq!(b.popcount(), 8);
}

#[test]
fn occupancy_builder_popcount() {
    let mut b = OccupancyBuilder::new();
    assert_eq!(b.popcount(), 0);
    b.set(0, 0, 0);
    b.set(1, 1, 1);
    b.set(2, 2, 2);
    assert_eq!(b.popcount(), 3);
}

#[test]
fn occupancy_builder_word_count() {
    let b = OccupancyBuilder::new();
    assert_eq!(b.as_words().len(), OCCUPANCY_WORDS_PER_SLOT as usize);
}

#[test]
fn occupancy_builder_y_boundary() {
    // Test voxels at y=31 and y=32 (u32 word boundary)
    let mut b = OccupancyBuilder::new();
    b.set(0, 31, 0);
    b.set(0, 32, 0);
    assert!(b.get(0, 31, 0));
    assert!(b.get(0, 32, 0));
    assert!(!b.get(0, 30, 0));
    assert!(!b.get(0, 33, 0));
}

#[test]
fn palette_builder_basics() {
    let mut p = PaletteBuilder::new();
    assert_eq!(p.len(), 1); // starts with MATERIAL_EMPTY
    let idx = p.add(MAT_STONE);
    assert_eq!(idx, 1);
    // Adding same material returns same index
    let idx2 = p.add(MAT_STONE);
    assert_eq!(idx2, 1);
    assert_eq!(p.len(), 2);
}

#[test]
fn palette_builder_packing() {
    let mut p = PaletteBuilder::new();
    p.add(MAT_STONE); // index 1
    p.add(MAT_BLUE);  // index 2
    let words = p.as_words();
    // Word 0: entries[0] (lo 16) | entries[1] (hi 16)
    assert_eq!(words[0] & 0xFFFF, MATERIAL_EMPTY as u32);
    assert_eq!((words[0] >> 16) & 0xFFFF, MAT_STONE as u32);
    // Word 1: entries[2] (lo 16)
    assert_eq!(words[1] & 0xFFFF, MAT_BLUE as u32);
}

#[test]
fn f16_roundtrip_common_values() {
    // Verify f16 conversion doesn't lose significant precision for [0, 1] range
    for &val in &[0.0f32, 0.5, 1.0, 0.25, 0.75] {
        let packed = pack_f16_pair(val.to_bits(), 0.0f32.to_bits());
        let f16_bits = (packed & 0xFFFF) as u16;
        // Reconstruct: just verify it's non-zero for non-zero input
        if val > 0.0 {
            assert_ne!(f16_bits, 0, "f16 of {val} should be non-zero");
        } else {
            assert_eq!(f16_bits, 0);
        }
    }
}

#[test]
fn generate_room_has_walls_floor_ceiling() {
    let chunk = generate_room(ChunkCoord { x: 0, y: 0, z: 0 });
    let occ = &chunk.occupancy;

    // Floor: y=1 should be filled across interior
    assert!(occ.get(10, 1, 10));
    assert!(occ.get(50, 1, 50));
    // Ceiling: y=62
    assert!(occ.get(10, 62, 10));
    // Walls
    assert!(occ.get(1, 30, 30));  // left
    assert!(occ.get(62, 30, 30)); // right
    assert!(occ.get(30, 30, 1));  // front
    assert!(occ.get(30, 30, 62)); // back
    // Interior should be empty
    assert!(!occ.get(30, 30, 30));

    assert!(occ.popcount() > 0);
}

#[test]
fn generate_sphere_shape() {
    let chunk = generate_sphere(ChunkCoord { x: 0, y: 0, z: 0 }, 32, 25, 32, 10);
    let occ = &chunk.occupancy;

    // Center should be occupied
    assert!(occ.get(32, 25, 32));
    // Point on surface (radius = 10 along x)
    assert!(occ.get(42, 25, 32));
    // Point outside (radius + 2)
    assert!(!occ.get(44, 25, 32));

    // Rough volume check: 4/3 pi r^3 ~ 4189 for r=10
    let count = occ.popcount();
    assert!(count > 3000, "Sphere too small: {count} voxels");
    assert!(count < 5500, "Sphere too large: {count} voxels");
}

#[test]
fn generate_emissive_clusters_count() {
    let chunk = generate_emissive_clusters(ChunkCoord { x: 0, y: 0, z: 0 });
    // 3 clusters x 2^3 = 24 voxels
    assert_eq!(chunk.occupancy.popcount(), 24);
}

#[test]
fn test_scene_is_nonempty() {
    let (chunks, materials) = generate_test_scene();
    assert_eq!(chunks.len(), 1);
    assert!(chunks[0].occupancy.popcount() > 0);
    assert_eq!(materials.len(), MAX_MATERIALS as usize);

    // Verify materials are populated
    let stone = &materials[MAT_STONE as usize];
    assert_ne!(stone.albedo_rg, 0);
    let emissive = &materials[MAT_EMISSIVE as usize];
    assert_ne!(emissive.emissive_rg, 0);
}

#[test]
fn merge_chunk_layer_is_union() {
    let coord = ChunkCoord { x: 0, y: 0, z: 0 };
    let mut dest = ChunkData {
        coord,
        occupancy: OccupancyBuilder::new(),
        palette: PaletteBuilder::new(),
        index_buf: IndexBufBuilder::new(),
    };
    let mut src = ChunkData {
        coord,
        occupancy: OccupancyBuilder::new(),
        palette: PaletteBuilder::new(),
        index_buf: IndexBufBuilder::new(),
    };
    dest.occupancy.set(10, 10, 10);
    let mat_a = dest.palette.add(MAT_STONE);
    dest.index_buf.set(10, 10, 10, mat_a);

    src.occupancy.set(20, 20, 20);

    let mat_b = dest.palette.add(MAT_BLUE);
    merge_chunk_layer(&mut dest, &src, mat_b);

    assert!(dest.occupancy.get(10, 10, 10));
    assert!(dest.occupancy.get(20, 20, 20));
    assert_eq!(dest.occupancy.popcount(), 2);
    // Material assignments are correct
    assert_eq!(dest.index_buf.get(10, 10, 10), mat_a);
    assert_eq!(dest.index_buf.get(20, 20, 20), mat_b);
}

#[test]
fn material_entry_size() {
    assert_eq!(
        std::mem::size_of::<MaterialEntry>(),
        MATERIAL_ENTRY_BYTES as usize,
        "MaterialEntry must be exactly 16 bytes"
    );
}

// IndexBufBuilder tests
#[test]
fn index_buf_set_get() {
    let mut ib = IndexBufBuilder::new();
    assert_eq!(ib.get(10, 20, 30), 0);
    ib.set(10, 20, 30, 5);
    assert_eq!(ib.get(10, 20, 30), 5);
    assert_eq!(ib.get(10, 20, 31), 0); // neighbor unchanged
}

#[test]
fn index_buf_bits_per_entry() {
    assert_eq!(IndexBufBuilder::bits_per_entry(1), 1);
    assert_eq!(IndexBufBuilder::bits_per_entry(2), 1);
    assert_eq!(IndexBufBuilder::bits_per_entry(3), 2);
    assert_eq!(IndexBufBuilder::bits_per_entry(4), 2);
    assert_eq!(IndexBufBuilder::bits_per_entry(5), 4);
    assert_eq!(IndexBufBuilder::bits_per_entry(16), 4);
    assert_eq!(IndexBufBuilder::bits_per_entry(17), 8);
    assert_eq!(IndexBufBuilder::bits_per_entry(256), 8);
}

#[test]
fn index_buf_pack_roundtrip_bpe1() {
    let mut ib = IndexBufBuilder::new();
    ib.set(1, 1, 1, 1);
    ib.set(32, 32, 32, 0);
    ib.set(62, 62, 62, 1);
    let packed = ib.pack(1);
    // Decode and verify
    for x in 0..CS_P {
        for y in 0..CS_P {
            for z in 0..CS_P {
                let expected = ib.get(x, y, z);
                let vi = (x * CS_P * CS_P + y * CS_P + z) as usize;
                let word = packed[vi / 32];
                let bit = vi % 32;
                let decoded = ((word >> bit) & 1) as u8;
                assert_eq!(decoded, expected, "mismatch at ({x},{y},{z})");
            }
        }
    }
}

#[test]
fn index_buf_pack_roundtrip_bpe8() {
    let mut ib = IndexBufBuilder::new();
    ib.set(1, 1, 1, 42);
    ib.set(10, 20, 30, 255);
    ib.set(62, 62, 62, 7);
    let packed = ib.pack(8);
    // Decode and verify selected entries
    let decode = |x: u32, y: u32, z: u32| -> u8 {
        let vi = (x * CS_P * CS_P + y * CS_P + z) as usize;
        let bit_off = vi * 8;
        let word = packed[bit_off / 32];
        let bit = bit_off % 32;
        ((word >> bit) & 0xFF) as u8
    };
    assert_eq!(decode(1, 1, 1), 42);
    assert_eq!(decode(10, 20, 30), 255);
    assert_eq!(decode(62, 62, 62), 7);
    assert_eq!(decode(0, 0, 0), 0); // unset voxel
}

#[test]
fn index_buf_pack_roundtrip_bpe4() {
    let mut ib = IndexBufBuilder::new();
    // Set various values in [0, 15] range
    ib.set(5, 5, 5, 12);
    ib.set(5, 5, 6, 3);
    ib.set(63, 63, 63, 15);
    let packed = ib.pack(4);
    let decode = |x: u32, y: u32, z: u32| -> u8 {
        let vi = (x * CS_P * CS_P + y * CS_P + z) as usize;
        let bit_off = vi * 4;
        let word = packed[bit_off / 32];
        let bit = bit_off % 32;
        ((word >> bit) & 0xF) as u8
    };
    assert_eq!(decode(5, 5, 5), 12);
    assert_eq!(decode(5, 5, 6), 3);
    assert_eq!(decode(63, 63, 63), 15);
    assert_eq!(decode(0, 0, 0), 0);
}

#[test]
fn index_buf_palette_meta_packing() {
    let meta = IndexBufBuilder::palette_meta(5);
    let palette_size = meta & 0xFFFF;
    let bpe = (meta >> 16) & 0xFF;
    let reserved = (meta >> 24) & 0xFF;
    assert_eq!(palette_size, 5);
    assert_eq!(bpe, 4); // 5 entries -> bpe=4
    assert_eq!(reserved, 0); // reserved bits must be 0
}
