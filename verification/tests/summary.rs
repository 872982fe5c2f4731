use gestalt::coord::ChunkCoord;
use gestalt::materials::{MaterialEntry, test_scene_materials};
use gestalt::pool::{BRICKLETS_PER_AXIS, BRICKLET_DIM, CS_P, MAX_MATERIALS};
use gestalt::scene::{
    MAT_BLUE, MAT_EMISSIVE, MAT_STONE, OccupancyBuilder, PaletteBuilder, generate_sphere,
    generate_test_scene,
};
use gestalt::summary_cpu::{
    FLAG_HAS_EMISSIVE, FLAG_IS_EMPTY, FLAG_IS_FULLY_OPAQUE, FLAG_IS_RESIDENT, VoxelBounds,
    compute_summary, world_bounds,
};

/// A summary with the chunk's bounds in world space.
struct WorldSummary {
    summary: [u32; 16],
    flags: u32,
    aabb_min: [f32; 4],
    aabb_max: [f32; 4],
}

fn world_summary(
    occupancy: &[u32],
    palette: &[u32],
    material_table: &[MaterialEntry],
    chunk_coord: [i32; 3],
    voxel_size: f32,
    grid_origin: [f32; 3],
) -> WorldSummary {
    let r = compute_summary(occupancy, palette, material_table);
    let (aabb_min, aabb_max) = match r.bounds {
        None => (
            [f32::INFINITY, f32::INFINITY, f32::INFINITY, 0.0],
            [f32::NEG_INFINITY, f32::NEG_INFINITY, f32::NEG_INFINITY, 0.0],
        ),
        Some(b) => {
            let w = world_bounds(&b, chunk_coord);
            let corner = |v: [u32; 3]| {
                let at = |i: usize| {
                    w.offset[i] as f32 * voxel_size + grid_origin[i] + v[i] as f32 * voxel_size
                };
                [at(0), at(1), at(2), 0.0]
            };
            (corner(w.min), corner(w.max))
        }
    };
    WorldSummary { summary: r.summary, flags: r.flags, aabb_min, aabb_max }
}

fn empty_materials() -> Vec<MaterialEntry> {
    vec![MaterialEntry::new([0; 3], 0, [0; 3], 0); MAX_MATERIALS as usize]
}

fn test_materials() -> Vec<MaterialEntry> {
    test_scene_materials()
}

#[test]
fn empty_chunk() {
    let occ = OccupancyBuilder::new();
    let pal = PaletteBuilder::new();
    let result = world_summary(
        occ.as_words(), &pal.as_words(), &empty_materials(), [0, 0, 0], 1.0, [0.0; 3],
    );
    assert!(result.flags & FLAG_IS_EMPTY != 0, "should be empty");
    assert!(result.summary.iter().all(|&w| w == 0), "summary should be all zeros");
    assert!(result.aabb_min[0].is_infinite(), "AABB min should be +INF");
    assert!(result.aabb_max[0].is_infinite(), "AABB max should be -INF");
}

#[test]
fn full_chunk() {
    let mut occ = OccupancyBuilder::new();
    for x in 0..CS_P {
        for y in 0..CS_P {
            for z in 0..CS_P {
                occ.set(x, y, z);
            }
        }
    }
    let pal = PaletteBuilder::new();
    let result = world_summary(
        occ.as_words(), &pal.as_words(), &empty_materials(), [0, 0, 0], 1.0, [0.0; 3],
    );
    assert!(result.flags & FLAG_IS_EMPTY == 0, "should not be empty");
    assert!(result.flags & FLAG_IS_FULLY_OPAQUE != 0, "should be fully opaque");
    assert!(result.summary.iter().all(|&w| w == 0xFFFFFFFF), "summary should be all ones");
    // AABB should be full chunk extent (offset -1 for chunk 0)
    assert_eq!(result.aabb_min[0], -1.0);
    assert_eq!(result.aabb_min[1], -1.0);
    assert_eq!(result.aabb_min[2], -1.0);
    assert_eq!(result.aabb_max[0], 63.0);
    assert_eq!(result.aabb_max[1], 63.0);
    assert_eq!(result.aabb_max[2], 63.0);
}

#[test]
fn single_voxel_at_17_42_31() {
    let mut occ = OccupancyBuilder::new();
    occ.set(17, 42, 31);
    let pal = PaletteBuilder::new();
    let result = world_summary(
        occ.as_words(), &pal.as_words(), &empty_materials(), [0, 0, 0], 1.0, [0.0; 3],
    );
    assert!(result.flags & FLAG_IS_EMPTY == 0);
    assert!(result.flags & FLAG_IS_FULLY_OPAQUE == 0);

    // Bricklet (2, 5, 3): bx=17/8=2, by=42/8=5, bz=31/8=3
    let bit_index = 2 * 64 + 5 * 8 + 3;
    let word_idx = (bit_index >> 5) as usize;
    let bit_within = bit_index & 31;
    assert!(result.summary[word_idx] & (1 << bit_within) != 0, "bricklet (2,5,3) should be set");

    // Only one bricklet bit should be set
    let total_bits: u32 = result.summary.iter().map(|w| w.count_ones()).sum();
    assert_eq!(total_bits, 1, "exactly one bricklet should be set");

    // AABB: tight around padded (17, 42, 31) with world_offset = -1 for chunk 0
    assert_eq!(result.aabb_min[0], 16.0);
    assert_eq!(result.aabb_min[1], 41.0);
    assert_eq!(result.aabb_min[2], 30.0);
    assert_eq!(result.aabb_max[0], 17.0);
    assert_eq!(result.aabb_max[1], 42.0);
    assert_eq!(result.aabb_max[2], 31.0);
}

#[test]
fn single_voxel_world_offset() {
    let mut occ = OccupancyBuilder::new();
    occ.set(10, 20, 30);
    let pal = PaletteBuilder::new();
    // Chunk at (1, 2, 3): world_offset = coord * CS - 1 = (61, 123, 185)
    // Voxel at padded (10, 20, 30): world = offset + padded = (71, 143, 215)
    let result = world_summary(
        occ.as_words(), &pal.as_words(), &empty_materials(), [1, 2, 3], 1.0, [0.0; 3],
    );
    assert_eq!(result.aabb_min[0], 61.0 + 10.0);
    assert_eq!(result.aabb_min[1], 123.0 + 20.0);
    assert_eq!(result.aabb_min[2], 185.0 + 30.0);
    assert_eq!(result.aabb_max[0], 61.0 + 11.0);
    assert_eq!(result.aabb_max[1], 123.0 + 21.0);
    assert_eq!(result.aabb_max[2], 185.0 + 31.0);
}

#[test]
fn emissive_detection() {
    let mut pal = PaletteBuilder::new();
    pal.add(MAT_EMISSIVE);
    let occ = OccupancyBuilder::new();
    let mats = test_materials();
    let result = world_summary(
        occ.as_words(), &pal.as_words(), &mats, [0, 0, 0], 1.0, [0.0; 3],
    );
    assert!(result.flags & FLAG_HAS_EMISSIVE != 0, "should detect emissive material");
}

#[test]
fn no_emissive_without_emissive_material() {
    let mut pal = PaletteBuilder::new();
    pal.add(MAT_STONE);
    pal.add(MAT_BLUE);
    let occ = OccupancyBuilder::new();
    let mats = test_materials();
    let result = world_summary(
        occ.as_words(), &pal.as_words(), &mats, [0, 0, 0], 1.0, [0.0; 3],
    );
    assert!(result.flags & FLAG_HAS_EMISSIVE == 0, "should not detect emissive");
}

#[test]
fn sphere_aabb_containment() {
    let chunk = generate_sphere(
        ChunkCoord { x: 0, y: 0, z: 0 }, 32, 25, 32, 10,
    );
    let mats = test_materials();
    let result = world_summary(
        chunk.occupancy.as_words(), &chunk.palette.as_words(), &mats, [0, 0, 0], 1.0, [0.0; 3],
    );

    assert!(result.flags & FLAG_IS_EMPTY == 0);

    // Every occupied voxel must be inside the AABB.
    // AABB is in world space: world = padded - 1 (for chunk 0 with world_offset = -1).
    for x in 0..CS_P {
        for y in 0..CS_P {
            for z in 0..CS_P {
                if chunk.occupancy.get(x, y, z) {
                    let wx = x as f32 - 1.0;
                    let wy = y as f32 - 1.0;
                    let wz = z as f32 - 1.0;
                    assert!(
                        wx >= result.aabb_min[0] && (wx + 1.0) <= result.aabb_max[0]
                        && wy >= result.aabb_min[1] && (wy + 1.0) <= result.aabb_max[1]
                        && wz >= result.aabb_min[2] && (wz + 1.0) <= result.aabb_max[2],
                        "Voxel ({x},{y},{z}) world ({wx},{wy},{wz}) outside AABB [{:?}..{:?}]",
                        &result.aabb_min[..3], &result.aabb_max[..3]
                    );
                }
            }
        }
    }
}

#[test]
fn sphere_aabb_tightness() {
    let chunk = generate_sphere(
        ChunkCoord { x: 0, y: 0, z: 0 }, 32, 25, 32, 10,
    );
    let mats = test_materials();
    let result = world_summary(
        chunk.occupancy.as_words(), &chunk.palette.as_words(), &mats, [0, 0, 0], 1.0, [0.0; 3],
    );

    // At least one voxel should touch each AABB face.
    // AABB is world space (padded - 1 for chunk 0). Convert back: padded = world + 1.
    let min_x = (result.aabb_min[0] + 1.0) as u32;
    let max_x = (result.aabb_max[0] + 1.0) as u32 - 1;
    let min_y = (result.aabb_min[1] + 1.0) as u32;
    let max_y = (result.aabb_max[1] + 1.0) as u32 - 1;
    let min_z = (result.aabb_min[2] + 1.0) as u32;
    let max_z = (result.aabb_max[2] + 1.0) as u32 - 1;

    let mut touches_min_x = false;
    let mut touches_max_x = false;
    let mut touches_min_y = false;
    let mut touches_max_y = false;
    let mut touches_min_z = false;
    let mut touches_max_z = false;

    for x in 0..CS_P {
        for y in 0..CS_P {
            for z in 0..CS_P {
                if chunk.occupancy.get(x, y, z) {
                    if x == min_x { touches_min_x = true; }
                    if x == max_x { touches_max_x = true; }
                    if y == min_y { touches_min_y = true; }
                    if y == max_y { touches_max_y = true; }
                    if z == min_z { touches_min_z = true; }
                    if z == max_z { touches_max_z = true; }
                }
            }
        }
    }

    assert!(touches_min_x, "No voxel on min_x face");
    assert!(touches_max_x, "No voxel on max_x face");
    assert!(touches_min_y, "No voxel on min_y face");
    assert!(touches_max_y, "No voxel on max_y face");
    assert!(touches_min_z, "No voxel on min_z face");
    assert!(touches_max_z, "No voxel on max_z face");
}

#[test]
fn summary_matches_occupancy() {
    // For the test scene, verify every bricklet bit matches actual occupancy
    let (chunks, mats) = generate_test_scene();
    let chunk = &chunks[0];
    let result = world_summary(
        chunk.occupancy.as_words(), &chunk.palette.as_words(), &mats, [0, 0, 0], 1.0, [0.0; 3],
    );

    for bx in 0..BRICKLETS_PER_AXIS {
        for by in 0..BRICKLETS_PER_AXIS {
            for bz in 0..BRICKLETS_PER_AXIS {
                let bit_index = bx * 64 + by * 8 + bz;
                let word_idx = (bit_index >> 5) as usize;
                let bit_within = bit_index & 31;
                let summary_bit = (result.summary[word_idx] >> bit_within) & 1;

                // Check if any voxel in this 8^3 bricklet is occupied
                let mut has_voxel = false;
                for dx in 0..BRICKLET_DIM {
                    for dy in 0..BRICKLET_DIM {
                        for dz in 0..BRICKLET_DIM {
                            let vx = bx * BRICKLET_DIM + dx;
                            let vy = by * BRICKLET_DIM + dy;
                            let vz = bz * BRICKLET_DIM + dz;
                            if vx < CS_P && vy < CS_P && vz < CS_P
                                && chunk.occupancy.get(vx, vy, vz)
                            {
                                has_voxel = true;
                            }
                        }
                    }
                }

                assert_eq!(
                    summary_bit != 0, has_voxel,
                    "Bricklet ({bx},{by},{bz}): summary={summary_bit} but has_voxel={has_voxel}"
                );
            }
        }
    }
}

#[test]
fn is_resident_always_set() {
    let occ = OccupancyBuilder::new();
    let pal = PaletteBuilder::new();
    let result = world_summary(
        occ.as_words(), &pal.as_words(), &empty_materials(), [0, 0, 0], 1.0, [0.0; 3],
    );
    assert!(result.flags & FLAG_IS_RESIDENT != 0, "is_resident should always be set");
}

#[test]
fn world_bounds_are_offset_by_chunk_and_padding() {
    let b = VoxelBounds { min_x: 10, min_y: 20, min_z: 30, max_x: 10, max_y: 21, max_z: 32 };
    let w = world_bounds(&b, [1, 2, -3]);
    assert_eq!(w.offset, [61, 123, -187]);
    assert_eq!(w.min, [10, 20, 30]);
    assert_eq!(w.max, [11, 22, 33]);
}

#[test]
fn far_world_bounds_round_like_single_precision() {
    let b = VoxelBounds { min_x: 0, min_y: 0, min_z: 0, max_x: 0, max_y: 0, max_z: 0 };
    for c in [270_601, -16_777_217, i32::MAX, i32::MIN] {
        let w = world_bounds(&b, [c, 0, c]);
        let single = c as f32 * 62.0 - 1.0;
        assert_eq!(w.offset, [single as i64, -1, single as i64]);
    }
}
