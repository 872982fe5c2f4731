use gestalt::binary_chunk::BinaryChunk;
use gestalt::convert::{
    Cell, cells_to_binary_chunk, dense_to_binary_chunk, dense_to_binary_chunk_boxed,
    dense_to_binary_chunk_zyx, dense_to_binary_chunk_zyx_boxed,
};
use gestalt::pool::CS;

/// Floor, with values close to an integer taken as that integer.
fn robust_floor(value: f32) -> i32 {
    let rounded = value.round();
    if (value - rounded).abs() < 1e-5 {
        rounded as i32
    } else {
        value.floor() as i32
    }
}

fn positions_to_binary_chunk(
    positions: &[f32],
    voxel_size: f32,
    chunk_origin: [f32; 3],
    material: u16,
) -> BinaryChunk {
    let local = |v: f32, o: f32| robust_floor((v - o) * (1.0 / voxel_size));
    let cells: Vec<Cell> = positions
        .chunks_exact(3)
        .map(|p| Cell {
            x: local(p[0], chunk_origin[0]),
            y: local(p[1], chunk_origin[1]),
            z: local(p[2], chunk_origin[2]),
        })
        .collect();
    cells_to_binary_chunk(&cells, material)
}

#[test]
fn positions_single_voxel() {
    let positions = [0.5, 0.5, 0.5]; // Center of voxel (0,0,0)
    let chunk = positions_to_binary_chunk(&positions, 1.0, [0.0, 0.0, 0.0], 1);

    // With +1 padding offset, voxel at (0,0,0) maps to (1,1,1)
    assert!(chunk.is_solid(1, 1, 1));
    assert_eq!(chunk.get_material(1, 1, 1), 1);
    assert_eq!(chunk.solid_count(), 1);
}

#[test]
fn positions_multiple_voxels() {
    let positions = [
        0.5, 0.5, 0.5,
        1.5, 0.5, 0.5,
        2.5, 0.5, 0.5,
    ];
    let chunk = positions_to_binary_chunk(&positions, 1.0, [0.0, 0.0, 0.0], 42);

    assert!(chunk.is_solid(1, 1, 1));
    assert!(chunk.is_solid(2, 1, 1));
    assert!(chunk.is_solid(3, 1, 1));
    assert_eq!(chunk.solid_count(), 3);
}

#[test]
fn positions_with_origin_offset() {
    let positions = [10.5, 20.5, 30.5];
    let chunk = positions_to_binary_chunk(&positions, 1.0, [10.0, 20.0, 30.0], 1);

    assert!(chunk.is_solid(1, 1, 1));
    assert_eq!(chunk.solid_count(), 1);
}

#[test]
fn positions_with_voxel_size() {
    let positions = [0.05, 0.05, 0.05]; // Voxel (0,0,0) with size 0.1
    let chunk = positions_to_binary_chunk(&positions, 0.1, [0.0, 0.0, 0.0], 1);

    assert!(chunk.is_solid(1, 1, 1));
}

#[test]
fn positions_out_of_bounds_ignored() {
    let positions = [
        0.5, 0.5, 0.5,      // Valid
        100.0, 0.5, 0.5,    // Out of bounds (x too large)
        -100.0, 0.5, 0.5,   // Out of bounds (x negative)
    ];
    let chunk = positions_to_binary_chunk(&positions, 1.0, [0.0, 0.0, 0.0], 1);

    assert_eq!(chunk.solid_count(), 1); // Only one valid voxel
}

#[test]
fn dense_single_voxel() {
    let mut voxels = vec![0u16; 4 * 4 * 4];
    voxels[0] = 1; // (0, 0, 0)

    let chunk = dense_to_binary_chunk(&voxels, [4, 4, 4]);

    assert!(chunk.is_solid(1, 1, 1)); // +1 padding
    assert_eq!(chunk.solid_count(), 1);
}

#[test]
fn dense_multiple_voxels() {
    let mut voxels = vec![0u16; 4 * 4 * 4];
    // Set voxels at (0,0,0), (1,0,0), (0,1,0)
    voxels[0] = 1;
    voxels[1] = 2;
    voxels[4] = 3;

    let chunk = dense_to_binary_chunk(&voxels, [4, 4, 4]);

    assert!(chunk.is_solid(1, 1, 1));
    assert_eq!(chunk.get_material(1, 1, 1), 1);

    assert!(chunk.is_solid(2, 1, 1));
    assert_eq!(chunk.get_material(2, 1, 1), 2);

    assert!(chunk.is_solid(1, 2, 1));
    assert_eq!(chunk.get_material(1, 2, 1), 3);

    assert_eq!(chunk.solid_count(), 3);
}

#[test]
fn dense_full_chunk() {
    // Fill a small chunk completely
    let voxels = vec![1u16; 8 * 8 * 8];
    let chunk = dense_to_binary_chunk(&voxels, [8, 8, 8]);

    assert_eq!(chunk.solid_count(), 8 * 8 * 8);
}

#[test]
fn dense_oversized_input() {
    // Input larger than chunk - should clamp to CS
    let voxels = vec![1u16; 100 * 100 * 100];
    let chunk = dense_to_binary_chunk(&voxels, [100, 100, 100]);

    // Should only have CS^3 voxels
    assert_eq!(chunk.solid_count(), (CS * CS * CS) as usize);
}

#[test]
fn dense_orders_differ() {
    // Voxel (1, 2, 3) of a 2 by 3 by 4 grid, x fastest and z fastest.
    let dims = [2, 3, 4];
    let mut x_fastest = vec![0u16; 24];
    x_fastest[1 + 2 * 2 + 3 * 6] = 7;
    let mut z_fastest = vec![0u16; 24];
    z_fastest[3 + 2 * 4 + 12] = 7;
    let a = dense_to_binary_chunk(&x_fastest, dims);
    let b = dense_to_binary_chunk_boxed(&x_fastest, dims);
    let c = dense_to_binary_chunk_zyx(&z_fastest, dims);
    let d = dense_to_binary_chunk_zyx_boxed(&z_fastest, dims);
    for chunk in [&a, &*b, &c, &*d] {
        assert_eq!(chunk.solid_count(), 1);
        assert_eq!(chunk.get_material(2, 3, 4), 7);
    }
    assert!(BinaryChunk::new_boxed().is_empty());
}
