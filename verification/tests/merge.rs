use gestalt::binary_chunk::{BinaryChunk, FaceMasks, cull_faces, unpack_quad};
use gestalt::merge::{greedy_merge_x_faces, greedy_merge_y_faces, greedy_merge_z_faces};
use gestalt::pool::{FACE_POS_X, FACE_POS_Y, FACE_POS_Z};

#[test]
fn x_faces_single_voxel_single_quad() {
    let mut chunk = BinaryChunk::new();
    chunk.set(32, 32, 32, 1);

    let mut masks = FaceMasks::new();
    cull_faces(&chunk, &mut masks);

    let mut quads = Vec::new();
    greedy_merge_x_faces(FACE_POS_X, &chunk, &masks, &mut quads);

    assert_eq!(quads.len(), 1);
}

#[test]
fn x_faces_column_y_merges() {
    let mut chunk = BinaryChunk::new();
    // 5 voxels in a column along Y
    for y in 20..25 {
        chunk.set(32, y, 32, 1);
    }

    let mut masks = FaceMasks::new();
    cull_faces(&chunk, &mut masks);

    let mut quads = Vec::new();
    greedy_merge_x_faces(FACE_POS_X, &chunk, &masks, &mut quads);

    // Should merge into single quad
    assert_eq!(quads.len(), 1);
    let (_, _, _, w, h, _) = unpack_quad(quads[0]);
    assert_eq!(w, 5);
    assert_eq!(h, 1);
}

#[test]
fn column_z_merges() {
    let mut chunk = BinaryChunk::new();
    // 5 voxels in a row along Z
    for z in 20..25 {
        chunk.set(32, 32, z, 1);
    }

    let mut masks = FaceMasks::new();
    cull_faces(&chunk, &mut masks);

    let mut quads = Vec::new();
    greedy_merge_x_faces(FACE_POS_X, &chunk, &masks, &mut quads);

    // Should merge into single quad
    assert_eq!(quads.len(), 1);
    let (_, _, _, w, h, _) = unpack_quad(quads[0]);
    assert_eq!(w, 1);
    assert_eq!(h, 5);
}

fn create_slab(y: usize, x_range: std::ops::Range<usize>, z_range: std::ops::Range<usize>) -> BinaryChunk {
    let mut chunk = BinaryChunk::new();
    for x in x_range {
        for z in z_range.clone() {
            chunk.set(x + 1, y + 1, z + 1, 1); // +1 for padding
        }
    }
    chunk
}

#[test]
fn y_faces_single_voxel_single_quad() {
    let mut chunk = BinaryChunk::new();
    chunk.set(32, 32, 32, 1);

    let mut masks = FaceMasks::new();
    cull_faces(&chunk, &mut masks);

    let mut quads = Vec::new();
    greedy_merge_y_faces(FACE_POS_Y, &chunk, &masks, &mut quads);

    assert_eq!(quads.len(), 1);
    let (x, y, z, w, h, mat) = unpack_quad(quads[0]);
    assert_eq!((x, y, z, w, h, mat), (31, 31, 31, 1, 1, 1));
}

#[test]
fn slab_10x10_merges_to_one_quad() {
    // 10x10 slab at y=20
    let chunk = create_slab(20, 20..30, 20..30);

    let mut masks = FaceMasks::new();
    cull_faces(&chunk, &mut masks);

    let mut quads_pos_y = Vec::new();
    greedy_merge_y_faces(FACE_POS_Y, &chunk, &masks, &mut quads_pos_y);

    // Should merge into single quad
    assert_eq!(quads_pos_y.len(), 1, "10x10 slab should merge to 1 quad");

    let (_x, _y, _z, w, h, _mat) = unpack_quad(quads_pos_y[0]);
    assert_eq!(w * h, 100, "Quad should cover 100 faces");
}

#[test]
fn two_materials_two_quads() {
    let mut chunk = BinaryChunk::new();
    // Two adjacent voxels with different materials
    chunk.set(32, 32, 32, 1);
    chunk.set(33, 32, 32, 2);

    let mut masks = FaceMasks::new();
    cull_faces(&chunk, &mut masks);

    let mut quads = Vec::new();
    greedy_merge_y_faces(FACE_POS_Y, &chunk, &masks, &mut quads);

    // Should not merge due to different materials
    assert_eq!(quads.len(), 2);
}

#[test]
fn row_merges_in_x() {
    let mut chunk = BinaryChunk::new();
    // 5 voxels in a row along X
    for x in 20..25 {
        chunk.set(x, 32, 32, 1);
    }

    let mut masks = FaceMasks::new();
    cull_faces(&chunk, &mut masks);

    let mut quads = Vec::new();
    greedy_merge_y_faces(FACE_POS_Y, &chunk, &masks, &mut quads);

    // Should merge into single quad with width 5
    assert_eq!(quads.len(), 1);
    let (_, _, _, w, h, _) = unpack_quad(quads[0]);
    assert_eq!(w, 5);
    assert_eq!(h, 1);
}

#[test]
fn column_merges_in_z() {
    let mut chunk = BinaryChunk::new();
    // 5 voxels in a column along Z
    for z in 20..25 {
        chunk.set(32, 32, z, 1);
    }

    let mut masks = FaceMasks::new();
    cull_faces(&chunk, &mut masks);

    let mut quads = Vec::new();
    greedy_merge_y_faces(FACE_POS_Y, &chunk, &masks, &mut quads);

    // Should merge into single quad with height 5
    assert_eq!(quads.len(), 1);
    let (_, _, _, w, h, _) = unpack_quad(quads[0]);
    assert_eq!(w, 1);
    assert_eq!(h, 5);
}

#[test]
fn z_faces_single_voxel_single_quad() {
    let mut chunk = BinaryChunk::new();
    chunk.set(32, 32, 32, 1);

    let mut masks = FaceMasks::new();
    cull_faces(&chunk, &mut masks);

    let mut quads = Vec::new();
    greedy_merge_z_faces(FACE_POS_Z, &chunk, &masks, &mut quads);

    assert_eq!(quads.len(), 1);
}

#[test]
fn row_x_merges() {
    let mut chunk = BinaryChunk::new();
    // 5 voxels in a row along X
    for x in 20..25 {
        chunk.set(x, 32, 32, 1);
    }

    let mut masks = FaceMasks::new();
    cull_faces(&chunk, &mut masks);

    let mut quads = Vec::new();
    greedy_merge_z_faces(FACE_POS_Z, &chunk, &masks, &mut quads);

    // Should merge into single quad
    assert_eq!(quads.len(), 1);
    let (_, _, _, w, h, _) = unpack_quad(quads[0]);
    assert_eq!(w, 5);
    assert_eq!(h, 1);
}

#[test]
fn z_faces_column_y_merges() {
    let mut chunk = BinaryChunk::new();
    // 5 voxels in a column along Y
    for y in 20..25 {
        chunk.set(32, y, 32, 1);
    }

    let mut masks = FaceMasks::new();
    cull_faces(&chunk, &mut masks);

    let mut quads = Vec::new();
    greedy_merge_z_faces(FACE_POS_Z, &chunk, &masks, &mut quads);

    // Should merge into single quad
    assert_eq!(quads.len(), 1);
    let (_, _, _, w, h, _) = unpack_quad(quads[0]);
    assert_eq!(w, 1);
    assert_eq!(h, 5);
}

#[test]
fn slab_xy_merges() {
    let mut chunk = BinaryChunk::new();
    // 4x4 slab in XY at z=32
    for x in 20..24 {
        for y in 20..24 {
            chunk.set(x, y, 32, 1);
        }
    }

    let mut masks = FaceMasks::new();
    cull_faces(&chunk, &mut masks);

    let mut quads = Vec::new();
    greedy_merge_z_faces(FACE_POS_Z, &chunk, &masks, &mut quads);

    // Should merge into single quad
    assert_eq!(quads.len(), 1);
    let (_, _, _, w, h, _) = unpack_quad(quads[0]);
    assert_eq!(w * h, 16, "4x4 slab should merge to 16-face quad");
}

#[test]
fn different_materials_separate() {
    let mut chunk = BinaryChunk::new();
    chunk.set(32, 32, 32, 1);
    chunk.set(33, 32, 32, 2); // Different material

    let mut masks = FaceMasks::new();
    cull_faces(&chunk, &mut masks);

    let mut quads = Vec::new();
    greedy_merge_z_faces(FACE_POS_Z, &chunk, &masks, &mut quads);

    // Should not merge due to different materials
    assert_eq!(quads.len(), 2);
}
