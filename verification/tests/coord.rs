use gestalt::coord::ChunkCoord;

#[test]
fn zero_constant() {
    assert_eq!(ChunkCoord::zero(), ChunkCoord::new(0, 0, 0));
}

#[test]
fn neighbors_returns_six() {
    let coord = ChunkCoord::new(5, 10, 15);
    let neighbors = coord.neighbors();

    assert_eq!(neighbors.len(), 6);
    assert_eq!(neighbors[0], ChunkCoord::new(6, 10, 15));  // +X
    assert_eq!(neighbors[1], ChunkCoord::new(4, 10, 15));  // -X
    assert_eq!(neighbors[2], ChunkCoord::new(5, 11, 15));  // +Y
    assert_eq!(neighbors[3], ChunkCoord::new(5, 9, 15));   // -Y
    assert_eq!(neighbors[4], ChunkCoord::new(5, 10, 16));  // +Z
    assert_eq!(neighbors[5], ChunkCoord::new(5, 10, 14));  // -Z
}

#[test]
fn from_voxel_positive() {
    let coord = ChunkCoord::from_voxel([0, 0, 0]);
    assert_eq!(coord, ChunkCoord::zero());

    let coord = ChunkCoord::from_voxel([61, 61, 61]);
    assert_eq!(coord, ChunkCoord::zero());

    let coord = ChunkCoord::from_voxel([62, 0, 0]);
    assert_eq!(coord, ChunkCoord::new(1, 0, 0));
}

#[test]
fn from_voxel_negative() {
    // Euclidean division: -1 / 62 = -1 (not 0)
    let coord = ChunkCoord::from_voxel([-1, 0, 0]);
    assert_eq!(coord, ChunkCoord::new(-1, 0, 0));

    let coord = ChunkCoord::from_voxel([-62, 0, 0]);
    assert_eq!(coord, ChunkCoord::new(-1, 0, 0));

    let coord = ChunkCoord::from_voxel([-63, 0, 0]);
    assert_eq!(coord, ChunkCoord::new(-2, 0, 0));
}

#[test]
fn voxel_to_local() {
    // Positive voxels
    assert_eq!(ChunkCoord::voxel_to_local([0, 0, 0]), [0, 0, 0]);
    assert_eq!(ChunkCoord::voxel_to_local([61, 61, 61]), [61, 61, 61]);
    assert_eq!(ChunkCoord::voxel_to_local([62, 0, 0]), [0, 0, 0]);
    assert_eq!(ChunkCoord::voxel_to_local([63, 1, 2]), [1, 1, 2]);

    // Negative voxels use Euclidean remainder
    assert_eq!(ChunkCoord::voxel_to_local([-1, 0, 0]), [61, 0, 0]);
    assert_eq!(ChunkCoord::voxel_to_local([-62, 0, 0]), [0, 0, 0]);
}
