use gestalt::sparse::{
    compact_sparse, dense_to_sparse, flatten_origins, BrickOrigin, Dense, Dims, Sparse,
};

fn grid(dims: Dims, voxels: &[(u32, u32, u32)]) -> Vec<u32> {
    let n = dims.x * dims.y * dims.z;
    let mut words = vec![0u32; ((n + 31) / 32) as usize];
    for &(x, y, z) in voxels {
        let i = x + dims.x * (y + dims.y * z);
        words[(i / 32) as usize] |= 1 << (i % 32);
    }
    words
}

fn origin(x: u32, y: u32, z: u32) -> BrickOrigin {
    BrickOrigin { x, y, z }
}

/// Whether a sparse grid has a voxel.
fn holds(s: &Sparse, x: u32, y: u32, z: u32) -> bool {
    let d = s.brick_dim;
    let words = (d * d * d + 31) / 32;
    for (i, o) in s.brick_origins.iter().enumerate() {
        if x >= o.x && x < o.x + d && y >= o.y && y < o.y + d && z >= o.z && z < o.z + d {
            let p = (x - o.x) + d * ((y - o.y) + d * (z - o.z));
            return s.occupancy[i * words as usize + (p / 32) as usize] >> (p % 32) & 1 == 1;
        }
    }
    false
}

#[test]
fn empty_grids_have_no_bricks() {
    let dims = Dims { x: 8, y: 8, z: 8 };
    let dense = Dense { occupancy: grid(dims, &[]), owner_id: None, color_rgba: None, triangles: 4 };
    let s = dense_to_sparse(dense, dims, 4);
    assert!(s.brick_origins.is_empty() && s.occupancy.is_empty());
    assert_eq!((s.brick_dim, s.triangles), (4, 4));
    assert!(s.owner_id.is_none() && s.color_rgba.is_none());
}

#[test]
fn empty_grids_have_no_bricks_of_size_zero() {
    let dims = Dims { x: 3, y: 2, z: 4 };
    let dense = Dense {
        occupancy: grid(dims, &[]),
        owner_id: Some(vec![]),
        color_rgba: None,
        triangles: 7,
    };
    let s = dense_to_sparse(dense, dims, 0);
    assert!(s.brick_origins.is_empty() && s.occupancy.is_empty());
    assert_eq!((s.brick_dim, s.triangles), (0, 7));
    assert_eq!(s.owner_id, Some(vec![]));
    assert!(s.color_rgba.is_none());
}

#[test]
fn sparse_grids_keep_every_voxel() {
    let dims = Dims { x: 10, y: 6, z: 9 };
    let voxels = [(0, 0, 0), (9, 5, 8), (4, 3, 2), (5, 3, 2), (3, 3, 3)];
    let dense =
        Dense { occupancy: grid(dims, &voxels), owner_id: None, color_rgba: None, triangles: 1 };
    let s = dense_to_sparse(dense, dims, 4);
    for x in 0..10 {
        for y in 0..6 {
            for z in 0..9 {
                assert_eq!(holds(&s, x, y, z), voxels.contains(&(x, y, z)));
            }
        }
    }
    assert_eq!(s.brick_origins, vec![origin(0, 0, 0), origin(4, 0, 0), origin(8, 4, 8)]);
    assert_eq!(s.occupancy.len(), 3 * 2);
}

#[test]
fn attributes_follow_their_voxels() {
    let dims = Dims { x: 4, y: 4, z: 4 };
    let owner: Vec<u32> = (0..64).map(|i| 100 + i).collect();
    let color: Vec<u32> = (0..64).map(|i| 200 + i).collect();
    let dense = Dense {
        occupancy: grid(dims, &[(3, 2, 1)]),
        owner_id: Some(owner),
        color_rgba: Some(color),
        triangles: 1,
    };
    let s = dense_to_sparse(dense, dims, 2);
    assert_eq!(s.brick_origins, vec![origin(2, 2, 0)]);
    // Voxel (3, 2, 1) is number 5 of its brick and number 27 of the grid.
    let owners = s.owner_id.unwrap();
    let colors = s.color_rgba.unwrap();
    assert_eq!(owners.len(), 8);
    for p in 0..8 {
        assert_eq!(owners[p], if p == 5 { 127 } else { u32::MAX });
        assert_eq!(colors[p], if p == 5 { 227 } else { 0 });
    }
}

fn two_bricks() -> Sparse {
    Sparse {
        brick_dim: 2,
        brick_origins: vec![origin(0, 0, 0), origin(2, 0, 0), origin(4, 0, 0)],
        occupancy: vec![1, 0, 0x80],
        owner_id: Some((0..24).collect()),
        color_rgba: None,
        debug_flags: [1, 2, 3],
        debug_workgroups: 4,
        debug_tested: 5,
        debug_hits: 6,
        triangles: 7,
    }
}

#[test]
fn compaction_drops_empty_bricks() {
    let s = compact_sparse(two_bricks());
    assert_eq!(s.brick_origins, vec![origin(0, 0, 0), origin(4, 0, 0)]);
    assert_eq!(s.occupancy, vec![1, 0x80]);
    let mut owners: Vec<u32> = (0..8).collect();
    owners.extend(16..24);
    assert_eq!(s.owner_id, Some(owners));
    assert!(s.color_rgba.is_none());
    assert_eq!(s.debug_flags, [1, 2, 3]);
    assert_eq!((s.debug_workgroups, s.debug_tested, s.debug_hits, s.triangles), (4, 5, 6, 7));
}

#[test]
fn compacting_twice_changes_nothing_more() {
    let once = compact_sparse(two_bricks());
    let origins = once.brick_origins.clone();
    let occupancy = once.occupancy.clone();
    let twice = compact_sparse(once);
    assert_eq!(twice.brick_origins, origins);
    assert_eq!(twice.occupancy, occupancy);
}

#[test]
fn origins_are_flattened_in_order() {
    assert_eq!(flatten_origins(&[origin(1, 2, 3), origin(4, 5, 6)]), vec![1, 2, 3, 4, 5, 6]);
    assert!(flatten_origins(&[]).is_empty());
}
