use gestalt::state::{BoundaryFlags, ChunkState};

#[test]
fn chunk_state_default_is_dirty() {
    assert_eq!(ChunkState::default(), ChunkState::Dirty);
}

#[test]
fn chunk_state_needs_rebuild() {
    assert!(ChunkState::Dirty.needs_rebuild());
    assert!(!ChunkState::Clean.needs_rebuild());
    assert!(!ChunkState::Meshing { data_version: 1 }.needs_rebuild());
    assert!(!ChunkState::ReadyToSwap { data_version: 1 }.needs_rebuild());
}

#[test]
fn chunk_state_is_meshing() {
    assert!(ChunkState::Meshing { data_version: 1 }.is_meshing());
    assert!(!ChunkState::Dirty.is_meshing());
    assert!(!ChunkState::Clean.is_meshing());
}

#[test]
fn chunk_state_has_pending_mesh() {
    assert!(ChunkState::ReadyToSwap { data_version: 1 }.has_pending_mesh());
    assert!(!ChunkState::Dirty.has_pending_mesh());
    assert!(!ChunkState::Clean.has_pending_mesh());
}

#[test]
fn boundary_flags_default_is_none() {
    let flags = BoundaryFlags::default();
    assert!(!flags.any());
    assert_eq!(flags.count(), 0);
}

#[test]
fn boundary_flags_any() {
    let mut flags = BoundaryFlags::default();
    assert!(!flags.any());

    flags.neg_x = true;
    assert!(flags.any());
}

#[test]
fn boundary_flags_count() {
    let flags = BoundaryFlags {
        neg_x: true,
        pos_x: false,
        neg_y: true,
        pos_y: false,
        neg_z: false,
        pos_z: true,
    };
    assert_eq!(flags.count(), 3);
}

#[test]
fn boundary_flags_affected_neighbors() {
    let flags = BoundaryFlags {
        neg_x: true,
        pos_x: false,
        neg_y: false,
        pos_y: true,
        neg_z: false,
        pos_z: false,
    };

    let neighbors = flags.affected_neighbors();
    assert_eq!(neighbors.len(), 2);
    assert!(neighbors.contains(&[-1, 0, 0]));
    assert!(neighbors.contains(&[0, 1, 0]));
}

#[test]
fn boundary_flags_merge() {
    let mut flags1 = BoundaryFlags {
        neg_x: true,
        pos_x: false,
        neg_y: false,
        pos_y: false,
        neg_z: false,
        pos_z: false,
    };

    let flags2 = BoundaryFlags {
        neg_x: false,
        pos_x: true,
        neg_y: false,
        pos_y: true,
        neg_z: false,
        pos_z: false,
    };

    flags1.merge(flags2);

    assert!(flags1.neg_x);
    assert!(flags1.pos_x);
    assert!(!flags1.neg_y);
    assert!(flags1.pos_y);
    assert!(!flags1.neg_z);
    assert!(!flags1.pos_z);
}
