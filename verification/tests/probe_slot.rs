use gestalt::cascade::V3_MAX_PROBE_SLOTS;
use gestalt::coord::ChunkCoord;
use gestalt::probe_slot::{ProbeAllocError, ProbeDeallocError, ProbeSlotAllocator};

fn coord(x: i32, y: i32, z: i32) -> ChunkCoord {
    ChunkCoord { x, y, z }
}

#[test]
fn alloc_returns_distinct_slots() {
    let mut a = ProbeSlotAllocator::new();
    let s0 = a.alloc_slot(coord(0, 0, 0)).unwrap();
    let s1 = a.alloc_slot(coord(1, 0, 0)).unwrap();
    let s2 = a.alloc_slot(coord(0, 1, 0)).unwrap();
    assert_ne!(s0, s1);
    assert_ne!(s0, s2);
    assert_ne!(s1, s2);
    assert_eq!(a.allocated_count(), 3);
}

#[test]
fn alloc_same_coord_twice_errors() {
    let mut a = ProbeSlotAllocator::new();
    a.alloc_slot(coord(0, 0, 0)).unwrap();
    assert_eq!(
        a.alloc_slot(coord(0, 0, 0)),
        Err(ProbeAllocError::CoordAlreadyResident),
    );
}

#[test]
fn dealloc_frees_slot_for_reuse() {
    let mut a = ProbeSlotAllocator::new();
    let s0 = a.alloc_slot(coord(0, 0, 0)).unwrap();
    let returned = a.dealloc(s0).unwrap();
    assert_eq!(returned, coord(0, 0, 0));
    assert_eq!(a.allocated_count(), 0);
    // The same coord can be allocated again.
    let s1 = a.alloc_slot(coord(0, 0, 0)).unwrap();
    assert_eq!(s0, s1, "freed slot should be reused");
}

#[test]
fn dealloc_unallocated_errors() {
    let mut a = ProbeSlotAllocator::new();
    assert_eq!(a.dealloc(0), Err(ProbeDeallocError::SlotNotAllocated));
}

#[test]
fn dealloc_out_of_range_errors() {
    let mut a = ProbeSlotAllocator::new();
    assert_eq!(
        a.dealloc(V3_MAX_PROBE_SLOTS),
        Err(ProbeDeallocError::SlotOutOfRange),
    );
}

#[test]
fn alloc_full_returns_error() {
    let mut a = ProbeSlotAllocator::new();
    for i in 0..V3_MAX_PROBE_SLOTS as i32 {
        a.alloc_slot(coord(i, 0, 0)).unwrap();
    }
    assert!(a.is_full());
    assert_eq!(
        a.alloc_slot(coord(9999, 0, 0)),
        Err(ProbeAllocError::PoolFull),
    );
}

#[test]
fn lookup_finds_allocated_and_misses_free() {
    let mut a = ProbeSlotAllocator::new();
    let s = a.alloc_slot(coord(5, 6, 7)).unwrap();
    assert_eq!(a.lookup(&coord(5, 6, 7)), Some(s));
    assert_eq!(a.lookup(&coord(0, 0, 0)), None);
}

#[test]
fn iter_allocated_yields_all_pairs() {
    let mut a = ProbeSlotAllocator::new();
    let s0 = a.alloc_slot(coord(0, 0, 0)).unwrap();
    let s1 = a.alloc_slot(coord(1, 0, 0)).unwrap();
    let mut pairs: Vec<(u32, ChunkCoord)> = a.iter_allocated();
    pairs.sort_by_key(|p| p.0);
    assert_eq!(pairs, vec![(s0, coord(0, 0, 0)), (s1, coord(1, 0, 0))]);
}

#[test]
fn clear_returns_to_empty_state() {
    let mut a = ProbeSlotAllocator::new();
    a.alloc_slot(coord(0, 0, 0)).unwrap();
    a.alloc_slot(coord(1, 0, 0)).unwrap();
    a.clear();
    assert_eq!(a.allocated_count(), 0);
    assert_eq!(a.lookup(&coord(0, 0, 0)), None);
    // Re-allocation works after clear.
    a.alloc_slot(coord(0, 0, 0)).unwrap();
}
