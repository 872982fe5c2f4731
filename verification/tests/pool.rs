use gestalt::coord::ChunkCoord;
use gestalt::pool::{
    AABB_BYTES, AllocError, BRICKLETS_PER_AXIS, BRICKLET_DIM, COLUMNS_PER_CHUNK, COORD_BYTES, CS_P,
    CS_P3, DRAW_META_BYTES, DeallocError, FLAGS_BYTES, MATERIAL_DEFAULT, MATERIAL_EMPTY, MAX_DRAWS,
    MAX_MATERIALS, MAX_PALETTE_ENTRIES, MAX_SLOTS, SUMMARY_BYTES_PER_SLOT, SlotAllocator,
    TOTAL_INDEX_BYTES, TOTAL_MATERIAL_BYTES, TOTAL_OCCUPANCY_BYTES, TOTAL_PALETTE_BYTES,
    TOTAL_VERTEX_BYTES, VERSION_BYTES,
};

#[test]
fn occupancy_addressing_roundtrip() {
    // Verify column_index formula covers all (x, z) without collision
    let mut seen = vec![false; COLUMNS_PER_CHUNK as usize];
    for x in 0..CS_P {
        for z in 0..CS_P {
            let col = (x * CS_P + z) as usize;
            assert!(!seen[col], "Duplicate column index at ({x}, {z}) = {col}");
            seen[col] = true;
        }
    }
    assert!(seen.iter().all(|&s| s), "Not all column indices covered");
}

#[test]
fn occupancy_y_bit_addressing() {
    // Verify Y-bit addressing within a column
    for y in 0..CS_P {
        let u32_index = (y >> 5) as usize;
        let bit_within = y & 31;
        assert!(u32_index < 2, "u32_index out of range for y={y}");
        assert!(bit_within < 32, "bit_within out of range for y={y}");
        // Verify bit is uniquely addressable
        let mask = 1u32 << bit_within;
        assert_ne!(mask, 0);
    }
}

#[test]
fn bricklet_addressing_covers_all() {
    // Verify bricklet (bx, by, bz) covers all 512 bricklets
    let mut seen = vec![false; 512];
    for bx in 0..BRICKLETS_PER_AXIS {
        for by in 0..BRICKLETS_PER_AXIS {
            for bz in 0..BRICKLETS_PER_AXIS {
                let idx = (bx * 64 + by * 8 + bz) as usize;
                assert!(idx < 512, "Bricklet index out of range: ({bx},{by},{bz}) = {idx}");
                assert!(!seen[idx], "Duplicate bricklet index at ({bx},{by},{bz})");
                seen[idx] = true;
            }
        }
    }
    assert!(seen.iter().all(|&s| s), "Not all bricklet indices covered");
}

#[test]
fn bricklet_maps_to_correct_voxel_range() {
    // Verify bricklet (bx, by, bz) maps to the correct 8^3 voxel region
    for bx in 0..BRICKLETS_PER_AXIS {
        for bz in 0..BRICKLETS_PER_AXIS {
            let x_start = bx * BRICKLET_DIM;
            let z_start = bz * BRICKLET_DIM;
            assert!(x_start + BRICKLET_DIM <= CS_P);
            assert!(z_start + BRICKLET_DIM <= CS_P);
        }
    }
}

#[test]
fn palette_bits_per_entry_valid() {
    // Verify the palette_size -> bits_per_entry mapping covers all cases
    let valid_bpe = [1u32, 2, 4, 8];
    for palette_size in 1..=MAX_PALETTE_ENTRIES {
        let bpe = match palette_size {
            1..=2 => 1,
            3..=4 => 2,
            5..=16 => 4,
            17..=256 => 8,
            _ => unreachable!(),
        };
        assert!(valid_bpe.contains(&bpe), "Invalid bpe {bpe} for palette_size {palette_size}");
        // Verify bpe is sufficient to index the palette
        assert!((1u32 << bpe) >= palette_size, "bpe {bpe} insufficient for palette_size {palette_size}");
    }
}

#[test]
fn index_buffer_size_at_each_bpe() {
    // Verify index buffer word count at each valid bits_per_entry
    for bpe in [1u32, 2, 4, 8] {
        let total_bits = CS_P3 as u64 * bpe as u64;
        let num_words = (total_bits + 31) / 32;
        // Must fit in a reasonable buffer
        let num_bytes = num_words * 4;
        assert!(num_bytes <= 256 * 1024, "Index buffer at bpe={bpe} exceeds 256 KB: {num_bytes} bytes");
    }
}

#[test]
fn memory_budget_at_max_slots() {
    // Verify total GPU memory doesn't exceed reasonable bounds
    let total = TOTAL_OCCUPANCY_BYTES
        + TOTAL_PALETTE_BYTES
        + TOTAL_VERTEX_BYTES
        + TOTAL_INDEX_BYTES
        + TOTAL_MATERIAL_BYTES
        + (COORD_BYTES as u64 * MAX_SLOTS as u64)
        + (VERSION_BYTES as u64 * MAX_SLOTS as u64)
        + (FLAGS_BYTES as u64 * MAX_SLOTS as u64)
        + (AABB_BYTES as u64 * MAX_SLOTS as u64)
        + (SUMMARY_BYTES_PER_SLOT as u64 * MAX_SLOTS as u64)
        + (DRAW_META_BYTES as u64 * MAX_SLOTS as u64);

    let total_mb = total / (1024 * 1024);
    // At 1024 slots: should be well under 2 GB
    assert!(total_mb < 2048, "Total GPU budget {total_mb} MB exceeds 2 GB");
    println!("Total GPU memory at {MAX_SLOTS} slots: {total_mb} MB");
    println!("  Occupancy atlas: {} MB", TOTAL_OCCUPANCY_BYTES / (1024 * 1024));
    println!("  Palette:         {} MB", TOTAL_PALETTE_BYTES / (1024 * 1024));
    println!("  Vertex pool:     {} MB", TOTAL_VERTEX_BYTES / (1024 * 1024));
    println!("  Index pool:      {} MB", TOTAL_INDEX_BYTES / (1024 * 1024));
    println!("  Material table:  {} KB", TOTAL_MATERIAL_BYTES / 1024);
}

#[test]
fn material_id_reserved_range() {
    assert_eq!(MATERIAL_EMPTY, 0);
    assert_eq!(MATERIAL_DEFAULT, 1);
    assert!(MATERIAL_DEFAULT < MAX_MATERIALS as u16);
}

#[test]
fn draw_indirect_struct_size() {
    // WebGPU DrawIndexedIndirect: 5 x u32 = 20 bytes
    let draw_indirect_bytes = 20u32;
    let total_indirect = draw_indirect_bytes as u64 * MAX_DRAWS as u64;
    assert!(total_indirect < 1024 * 1024, "Indirect draw buffer exceeds 1 MB");
}

// SlotAllocator tests
#[test]
fn alloc_returns_sequential_slots() {
    let mut slots = SlotAllocator::new();
    let s0 = slots.alloc_slot(ChunkCoord { x: 0, y: 0, z: 0 }).unwrap();
    let s1 = slots.alloc_slot(ChunkCoord { x: 1, y: 0, z: 0 }).unwrap();
    let s2 = slots.alloc_slot(ChunkCoord { x: 2, y: 0, z: 0 }).unwrap();
    assert_eq!(s0, 0);
    assert_eq!(s1, 1);
    assert_eq!(s2, 2);
}

#[test]
fn alloc_dealloc_roundtrip() {
    let mut slots = SlotAllocator::new();
    let coord = ChunkCoord { x: 5, y: -3, z: 10 };
    let slot = slots.alloc_slot(coord).unwrap();
    let returned = slots.dealloc(slot).unwrap();
    assert_eq!(returned, coord);
    assert!(slots.lookup(&coord).is_none());
    assert!(slots.coord_of(slot).is_none());
}

#[test]
fn alloc_duplicate_coord_fails() {
    let mut slots = SlotAllocator::new();
    let coord = ChunkCoord { x: 1, y: 2, z: 3 };
    slots.alloc_slot(coord).unwrap();
    assert_eq!(slots.alloc_slot(coord), Err(AllocError::CoordAlreadyResident));
}

#[test]
fn pool_exhaustion() {
    let mut slots = SlotAllocator::new();
    for i in 0..MAX_SLOTS {
        slots.alloc_slot(ChunkCoord { x: i as i32, y: 0, z: 0 }).unwrap();
    }
    assert!(slots.is_full());
    assert_eq!(slots.free_count(), 0);
    assert_eq!(
        slots.alloc_slot(ChunkCoord { x: -1, y: 0, z: 0 }),
        Err(AllocError::PoolFull)
    );
}

#[test]
fn dealloc_enables_realloc() {
    let mut slots = SlotAllocator::new();
    for i in 0..MAX_SLOTS {
        slots.alloc_slot(ChunkCoord { x: i as i32, y: 0, z: 0 }).unwrap();
    }
    assert!(slots.is_full());
    slots.dealloc(42).unwrap();
    assert!(!slots.is_full());
    let slot = slots.alloc_slot(ChunkCoord { x: -1, y: -1, z: -1 }).unwrap();
    assert_eq!(slot, 42);
}

#[test]
fn lookup_after_alloc() {
    let mut slots = SlotAllocator::new();
    let coord = ChunkCoord { x: 7, y: 8, z: 9 };
    let slot = slots.alloc_slot(coord).unwrap();
    assert_eq!(slots.lookup(&coord), Some(slot));
}

#[test]
fn lookup_after_dealloc() {
    let mut slots = SlotAllocator::new();
    let coord = ChunkCoord { x: 7, y: 8, z: 9 };
    let slot = slots.alloc_slot(coord).unwrap();
    slots.dealloc(slot).unwrap();
    assert_eq!(slots.lookup(&coord), None);
}

#[test]
fn coord_of_roundtrip() {
    let mut slots = SlotAllocator::new();
    let coord = ChunkCoord { x: -10, y: 20, z: -30 };
    let slot = slots.alloc_slot(coord).unwrap();
    assert_eq!(slots.coord_of(slot), Some(coord));
}

#[test]
fn free_count_tracking() {
    let mut slots = SlotAllocator::new();
    assert_eq!(slots.free_count(), MAX_SLOTS);
    assert_eq!(slots.resident_count(), 0);

    slots.alloc_slot(ChunkCoord { x: 0, y: 0, z: 0 }).unwrap();
    assert_eq!(slots.free_count(), MAX_SLOTS - 1);
    assert_eq!(slots.resident_count(), 1);

    slots.alloc_slot(ChunkCoord { x: 1, y: 0, z: 0 }).unwrap();
    assert_eq!(slots.free_count(), MAX_SLOTS - 2);
    assert_eq!(slots.resident_count(), 2);

    slots.dealloc(0).unwrap();
    assert_eq!(slots.free_count(), MAX_SLOTS - 1);
    assert_eq!(slots.resident_count(), 1);
}

#[test]
fn dealloc_invalid_slot() {
    let mut slots = SlotAllocator::new();
    // Unallocated slot
    assert_eq!(slots.dealloc(0), Err(DeallocError::SlotNotAllocated));
    // Out of range
    assert_eq!(slots.dealloc(MAX_SLOTS), Err(DeallocError::SlotOutOfRange));
    assert_eq!(slots.dealloc(u32::MAX), Err(DeallocError::SlotOutOfRange));
}

#[test]
fn rapid_alloc_dealloc_cycle() {
    let mut slots = SlotAllocator::new();
    let initial_free = slots.free_count();
    for i in 0..100u32 {
        let coord = ChunkCoord { x: i as i32, y: 0, z: 0 };
        let slot = slots.alloc_slot(coord).unwrap();
        slots.dealloc(slot).unwrap();
    }
    assert_eq!(slots.free_count(), initial_free, "Leaked slots after alloc/dealloc cycle");
    assert_eq!(slots.resident_count(), 0);
}

#[test]
fn negative_coords() {
    let mut slots = SlotAllocator::new();
    let coords = [
        ChunkCoord { x: -1, y: -1, z: -1 },
        ChunkCoord { x: i32::MIN, y: 0, z: 0 },
        ChunkCoord { x: 0, y: i32::MAX, z: 0 },
        ChunkCoord { x: i32::MIN, y: i32::MAX, z: i32::MIN },
    ];
    for coord in &coords {
        let slot = slots.alloc_slot(*coord).unwrap();
        assert_eq!(slots.lookup(coord), Some(slot));
        assert_eq!(slots.coord_of(slot), Some(*coord));
    }
    assert_eq!(slots.resident_count(), 4);
}
