use gestalt::coord::ChunkCoord;
use gestalt::gpu_layout::GpuBuffer;
use gestalt::load::{
    chunks_to_load, count_voxels, mesh_chunk_data, mesh_chunks, mesh_offsets, mesh_stats,
    plan_rebuild, stage_chunks, upload_meshes, LoadError, RebuildStep,
};
use gestalt::pool::{AllocError, SlotAllocator};
use gestalt::scene::{generate_cornell_box, ChunkData, MAT_STONE};

fn voxel_chunk(coord: ChunkCoord, voxels: &[(u32, u32, u32)]) -> ChunkData {
    let mut c = ChunkData::empty(coord);
    let m = c.palette.add(MAT_STONE);
    for &(x, y, z) in voxels {
        c.occupancy.set(x, y, z);
        c.index_buf.set(x, y, z, m);
    }
    c
}

fn at(x: i32) -> ChunkCoord {
    ChunkCoord { x, y: 0, z: 0 }
}

#[test]
fn models_load_up_to_the_pool_size() {
    assert_eq!(chunks_to_load(0, 5), Err(LoadError::NoTriangles));
    assert_eq!(chunks_to_load(0, 0), Err(LoadError::NoTriangles));
    assert_eq!(chunks_to_load(3, 0), Err(LoadError::NoChunks));
    assert_eq!(chunks_to_load(3, 5), Ok(5));
    assert_eq!(chunks_to_load(3, 4096), Ok(4096));
    assert_eq!(chunks_to_load(3, 4097), Ok(4096));
}

#[test]
fn fresh_chunks_get_slots_in_order() {
    let chunks: Vec<ChunkData> = (0..4).map(|x| voxel_chunk(at(x), &[(1, 1, 1)])).collect();
    let mut slots = SlotAllocator::new();
    let staged = stage_chunks(&mut slots, &chunks, 3);
    assert_eq!(staged.slots, vec![0, 1, 2]);
    assert_eq!(staged.error, None);
    assert_eq!(staged.uploads.len(), 3);
    assert_eq!(slots.resident_count(), 3);
    assert_eq!(slots.lookup(&at(2)), Some(2));
    assert_eq!(slots.lookup(&at(3)), None);
    let buffers: Vec<GpuBuffer> = staged.uploads[1].iter().map(|w| w.buffer).collect();
    assert_eq!(buffers[2], GpuBuffer::IndexBufPool);
    assert_eq!(staged.uploads[1][2].offset, 131_072);
}

#[test]
fn staging_stops_at_a_resident_chunk() {
    let chunks = vec![
        voxel_chunk(at(0), &[]),
        voxel_chunk(at(0), &[]),
        voxel_chunk(at(1), &[]),
    ];
    let mut slots = SlotAllocator::new();
    let staged = stage_chunks(&mut slots, &chunks, 3);
    assert_eq!(staged.slots, vec![0]);
    assert_eq!(staged.error, Some(AllocError::CoordAlreadyResident));
    assert_eq!(slots.resident_count(), 1);
}

#[test]
fn staging_stops_at_a_full_pool() {
    let mut slots = SlotAllocator::new();
    for x in 0..4096 {
        slots.alloc_slot(at(x)).unwrap();
    }
    let staged = stage_chunks(&mut slots, &[voxel_chunk(at(-1), &[])], 1);
    assert_eq!(staged.error, Some(AllocError::PoolFull));
    assert!(staged.slots.is_empty() && staged.uploads.is_empty());
}

#[test]
fn voxels_are_counted_over_chunks() {
    let chunks = vec![
        voxel_chunk(at(0), &[(1, 1, 1), (2, 1, 1)]),
        voxel_chunk(at(1), &[(5, 5, 5)]),
    ];
    assert_eq!(count_voxels(&chunks, 0), 0);
    assert_eq!(count_voxels(&chunks, 1), 2);
    assert_eq!(count_voxels(&chunks, 2), 3);
}

#[test]
fn offsets_are_running_sums() {
    let table = mesh_offsets(&[6, 0, 2]);
    assert_eq!(table.len(), 20_480);
    assert_eq!(table[..5], [0, 24, 0, 36, 0]);
    assert_eq!(table[5..10], [24, 0, 36, 0, 0]);
    assert_eq!(table[10..15], [24, 8, 36, 12, 0]);
    assert!(table[15..].iter().all(|w| *w == 0));
}

#[test]
fn meshes_are_packed_one_after_the_other() {
    let chunks = vec![
        voxel_chunk(at(0), &[(1, 1, 1)]),
        voxel_chunk(at(1), &[]),
        voxel_chunk(at(2), &[(3, 3, 3)]),
    ];
    let results = mesh_chunks(&chunks, 3);
    let stats = mesh_stats(&results);
    assert_eq!((stats.verts, stats.indices, stats.quads), (48, 72, 12));
    let writes = upload_meshes(results);
    let places: Vec<(GpuBuffer, u64, usize)> =
        writes.iter().map(|w| (w.buffer, w.offset, w.bytes.len())).collect();
    assert_eq!(
        places,
        vec![
            (GpuBuffer::MeshOffsets, 0, 81_920),
            (GpuBuffer::VertexPool, 0, 384),
            (GpuBuffer::IndexPool, 0, 144),
            (GpuBuffer::VertexPool, 384, 384),
            (GpuBuffer::IndexPool, 144, 144),
        ]
    );
    let first: Vec<u32> = writes[2].bytes[..24]
        .chunks_exact(4)
        .map(|b| u32::from_ne_bytes([b[0], b[1], b[2], b[3]]))
        .collect();
    assert_eq!(first, vec![0, 1, 2, 0, 2, 3]);
}

#[test]
fn cornell_box_is_one_meshed_chunk() {
    let (chunks, materials) = generate_cornell_box();
    assert_eq!(chunks.len(), 1);
    assert_eq!(materials.len(), 4096);
    let mesh = mesh_chunk_data(&chunks[0]);
    assert!(mesh.quad_count > 6);
    assert_eq!(mesh.draw_meta.index_count, 6 * mesh.quad_count);
}

#[test]
fn rebuilds_end_with_fresh_draw_arguments() {
    assert_eq!(
        plan_rebuild(true),
        vec![
            RebuildStep::InitVisibility,
            RebuildStep::MeshOnCpu,
            RebuildStep::BuildIndirect,
            RebuildStep::DropWireframe,
        ]
    );
    assert_eq!(
        plan_rebuild(false),
        vec![
            RebuildStep::InitVisibility,
            RebuildStep::ClearMeshCounts,
            RebuildStep::ClearDrawMeta,
            RebuildStep::Count,
            RebuildStep::PrefixSum,
            RebuildStep::WriteMeshes,
            RebuildStep::BuildIndirect,
            RebuildStep::DropWireframe,
        ]
    );
}
