use gestalt::coord::ChunkCoord;
use gestalt::frame::HizLevel;
use gestalt::gpu_layout::{buffer_size, usage, GpuBuffer};
use gestalt::materials::MaterialEntry;
use gestalt::pool::{DeallocError, DrawMeta, SlotAllocator, MAX_SLOTS};
use gestalt::probe_slot::ProbeSlotAllocator;
use gestalt::residency::{
    build_probe_tables, build_slot_table, empty_probe_tables, fits_table, ProbeHome,
};
use gestalt::upload::{
    clear_draw_meta, clear_mesh_counts, cull_params, dealloc_slot, force_all_visible, hiz_params,
    init_visibility, invalidate_slot, material_bytes, upload_chunk, upload_draw_meta,
    upload_materials, upload_mesh, upload_occupancy, upload_palette, upload_probe_tables,
    upload_scene_params, upload_slot_table, BufferWrite, V3CascadeParams, FLAG_STALE_SUMMARY,
};

fn words(bytes: &[u8]) -> Vec<u32> {
    assert_eq!(bytes.len() % 4, 0);
    bytes.chunks_exact(4).map(|b| u32::from_ne_bytes([b[0], b[1], b[2], b[3]])).collect()
}

fn check(w: &BufferWrite, buffer: GpuBuffer, offset: u64, expected: &[u32]) {
    assert_eq!(w.buffer, buffer);
    assert_eq!(w.offset, offset);
    assert_eq!(words(&w.bytes), expected);
    assert!(usage(buffer).copy_dst);
    assert!(offset + w.bytes.len() as u64 <= buffer_size(buffer, 64));
}

#[test]
fn words_are_written_in_machine_order() {
    let w = upload_palette(2, &[0x0102_0304, 0xA0B0_C0D0]).unwrap();
    let mut expected = 0x0102_0304u32.to_ne_bytes().to_vec();
    expected.extend_from_slice(&0xA0B0_C0D0u32.to_ne_bytes());
    assert_eq!(w.bytes, expected);
    check(&w, GpuBuffer::Palette, 64, &[0x0102_0304, 0xA0B0_C0D0]);
    assert!(upload_palette(2, &[]).is_none());
}

#[test]
fn occupancy_goes_to_its_slot() {
    let mut occupancy = vec![0u32; 8192];
    occupancy[0] = 5;
    occupancy[8191] = 0xFFFF_FFFF;
    check(&upload_occupancy(3, &occupancy), GpuBuffer::OccupancyAtlas, 98_304, &occupancy);
}

#[test]
fn chunk_upload_writes_everything() {
    let occupancy = vec![7u32; 8192];
    let coord = ChunkCoord { x: -1, y: 2, z: i32::MIN };
    let writes = upload_chunk(5, coord, &occupancy, &[0x0002_0000], &[9, 8], 163_840, 0x0001_0002);
    assert_eq!(writes.len(), 7);
    check(&writes[0], GpuBuffer::OccupancyAtlas, 163_840, &occupancy);
    check(&writes[1], GpuBuffer::Palette, 160, &[0x0002_0000]);
    check(&writes[2], GpuBuffer::IndexBufPool, 655_360, &[9, 8]);
    check(&writes[3], GpuBuffer::PaletteMeta, 20, &[0x0001_0002]);
    check(&writes[4], GpuBuffer::Coord, 80, &[0xFFFF_FFFF, 2, 0x8000_0000, 0]);
    check(&writes[5], GpuBuffer::Version, 20, &[1]);
    check(&writes[6], GpuBuffer::Flags, 20, &[FLAG_STALE_SUMMARY]);
}

#[test]
fn empty_parts_of_a_chunk_are_not_written() {
    let writes = upload_chunk(0, ChunkCoord::zero(), &[0; 8192], &[], &[], 0, 1);
    let buffers: Vec<GpuBuffer> = writes.iter().map(|w| w.buffer).collect();
    assert_eq!(
        buffers,
        vec![
            GpuBuffer::OccupancyAtlas,
            GpuBuffer::PaletteMeta,
            GpuBuffer::Coord,
            GpuBuffer::Version,
            GpuBuffer::Flags,
        ]
    );
}

#[test]
fn uploads_of_two_slots_do_not_touch() {
    let occupancy = vec![1u32; 8192];
    let index = vec![2u32; 32_768];
    let coord = ChunkCoord::zero();
    let a = upload_chunk(8, coord, &occupancy, &[1; 8], &index, 8 * 32_768, 1);
    let b = upload_chunk(9, coord, &occupancy, &[1; 8], &index, 9 * 32_768, 1);
    for (p, q) in a.iter().zip(b.iter()) {
        assert_eq!(p.buffer, q.buffer);
        assert!(p.offset + p.bytes.len() as u64 <= q.offset);
    }
}

#[test]
fn freed_slots_are_invalidated() {
    check(&invalidate_slot(6), GpuBuffer::Version, 24, &[0]);
    let mut slots = SlotAllocator::new();
    let coord = ChunkCoord { x: 1, y: 2, z: 3 };
    slots.alloc_slot(ChunkCoord::zero()).unwrap();
    slots.alloc_slot(coord).unwrap();
    let (freed, write) = dealloc_slot(&mut slots, 1).unwrap();
    assert_eq!(freed, coord);
    check(&write, GpuBuffer::Version, 4, &[0]);
    assert_eq!(slots.lookup(&coord), None);
    assert_eq!(slots.resident_count(), 1);
}

#[test]
fn freeing_free_slots_fails() {
    let mut slots = SlotAllocator::new();
    assert_eq!(dealloc_slot(&mut slots, 3).unwrap_err(), DeallocError::SlotNotAllocated);
    assert_eq!(dealloc_slot(&mut slots, MAX_SLOTS).unwrap_err(), DeallocError::SlotOutOfRange);
}

#[test]
fn meshes_go_to_fixed_places() {
    let writes = upload_mesh(2, &[1, 2, 3, 4], &[5, 6, 7, 8]);
    assert_eq!(writes.len(), 2);
    assert_eq!((writes[0].buffer, writes[0].offset), (GpuBuffer::VertexPool, 524_288));
    assert_eq!(writes[0].bytes, vec![1, 2, 3, 4]);
    assert_eq!((writes[1].buffer, writes[1].offset), (GpuBuffer::IndexPool, 196_608));
    assert_eq!(writes[1].bytes, vec![5, 6, 7, 8]);
    assert!(upload_mesh(2, &[], &[]).is_empty());
}

#[test]
fn draw_meta_is_eight_words() {
    let mut meta = DrawMeta::default();
    meta.vertex_count = 24;
    meta.index_count = 36;
    check(&upload_draw_meta(4, &meta), GpuBuffer::DrawMeta, 128, &[0, 24, 0, 36, 0, 0, 0, 0]);
}

#[test]
fn materials_are_four_words_each() {
    let one = 1.0f32.to_bits();
    let half = 0.5f32.to_bits();
    let m = MaterialEntry::new([one, half, 0], half, [0, one, half], one);
    let data = material_bytes(&[m, m]);
    let expected = [0x3800_3C00, 0x3800_0000, 0x3C00_0000, 0x3C00_3800];
    assert_eq!(words(&data[..16]), expected);
    assert_eq!(words(&data[16..]), expected);
    let w = upload_materials(&data).unwrap();
    assert_eq!((w.buffer, w.offset), (GpuBuffer::MaterialTable, 0));
    assert_eq!(w.bytes, data);
    assert!(upload_materials(&[]).is_none());
}

#[test]
fn visibility_is_one_word_per_slot() {
    let w = init_visibility(3);
    assert_eq!((w.buffer, w.offset), (GpuBuffer::Visibility, 0));
    assert_eq!(words(&w.bytes)[..3], [1, 1, 1]);
    assert_eq!(w.bytes.len(), 12);
}

#[test]
fn forced_slots_draw_one_instance() {
    let writes = force_all_visible(3);
    assert_eq!(writes.len(), 3);
    check(&writes[0], GpuBuffer::IndirectDraw, 4, &[1]);
    check(&writes[1], GpuBuffer::IndirectDraw, 24, &[1]);
    check(&writes[2], GpuBuffer::IndirectDraw, 44, &[1]);
}

#[test]
fn counts_and_draw_arguments_are_cleared() {
    check(&clear_mesh_counts(3), GpuBuffer::MeshCounts, 0, &[0; 3]);
    check(&clear_draw_meta(2), GpuBuffer::DrawMeta, 0, &[0; 16]);
}

#[test]
fn parameters_are_written_as_words() {
    check(
        &upload_scene_params([1, 2, 3], 4),
        GpuBuffer::SceneParams,
        0,
        &[1, 2, 3, 4],
    );
    let level = HizLevel { src_width: 5, src_height: 6, dst_width: 7, dst_height: 8 };
    let w = hiz_params(level);
    assert_eq!((w.buffer, w.offset), (GpuBuffer::HizParams, 0));
    assert_eq!(words(&w.bytes), vec![5, 6, 7, 8]);
    let w = cull_params(9, 10, 11);
    assert_eq!((w.buffer, w.offset), (GpuBuffer::CullParams, 0));
    assert_eq!(words(&w.bytes), vec![9, 10, 11, 0]);
}

#[test]
fn cascade_parameters_hold_the_layout() {
    let p = V3CascadeParams {
        grid_origin: [1, 2, 3],
        voxel_scale: 4,
        frame_index: 5,
        active_probe_slots: 6,
    };
    check(
        &p.upload(),
        GpuBuffer::CascadeParams,
        0,
        &[1, 2, 3, 4, 4, 8, 16, 64, 5, 6, 0, 0, 0, 0, 0, 0],
    );
}

#[test]
fn slot_table_finds_residents() {
    let mut slots = SlotAllocator::new();
    let coords = [
        ChunkCoord { x: -2, y: 0, z: 5 },
        ChunkCoord { x: -1, y: 1, z: 5 },
        ChunkCoord { x: -2, y: 0, z: 7 },
    ];
    for c in coords {
        slots.alloc_slot(c).unwrap();
    }
    let t = build_slot_table(&slots, 4);
    assert_eq!((t.origin_x, t.origin_y, t.origin_z, t.dim), (-3, -2, 4, 4));
    assert_eq!(t.entries.len(), 64);
    for (i, e) in t.entries.iter().enumerate() {
        let expected = match i {
            25 => 0,
            30 => 1,
            57 => 2,
            _ => 0xFFFF_FFFF,
        };
        assert_eq!(*e, expected);
    }
    let writes = upload_slot_table(&slots, 4);
    assert_eq!(writes.len(), 2);
    let table = writes.iter().find(|w| w.buffer == GpuBuffer::SlotTable).unwrap();
    assert_eq!(words(&table.bytes), t.entries);
    let params = writes.iter().find(|w| w.buffer == GpuBuffer::SlotTableParams).unwrap();
    assert_eq!(words(&params.bytes), vec![0xFFFF_FFFD, 0xFFFF_FFFE, 4, 4]);
}

#[test]
fn empty_pools_have_an_empty_slot_table() {
    let slots = SlotAllocator::new();
    let t = build_slot_table(&slots, 4);
    assert_eq!((t.origin_x, t.origin_y, t.origin_z, t.dim), (-2, -2, -2, 4));
    assert_eq!(t.entries, vec![0xFFFF_FFFF; 64]);
    let writes = upload_slot_table(&slots, 4);
    assert_eq!(writes.len(), 2);
    check(&writes[0], GpuBuffer::SlotTable, 0, &[0xFFFF_FFFF; 64]);
    check(
        &writes[1],
        GpuBuffer::SlotTableParams,
        0,
        &[0xFFFF_FFFE, 0xFFFF_FFFE, 0xFFFF_FFFE, 4],
    );
}

#[test]
fn unloading_clears_the_slot_table() {
    let mut slots = SlotAllocator::new();
    let a = slots.alloc_slot(ChunkCoord { x: 3, y: 4, z: 5 }).unwrap();
    let b = slots.alloc_slot(ChunkCoord { x: 4, y: 4, z: 5 }).unwrap();
    let named = |slots: &SlotAllocator| {
        let writes = upload_slot_table(slots, 4);
        assert_eq!(writes[0].buffer, GpuBuffer::SlotTable);
        let mut found = words(&writes[0].bytes);
        found.retain(|e| *e != 0xFFFF_FFFF);
        found
    };
    assert_eq!(named(&slots), [a, b]);
    slots.dealloc(a).unwrap();
    assert_eq!(named(&slots), [b]);
    slots.dealloc(b).unwrap();
    assert!(named(&slots).is_empty());
}

#[test]
fn probe_tables_name_each_other() {
    let mut chunks = SlotAllocator::new();
    let mut probes = ProbeSlotAllocator::new();
    let a = ChunkCoord { x: 1, y: 2, z: 3 };
    let b = ChunkCoord { x: 4, y: 5, z: 6 };
    chunks.alloc_slot(a).unwrap();
    chunks.alloc_slot(b).unwrap();
    probes.alloc_slot(b).unwrap();
    let t = build_probe_tables(&chunks, &probes);
    assert_eq!(t.chunk_to_probe.len(), 4096);
    assert_eq!(t.chunk_to_probe[0], 0xFFFF_FFFF);
    assert_eq!(t.chunk_to_probe[1], 0);
    assert_eq!(t.probe_to_chunk.len(), 64);
    assert_eq!(t.probe_to_chunk[0], ProbeHome { x: 4, y: 5, z: 6, chunk_slot: 1 });
    assert_eq!(t.probe_to_chunk[1], empty_probe_tables().probe_to_chunk[1]);
    let writes = upload_probe_tables(&t);
    let total: usize = writes.iter().map(|w| w.bytes.len()).sum();
    assert_eq!(total, 4096 * 4 + 64 * 16);
    let homes = writes.iter().find(|w| w.buffer == GpuBuffer::ActiveProbeChunks).unwrap();
    assert_eq!(words(&homes.bytes)[..4], [4, 5, 6, 1]);
}

#[test]
fn far_chunks_do_not_fit_the_table() {
    let mut slots = SlotAllocator::new();
    assert!(fits_table(&slots, 32));
    slots.alloc_slot(ChunkCoord { x: -100, y: 0, z: 100 }).unwrap();
    slots.alloc_slot(ChunkCoord { x: 100, y: 7, z: 100 }).unwrap();
    assert!(fits_table(&slots, 32));
    let mut far = SlotAllocator::new();
    far.alloc_slot(ChunkCoord { x: 0, y: i32::MIN, z: 0 }).unwrap();
    assert!(!fits_table(&far, 32));
}
