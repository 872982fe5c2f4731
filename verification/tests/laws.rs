use gestalt::binary_chunk::{cull_faces, pack_quad, unpack_quad, BinaryChunk, FaceMasks};
use gestalt::coord::{euclidean_mod, floor_div, ChunkCoord};
use gestalt::lru::LruTracker;
use gestalt::merge::merge_all;
use gestalt::mesh_cpu::{
    count_faces, cull_faces_cpu, expand_quads, face_visible, greedy_merge, pack_normal_material,
    read_material_id, read_palette_index, Quad,
};
use gestalt::mesher::{mesh_chunk_with_stats, quad_corners};
use gestalt::obj_parser::{parse_obj, read_vertex_index};
use gestalt::occupancy::read_column;
use gestalt::plane::{greedy_rects, ProcessedBitmap, PLANE_CELLS};
use gestalt::pool::{SlotAllocator, FACE_POS_X, FACE_POS_Y, MAX_SLOTS};
use gestalt::probe_slot::ProbeSlotAllocator;
use gestalt::queue::RebuildQueue;
use gestalt::scene::{
    fill_box, generate_test_scene, ChunkData, IndexBufBuilder, OccupancyBuilder, PaletteBuilder, MAT_BLUE, MAT_STONE,
};
use gestalt::state::{BoundaryFlags, ChunkState};
use gestalt::voxelizer_cpu::{build_material_table, hash_color, voxelize, VoxelHit};

fn at(x: i32, y: i32, z: i32) -> ChunkCoord {
    ChunkCoord { x, y, z }
}

#[test]
fn voxels_split_and_join() {
    for v in [[0, 61, 62], [-1, -62, -63], [i32::MIN, i32::MAX, 0]] {
        let c = ChunkCoord::from_voxel(v);
        let l = ChunkCoord::voxel_to_local(v);
        let c = [c.x, c.y, c.z];
        for i in 0..3 {
            assert!(l[i] < 62);
            assert_eq!(c[i] as i64 * 62 + l[i] as i64, v[i] as i64);
        }
    }
    assert_eq!(floor_div(-7, 3), -3);
    assert_eq!(floor_div(7, -3), -3);
    assert_eq!(euclidean_mod(-7, 3), 2);
    assert_eq!(euclidean_mod(-7, -3), 2);
}

#[test]
fn deallocation_undoes_allocation() {
    let mut slots = SlotAllocator::new();
    for x in 0..10 {
        slots.alloc_slot(at(x, 0, 0)).unwrap();
    }
    let before = slots.allocated_slots();
    let slot = slots.alloc_slot(at(0, 1, 0)).unwrap();
    slots.dealloc(slot).unwrap();
    assert_eq!(slots.allocated_slots(), before);
    assert_eq!(slots.free_count(), MAX_SLOTS - 10);
    // A freed slot is the next to be given out.
    slots.dealloc(4).unwrap();
    assert_eq!(slots.alloc_slot(at(7, 7, 7)), Ok(4));
    slots.clear();
    assert_eq!(slots.resident_count(), 0);
    assert_eq!(slots.alloc_slot(at(7, 7, 7)), Ok(0));
}

#[test]
fn allocated_slots_come_in_order() {
    let mut slots = SlotAllocator::new();
    for x in 0..4 {
        slots.alloc_slot(at(x, 0, 0)).unwrap();
    }
    slots.dealloc(1).unwrap();
    assert_eq!(
        slots.allocated_slots(),
        vec![(0, at(0, 0, 0)), (2, at(2, 0, 0)), (3, at(3, 0, 0))]
    );
}

#[test]
fn eviction_frees_a_probe_slot() {
    let mut probes = ProbeSlotAllocator::default();
    probes.alloc_slot(at(1, 0, 0)).unwrap();
    probes.evict(&at(2, 0, 0));
    assert_eq!(probes.allocated_count(), 1);
    probes.evict(&at(1, 0, 0));
    assert_eq!(probes.allocated_count(), 0);
    assert_eq!(probes.lookup(&at(1, 0, 0)), None);
}

#[test]
fn columns_read_back_what_was_set() {
    let mut b = OccupancyBuilder::new();
    b.set(3, 0, 7);
    b.set(3, 31, 7);
    b.set(3, 32, 7);
    b.set(3, 63, 7);
    assert_eq!(read_column(b.as_words(), 3, 7), 0x8000_0001_8000_0001);
    assert_eq!(read_column(b.as_words(), 7, 3), 0);
}

#[test]
fn materials_read_back_through_palette_and_indices() {
    let mut palette = PaletteBuilder::new();
    let mut indices = IndexBufBuilder::new();
    let a = palette.add(MAT_STONE);
    let b = palette.add(MAT_BLUE);
    indices.set(1, 2, 3, a);
    indices.set(63, 63, 63, b);
    let bpe = IndexBufBuilder::bits_per_entry(palette.len());
    let packed = indices.pack(bpe);
    let words = palette.as_words();
    assert_eq!(read_palette_index(&packed, bpe as u32, 1, 2, 3), 1);
    assert_eq!(read_material_id(&words, &packed, bpe as u32, 1, 2, 3), MAT_STONE as u32);
    assert_eq!(read_material_id(&words, &packed, bpe as u32, 63, 63, 63), MAT_BLUE as u32);
    assert_eq!(read_material_id(&words, &packed, bpe as u32, 0, 0, 0), 0);
}

#[test]
fn quads_tile_the_visible_faces() {
    let (chunks, _) = generate_test_scene();
    let c = &chunks[0];
    let masks = cull_faces_cpu(c.occupancy.as_words());
    let bpe = IndexBufBuilder::bits_per_entry(c.palette.len());
    let packed = c.index_buf.pack(bpe);
    let quads =
        greedy_merge(c.occupancy.as_words(), &masks, &c.palette.as_words(), &packed, bpe as u32);
    let counts = count_faces(&masks);
    for face in 0..6 {
        let area: u32 =
            quads.iter().filter(|q| q.face == face).map(|q| q.width * q.height).sum();
        assert_eq!(area, counts[face]);
    }
    let q = &quads[0];
    assert!(face_visible(&masks, q.face, q.x + 1, q.z + 1, q.y));
}

#[test]
fn one_quad_is_four_vertices() {
    let q = Quad { face: FACE_POS_Y, x: 0, y: 1, z: 2, width: 3, height: 4, material_id: 5 };
    let (vertices, indices) = expand_quads(&[q], [1, 0, -1]);
    assert_eq!(vertices.len(), 64);
    assert_eq!(indices, vec![0, 1, 2, 0, 2, 3]);
    for v in vertices.chunks_exact(16) {
        let number = |i: usize| f32::from_le_bytes([v[i], v[i + 1], v[i + 2], v[i + 3]]);
        // Chunk (1, 0, -1), one voxel of padding, and the top of layer 1.
        assert!(number(0) == 63.0 || number(0) == 66.0);
        assert_eq!(number(4), 3.0);
        assert!(number(8) == -59.0 || number(8) == -55.0);
        assert_eq!(v[12..16], [0, 127, 0, 5]);
    }
}

#[test]
fn normals_and_materials_share_a_word() {
    assert_eq!(pack_normal_material(127, 0, 0, 9), 0x0900_007F);
    assert_eq!(pack_normal_material(0, -127, 0, 1), 0x0100_8100);
    assert_eq!(pack_normal_material(0, 0, -1, 255), 0xFFFF_0000);
}

#[test]
fn rectangles_cover_a_plane_once() {
    let mut cells: Vec<Option<u32>> = vec![None; PLANE_CELLS];
    for a in 0..5 {
        for b in 0..5 {
            if (a, b) != (2, 2) {
                cells[a * 62 + b] = Some(1);
            }
        }
    }
    let rects = greedy_rects(&cells);
    let area: u32 = rects.iter().map(|r| r.width * r.height).sum();
    assert_eq!(area, 24);
    let mut seen = ProcessedBitmap::new();
    for r in &rects {
        for a in r.a..r.a + r.width {
            for b in r.b..r.b + r.height {
                assert!(!seen.get(a, b));
                seen.set(a, b);
            }
        }
    }
}

#[test]
fn packed_quads_unpack() {
    let q = pack_quad(61, 1, 62, 62, 3, 65535);
    assert_eq!(unpack_quad(q), (61, 1, 62, 62, 3, 65535));
}

#[test]
fn merged_quads_cover_the_culled_faces() {
    let mut chunk = BinaryChunk::new();
    for x in 10..20 {
        for y in 5..9 {
            for z in 30..33 {
                if (x * y + z) % 3 != 0 {
                    chunk.set(x, y, z, (1 + x % 2) as u16);
                }
            }
        }
    }
    let mut masks = FaceMasks::new();
    cull_faces(&chunk, &mut masks);
    let quads = merge_all(&chunk, &masks);
    let mut area = 0;
    let mut count = 0;
    for list in &quads {
        for q in list {
            let (_, _, _, w, h, _) = unpack_quad(*q);
            area += (w * h) as usize;
            count += 1;
        }
    }
    assert_eq!(area, masks.total_faces());
    assert!(count <= area);
    assert_eq!(mesh_chunk_with_stats(&chunk).stats.quad_count, count);
}

#[test]
fn material_zero_removes_a_voxel() {
    let mut chunk = BinaryChunk::new();
    assert!(chunk.is_empty());
    chunk.set(5, 6, 7, 9);
    assert!(chunk.is_solid(5, 6, 7));
    assert_eq!(chunk.get_material(5, 6, 7), 9);
    assert_eq!(chunk.solid_count(), 1);
    chunk.set(5, 6, 7, 0);
    assert!(!chunk.is_solid(5, 6, 7) && chunk.is_empty());
    assert!(chunk.occupancy_words().iter().all(|w| *w == 0));
}

#[test]
fn corners_form_rectangles() {
    let c = quad_corners(FACE_POS_X, 3, 4);
    for i in 0..4 {
        let j = (i + 2) % 4;
        assert_ne!((c[i].x, c[i].y, c[i].z), (c[j].x, c[j].y, c[j].z));
    }
    let total = |f: usize| {
        let c = quad_corners(f, 3, 4);
        c.iter().map(|k| k.x + k.y + k.z).max().unwrap()
    };
    for face in 0..6 {
        assert!(total(face) >= 7);
    }
}

#[test]
fn states_are_told_apart() {
    let states = [
        ChunkState::Clean,
        ChunkState::Dirty,
        ChunkState::Meshing { data_version: 3 },
        ChunkState::ReadyToSwap { data_version: 3 },
    ];
    for s in states {
        let yes = [s.needs_rebuild(), s.is_meshing(), s.has_pending_mesh(), s.is_clean()];
        assert_eq!(yes.iter().filter(|b| **b).count(), 1);
    }
}

#[test]
fn each_boundary_has_one_neighbor() {
    let mut flags = BoundaryFlags::default();
    flags.neg_x = true;
    flags.pos_x = true;
    flags.neg_y = true;
    flags.pos_y = true;
    flags.neg_z = true;
    flags.pos_z = true;
    let mut v = flags.affected_neighbors();
    assert_eq!(v.len(), flags.count());
    v.sort();
    v.dedup();
    assert_eq!(v.len(), 6);
}

#[test]
fn touched_chunks_are_newest() {
    let mut t = LruTracker::default();
    for x in 0..5 {
        t.touch(at(x, 0, 0));
    }
    t.touch(at(1, 0, 0));
    let sorted = t.get_lru_sorted();
    let order: Vec<i32> = sorted.iter().map(|e| e.0.x).collect();
    assert_eq!(order, vec![0, 2, 3, 4, 1]);
    assert!(sorted.windows(2).all(|w| w[0].1 < w[1].1));
}

#[test]
fn urgent_requests_come_first() {
    let mut q = RebuildQueue::with_capacity(4);
    for (x, p) in [(0, 1.5f32), (1, -2.0), (2, f32::INFINITY), (3, 0.0), (4, 1e-40)] {
        assert!(q.enqueue(at(x, 0, 0), p.to_bits(), x as u64));
    }
    assert_eq!(q.peek().unwrap().coord, at(2, 0, 0));
    let mut order = Vec::new();
    while let Some(r) = q.pop() {
        assert_eq!(r.data_version, r.coord.x as u64);
        order.push(r.coord.x);
    }
    assert_eq!(order, vec![2, 0, 4, 3, 1]);
}

#[test]
fn updates_replace_and_removals_remove() {
    let mut q = RebuildQueue::default();
    q.enqueue(at(0, 0, 0), 1.0f32.to_bits(), 1);
    q.enqueue(at(1, 0, 0), 2.0f32.to_bits(), 1);
    q.update_priority(at(0, 0, 0), 3.0f32.to_bits(), 2);
    assert_eq!(q.len(), 2);
    let mut waiting = q.iter();
    waiting.sort_by_key(|c| c.x);
    assert_eq!(waiting, vec![at(0, 0, 0), at(1, 0, 0)]);
    assert!(q.remove(at(1, 0, 0)));
    let r = q.pop().unwrap();
    assert_eq!((r.coord, r.data_version), (at(0, 0, 0), 2));
    assert_eq!(f32::from_bits(r.priority), 3.0);
    assert!(q.pop().is_none());
}

#[test]
fn parsed_meshes_name_their_groups() {
    let obj = "usemtl a b\nv 1 2 3\nv 1e3 -.5 +2.\nv 1 x 3\nv 1 2\nf 1 2 1 2 1\nusemtl (default)\nf 1 1 -1 2\nf a 1/2 2//3 1/1/1\n";
    let p = parse_obj(obj);
    assert_eq!(p.positions.len(), 2);
    let second: String = p.positions[1].x.iter().collect();
    assert_eq!(second, "1e3");
    assert_eq!(p.material_names, vec!["(default)".to_string(), "a b".to_string()]);
    assert_eq!(
        p.triangles,
        vec![[0, 1, 0], [0, 0, 1], [0, 1, 0], [0, 0, 1], [0, 1, 0]]
    );
    assert_eq!(p.triangle_materials, vec![1, 1, 1, 0, 0]);
}

#[test]
fn vertex_indices_are_positive() {
    let read = |s: &str| read_vertex_index(&s.chars().collect());
    assert_eq!(read("1"), Some(0));
    assert_eq!(read("12/3/4"), Some(11));
    assert_eq!(read("+7//1"), Some(6));
    assert_eq!(read("2147483647"), Some(2_147_483_646));
    assert_eq!(read("2147483648"), None);
    assert_eq!(read("0"), None);
    assert_eq!(read("-3"), None);
    assert_eq!(read("x"), None);
    assert_eq!(read("/1"), None);
}

#[test]
fn hits_become_voxels_of_their_chunks() {
    let hits = [
        VoxelHit { x: 0, y: 0, z: 0, group: 0 },
        VoxelHit { x: 62, y: 61, z: 5, group: 1 },
        VoxelHit { x: -1, y: 0, z: 0, group: 1 },
        VoxelHit { x: 0, y: 0, z: 0, group: 1 },
    ];
    let r = voxelize(&hits, &[]);
    let coords: Vec<ChunkCoord> = r.chunks.iter().map(|c| c.coord).collect();
    assert_eq!(coords, vec![at(-1, 0, 0), at(0, 0, 0), at(1, 0, 0)]);
    assert!(r.chunks[0].occupancy.get(62, 1, 1));
    assert!(r.chunks[1].occupancy.get(1, 1, 1));
    assert!(r.chunks[2].occupancy.get(1, 62, 6));
    for c in &r.chunks {
        assert_eq!(c.occupancy.popcount(), 1);
    }
    // The first hit on a voxel decides its material.
    let first = &r.chunks[1];
    let index = first.index_buf.get(1, 1, 1);
    assert_eq!(first.palette.as_words()[0] >> (16 * (index as u32 % 2)) & 0xFFFF, 2);
}

#[test]
fn group_colors_are_fixed() {
    assert_eq!(hash_color(0), [95, 50, 233]);
    let table = build_material_table(&[]);
    assert_eq!(table.len(), 4096);
    assert_ne!(table[1], table[0]);
    assert_eq!(table[2], table[0]);
}

#[test]
fn opposite_faces_are_equally_many_on_a_ragged_shape() {
    let mut b = OccupancyBuilder::new();
    for (x, y, z) in [(1, 1, 1), (2, 1, 1), (4, 1, 1), (4, 2, 1), (4, 2, 62), (62, 62, 62)] {
        b.set(x, y, z);
    }
    let counts = count_faces(&cull_faces_cpu(b.as_words()));
    assert_eq!(counts, [5, 5, 5, 5, 6, 6]);
}

#[test]
fn materials_that_differ_in_the_high_byte_are_not_merged() {
    let mut occ = OccupancyBuilder::new();
    let mut pal = PaletteBuilder::new();
    let mut idx = IndexBufBuilder::new();
    for (x, material) in [(10, 5), (11, 5 + 256)] {
        occ.set(x, 10, 10);
        let i = pal.add(material);
        idx.set(x, 10, 10, i);
    }
    let masks = cull_faces_cpu(occ.as_words());
    let bpe = IndexBufBuilder::bits_per_entry(pal.len());
    let packed = idx.pack(bpe);
    let quads = greedy_merge(occ.as_words(), &masks, &pal.as_words(), &packed, bpe as u32);
    assert_eq!(quads.len(), 10);
    assert!(quads.iter().all(|q| q.width == 1 && q.height == 1 && q.material_id == 5));
}

#[test]
fn boxes_leave_other_voxels_alone() {
    let mut c = ChunkData::empty(at(0, 0, 0));
    c.index_buf.set(5, 5, 5, 9);
    c.occupancy.set(6, 5, 5);
    fill_box(&mut c, [1, 1, 1], [2, 3, 4], 7);
    assert_eq!(c.occupancy.popcount(), 2 * 3 * 4 + 1);
    assert_eq!((c.index_buf.get(2, 3, 4), c.occupancy.get(2, 3, 4)), (7, true));
    assert_eq!((c.index_buf.get(5, 5, 5), c.occupancy.get(5, 5, 5)), (9, false));
    assert_eq!((c.index_buf.get(6, 5, 5), c.occupancy.get(6, 5, 5)), (0, true));
}
