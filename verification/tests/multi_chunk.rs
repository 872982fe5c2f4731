use gestalt::materials::MaterialEntry;
use gestalt::mesh_cpu::{count_faces, cull_faces_cpu, greedy_merge, mesh_rebuild_cpu};
use gestalt::obj_parser::parse_obj;
use gestalt::pool::{CS, VERTEX_BYTES};
use gestalt::scene::IndexBufBuilder;
use gestalt::triangle_scan::triangle_hits;
use gestalt::voxelizer_cpu::{VoxelHit, VoxelizeResult, grid_resolution, hash_color, voxelize};
use std::collections::HashSet;

/// A triangle mesh with positions read as numbers.
struct Mesh {
    positions: Vec<[f32; 3]>,
    triangles: Vec<[u32; 3]>,
    triangle_materials: Vec<u32>,
    material_names: Vec<String>,
}

fn color_entry(id: u32) -> MaterialEntry {
    let scale = |c: u8| (0.3 + c as f32 / 255.0 * 0.7).to_bits();
    let c = hash_color(id);
    MaterialEntry::new(
        [scale(c[0]), scale(c[1]), scale(c[2])],
        0.5f32.to_bits(),
        [0; 3],
        1.0f32.to_bits(),
    )
}

fn minus(a: [f32; 3], b: [f32; 3]) -> [f32; 3] {
    [a[0] - b[0], a[1] - b[1], a[2] - b[2]]
}

fn dot(a: [f32; 3], b: [f32; 3]) -> f32 {
    a[0] * b[0] + a[1] * b[1] + a[2] * b[2]
}

fn cross(a: [f32; 3], b: [f32; 3]) -> [f32; 3] {
    [
        a[1] * b[2] - a[2] * b[1],
        a[2] * b[0] - a[0] * b[2],
        a[0] * b[1] - a[1] * b[0],
    ]
}

/// Whether a triangle meets a box, by separating axes.
fn triangle_box_overlap(center: [f32; 3], half: [f32; 3], tri: [[f32; 3]; 3]) -> bool {
    let v = tri.map(|p| minus(p, center));
    let edges = [minus(v[1], v[0]), minus(v[2], v[1]), minus(v[0], v[2])];
    let reach = |axis: [f32; 3]| dot(half, axis.map(f32::abs));
    for e in edges {
        for axis in [[0.0, -e[2], e[1]], [e[2], 0.0, -e[0]], [-e[1], e[0], 0.0]] {
            let p = v.map(|q| dot(q, axis));
            let low = p[0].min(p[1]).min(p[2]);
            let high = p[0].max(p[1]).max(p[2]);
            if low > reach(axis) || high < -reach(axis) {
                return false;
            }
        }
    }
    for i in 0..3 {
        if v[0][i].min(v[1][i]).min(v[2][i]) > half[i]
            || v[0][i].max(v[1][i]).max(v[2][i]) < -half[i]
        {
            return false;
        }
    }
    let normal = cross(edges[0], edges[1]);
    let apart = dot(normal, v[0]).abs() > reach(normal);
    !apart
}

fn voxelize_mesh(mesh: &Mesh, resolution: u32) -> VoxelizeResult {
    let groups: Vec<MaterialEntry> =
        (0..mesh.material_names.len() as u32).map(color_entry).collect();
    let mut low = [f32::MAX; 3];
    let mut high = [f32::MIN; 3];
    for p in &mesh.positions {
        for i in 0..3 {
            low[i] = low[i].min(p[i]);
            high[i] = high[i].max(p[i]);
        }
    }
    let extent = minus(high, low);
    let longest = extent[0].max(extent[1]).max(extent[2]);
    if mesh.positions.is_empty() || longest <= 0.0 || mesh.triangles.is_empty() {
        return voxelize(&[], &groups);
    }
    let size = longest / grid_resolution(resolution) as f32;
    let origin = low.map(|l| l - size * 0.5);
    let dims = extent.map(|e| ((e + size) / size).ceil() as i32);
    let mut hits: Vec<VoxelHit> = Vec::new();
    for (n, t) in mesh.triangles.iter().enumerate() {
        let tri = t.map(|i| minus(mesh.positions[i as usize], origin).map(|c| c / size));
        let mut first = [0i32; 3];
        let mut last = [0i32; 3];
        for i in 0..3 {
            let lo = tri[0][i].min(tri[1][i]).min(tri[2][i]) - 0.01;
            let hi = tri[0][i].max(tri[1][i]).max(tri[2][i]) + 0.01;
            first[i] = lo.floor() as i32;
            last[i] = hi.floor() as i32;
        }
        let group = mesh.triangle_materials[n] as u16;
        hits.extend(triangle_hits(first, last, dims, group, |x, y, z| {
            triangle_box_overlap([x as f32 + 0.5, y as f32 + 0.5, z as f32 + 0.5], [0.5; 3], tri)
        }));
    }
    voxelize(&hits, &groups)
}

fn number(literal: &[char]) -> f32 {
    let text: String = literal.iter().collect();
    text.parse::<f32>().unwrap()
}

/// An OBJ text as a mesh.
fn read_mesh(text: &str) -> Mesh {
    let parsed = parse_obj(text);
    Mesh {
        positions: parsed
            .positions
            .iter()
            .map(|p| [number(&p.x), number(&p.y), number(&p.z)])
            .collect(),
        triangles: parsed.triangles,
        triangle_materials: parsed.triangle_materials,
        material_names: parsed.material_names,
    }
}

/// Each chunk gets all 6 face directions from the mesher.
#[test]
fn multi_chunk_all_face_directions() {
    // Create a simple cube OBJ that spans 2+ chunks at resolution 100
    let obj = "\
v -1 -1 -1
v  1 -1 -1
v  1  1 -1
v -1  1 -1
v -1 -1  1
v  1 -1  1
v  1  1  1
v -1  1  1
f 1 2 3 4
f 5 8 7 6
f 1 5 6 2
f 3 7 8 4
f 2 6 7 3
f 1 4 8 5
";
    let parsed = read_mesh(obj);
    let result = voxelize_mesh(&parsed, 100);

    println!("Voxelized into {} chunks:", result.chunks.len());
    for chunk in &result.chunks {
        let pal_words = chunk.palette.as_words();
        let bpe = IndexBufBuilder::bits_per_entry(chunk.palette.len());
        let idx_words = chunk.index_buf.pack(bpe);
        let meta = IndexBufBuilder::palette_meta(chunk.palette.len());

        let mesh = mesh_rebuild_cpu(
            chunk.occupancy.as_words(),
            &pal_words,
            &idx_words,
            meta,
            [chunk.coord.x, chunk.coord.y, chunk.coord.z],
        );

        let masks = cull_faces_cpu(chunk.occupancy.as_words());
        let face_counts = count_faces(&masks);
        let quads = greedy_merge(
            chunk.occupancy.as_words(), &masks, &pal_words, &idx_words, bpe as u32,
        );

        // Count quads per face direction
        let mut quads_per_face = [0u32; 6];
        for q in &quads {
            quads_per_face[q.face] += 1;
        }

        println!(
            "  Chunk ({},{},{}): {} voxels, {} total quads, {} verts, {} indices",
            chunk.coord.x, chunk.coord.y, chunk.coord.z,
            chunk.occupancy.popcount(),
            quads.len(),
            mesh.draw_meta.vertex_count,
            mesh.draw_meta.index_count,
        );
        println!(
            "    Face counts (visible): +Y={} -Y={} +X={} -X={} +Z={} -Z={}",
            face_counts[0], face_counts[1], face_counts[2],
            face_counts[3], face_counts[4], face_counts[5],
        );
        println!(
            "    Quad counts (merged):  +Y={} -Y={} +X={} -X={} +Z={} -Z={}",
            quads_per_face[0], quads_per_face[1], quads_per_face[2],
            quads_per_face[3], quads_per_face[4], quads_per_face[5],
        );

        // Check: every face direction should have at least 1 quad
        for face in 0..6 {
            let dir = ["+Y", "-Y", "+X", "-X", "+Z", "-Z"][face];
            assert!(
                quads_per_face[face] > 0,
                "Chunk ({},{},{}) missing {} face quads! face_visible_count={}, quad_count={}",
                chunk.coord.x, chunk.coord.y, chunk.coord.z,
                dir, face_counts[face], quads_per_face[face],
            );
        }

        // Check: every quad has the same material (single-material mesh)
        for q in &quads {
            assert!(
                q.material_id > 0,
                "Chunk ({},{},{}) quad at ({},{},{}) face={} has material_id=0 (EMPTY)!",
                chunk.coord.x, chunk.coord.y, chunk.coord.z,
                q.x, q.y, q.z, q.face,
            );
        }
    }

    assert!(result.chunks.len() >= 2, "Expected multi-chunk output");
}

#[test]
fn winding_validation_multi_chunk() {

    let obj = "v -1 -1 -1\nv 1 -1 -1\nv 1 1 -1\nv -1 1 -1\nv -1 -1 1\nv 1 -1 1\nv 1 1 1\nv -1 1 1\nf 1 2 3 4\nf 5 8 7 6\nf 1 5 6 2\nf 3 7 8 4\nf 2 6 7 3\nf 1 4 8 5\n";
    let parsed = read_mesh(obj);
    let result = voxelize_mesh(&parsed, 100);

    let mut bad_count = 0u32;
    let mut total_tris = 0u32;

    for chunk in &result.chunks {
        let pal_words = chunk.palette.as_words();
        let bpe = IndexBufBuilder::bits_per_entry(chunk.palette.len());
        let idx_words = chunk.index_buf.pack(bpe);
        let meta = IndexBufBuilder::palette_meta(chunk.palette.len());

        let mesh = mesh_rebuild_cpu(
            chunk.occupancy.as_words(), &pal_words, &idx_words, meta,
            [chunk.coord.x, chunk.coord.y, chunk.coord.z],
        );

        let verts = &mesh.vertices;
        let indices = &mesh.indices;
        let vc = mesh.draw_meta.vertex_count as usize;

        // Parse all vertex positions
        let mut positions = Vec::with_capacity(vc);
        let mut normals = Vec::with_capacity(vc);
        for i in 0..vc {
            let base = i * VERTEX_BYTES as usize;
            let px = f32::from_le_bytes(verts[base..base+4].try_into().unwrap());
            let py = f32::from_le_bytes(verts[base+4..base+8].try_into().unwrap());
            let pz = f32::from_le_bytes(verts[base+8..base+12].try_into().unwrap());
            let nm = u32::from_le_bytes(verts[base+12..base+16].try_into().unwrap());
            let nx = (nm & 0xFF) as i8;
            let ny = ((nm >> 8) & 0xFF) as i8;
            let nz = ((nm >> 16) & 0xFF) as i8;
            positions.push([px, py, pz]);
            normals.push([nx as f32 / 127.0, ny as f32 / 127.0, nz as f32 / 127.0]);
        }

        // Check each triangle: cross product should agree with declared normal
        for i in (0..indices.len()).step_by(3) {
            let i0 = indices[i] as usize;
            let i1 = indices[i+1] as usize;
            let i2 = indices[i+2] as usize;
            if i0 >= vc || i1 >= vc || i2 >= vc { continue; }

            let p0 = positions[i0];
            let p1 = positions[i1];
            let p2 = positions[i2];
            let decl_n = normals[i0]; // all verts in a quad share the normal

            // Edge vectors
            let e1 = [p1[0]-p0[0], p1[1]-p0[1], p1[2]-p0[2]];
            let e2 = [p2[0]-p0[0], p2[1]-p0[1], p2[2]-p0[2]];
            // Cross product
            let cx = e1[1]*e2[2] - e1[2]*e2[1];
            let cy = e1[2]*e2[0] - e1[0]*e2[2];
            let cz = e1[0]*e2[1] - e1[1]*e2[0];

            // Dot with declared normal - should be positive (same direction)
            let dot = cx * decl_n[0] + cy * decl_n[1] + cz * decl_n[2];

            total_tris += 1;
            if dot <= 0.0 {
                bad_count += 1;
                if bad_count <= 5 {
                    println!(
                        "BAD WINDING chunk ({},{},{}): tri ({},{},{}) cross=({:.2},{:.2},{:.2}) normal=({:.2},{:.2},{:.2}) dot={:.4}",
                        chunk.coord.x, chunk.coord.y, chunk.coord.z,
                        i0, i1, i2, cx, cy, cz, decl_n[0], decl_n[1], decl_n[2], dot,
                    );
                    println!("  p0=({:.1},{:.1},{:.1}) p1=({:.1},{:.1},{:.1}) p2=({:.1},{:.1},{:.1})",
                        p0[0],p0[1],p0[2], p1[0],p1[1],p1[2], p2[0],p2[1],p2[2]);
                }
            }
        }
    }

    println!("\nTotal triangles: {total_tris}, bad winding: {bad_count}");
    assert_eq!(bad_count, 0, "{bad_count} triangles have wrong winding out of {total_tris}");
}

#[test]
fn voxel_coverage_no_gaps() {
    // Fill a 70x70x70 region - must span at least 2 chunks on each axis

    // Create a big cube: vertices span [-1, 1] so 2 units wide
    let obj = "v -1 -1 -1\nv 1 -1 -1\nv 1 1 -1\nv -1 1 -1\nv -1 -1 1\nv 1 -1 1\nv 1 1 1\nv -1 1 1\nf 1 2 3 4\nf 5 8 7 6\nf 1 5 6 2\nf 3 7 8 4\nf 2 6 7 3\nf 1 4 8 5\n";
    let parsed = read_mesh(obj);
    let result = voxelize_mesh(&parsed, 100);

    println!("Chunks: {}", result.chunks.len());

    // Collect all global voxel positions from all chunks
    let mut global_voxels: HashSet<(i32, i32, i32)> = HashSet::new();
    let mut duplicates = 0u32;

    for chunk in &result.chunks {
        let cx = chunk.coord.x;
        let cy = chunk.coord.y;
        let cz = chunk.coord.z;

        for lx in 1..=CS {
            for ly in 1..=CS {
                for lz in 1..=CS {
                    if chunk.occupancy.get(lx, ly, lz) {
                        // Convert local to global: global = chunk_coord * CS + (local - 1)
                        let gx = cx * CS as i32 + (lx as i32 - 1);
                        let gy = cy * CS as i32 + (ly as i32 - 1);
                        let gz = cz * CS as i32 + (lz as i32 - 1);
                        if !global_voxels.insert((gx, gy, gz)) {
                            duplicates += 1;
                        }
                    }
                }
            }
        }
    }

    println!("Total global voxels: {}", global_voxels.len());
    println!("Duplicates: {}", duplicates);
    assert_eq!(duplicates, 0, "voxels should not appear in multiple chunks");

    // Check that the filled region has no gaps:
    // Find the bounding box of all voxels
    let min_x = global_voxels.iter().map(|v| v.0).min().unwrap();
    let max_x = global_voxels.iter().map(|v| v.0).max().unwrap();
    let min_y = global_voxels.iter().map(|v| v.1).min().unwrap();
    let max_y = global_voxels.iter().map(|v| v.1).max().unwrap();
    let min_z = global_voxels.iter().map(|v| v.2).min().unwrap();
    let max_z = global_voxels.iter().map(|v| v.2).max().unwrap();

    println!("AABB: ({},{},{}) to ({},{},{})", min_x, min_y, min_z, max_x, max_y, max_z);

    // For each face direction, count visible faces per chunk
    for chunk in &result.chunks {
        let masks = cull_faces_cpu(chunk.occupancy.as_words());
        let counts = count_faces(&masks);
        let total: u32 = counts.iter().sum();
        println!(
            "Chunk ({},{},{}): {} voxels, faces: +Y={} -Y={} +X={} -X={} +Z={} -Z={} total={}",
            chunk.coord.x, chunk.coord.y, chunk.coord.z,
            chunk.occupancy.popcount(),
            counts[0], counts[1], counts[2], counts[3], counts[4], counts[5],
            total,
        );

        if counts[2] > 0 && counts[3] == 0 {
            println!("  WARNING: +X faces present but -X missing!");
        }
        if counts[3] > 0 && counts[2] == 0 {
            println!("  WARNING: -X faces present but +X missing!");
        }
        if counts[0] > 0 && counts[1] == 0 {
            println!("  WARNING: +Y faces present but -Y missing!");
        }
        if counts[1] > 0 && counts[0] == 0 {
            println!("  WARNING: -Y faces present but +Y missing!");
        }
        if counts[4] > 0 && counts[5] == 0 {
            println!("  WARNING: +Z faces present but -Z missing!");
        }
        if counts[5] > 0 && counts[4] == 0 {
            println!("  WARNING: -Z faces present but +Z missing!");
        }
    }
}

/// Check the actual normal+material packed values in emitted vertices
#[test]
fn multi_chunk_vertex_normal_material_check() {
    let obj = "\
v -1 -1 -1
v  1 -1 -1
v  1  1 -1
v -1  1 -1
v -1 -1  1
v  1 -1  1
v  1  1  1
v -1  1  1
f 1 2 3 4
f 5 8 7 6
f 1 5 6 2
f 3 7 8 4
f 2 6 7 3
f 1 4 8 5
";
    let parsed = read_mesh(obj);
    let result = voxelize_mesh(&parsed, 100);

    for chunk in &result.chunks {
        let pal_words = chunk.palette.as_words();
        let bpe = IndexBufBuilder::bits_per_entry(chunk.palette.len());
        let idx_words = chunk.index_buf.pack(bpe);
        let meta = IndexBufBuilder::palette_meta(chunk.palette.len());

        let mesh = mesh_rebuild_cpu(
            chunk.occupancy.as_words(), &pal_words, &idx_words, meta,
            [chunk.coord.x, chunk.coord.y, chunk.coord.z],
        );

        println!("\nChunk ({},{},{}):", chunk.coord.x, chunk.coord.y, chunk.coord.z);
        println!("  Palette: {:?}", pal_words);
        println!("  bpe={}, meta=0x{:08X}", bpe, meta);

        // Read each vertex's packed normal_material u32
        for i in 0..mesh.draw_meta.vertex_count as usize {
            let base = i * VERTEX_BYTES as usize;
            let nm = u32::from_le_bytes(mesh.vertices[base+12..base+16].try_into().unwrap());
            let nx = (nm & 0xFF) as i8;
            let ny = ((nm >> 8) & 0xFF) as i8;
            let nz = ((nm >> 16) & 0xFF) as i8;
            let mat = (nm >> 24) & 0xFF;
            // Only print first vertex of each quad (every 4th)
            if i % 4 == 0 {
                let px = f32::from_le_bytes(mesh.vertices[base..base+4].try_into().unwrap());
                let py = f32::from_le_bytes(mesh.vertices[base+4..base+8].try_into().unwrap());
                let pz = f32::from_le_bytes(mesh.vertices[base+8..base+12].try_into().unwrap());
                println!("  Quad {}: pos=({:.0},{:.0},{:.0}) normal=({},{},{}) mat={}",
                    i/4, px, py, pz, nx, ny, nz, mat);
            }
        }
    }
}
