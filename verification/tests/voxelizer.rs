use gestalt::coord::{euclidean_mod, floor_div};
use gestalt::materials::MaterialEntry;
use gestalt::pool::{CS, CS_P};
use gestalt::triangle_scan::triangle_hits;
use gestalt::voxelizer_cpu::{VoxelHit, VoxelizeResult, grid_resolution, hash_color, voxelize};

/// A triangle mesh with positions read as numbers.
struct Mesh {
    positions: Vec<[f32; 3]>,
    triangles: Vec<[u32; 3]>,
    triangle_materials: Vec<u32>,
    material_names: Vec<String>,
}

fn color_entry(id: u32) -> MaterialEntry {
    let scale = |c: u8| (0.3 + c as f32 / 255.0 * 0.7).to_bits();
    let c = hash_color(id);
    MaterialEntry::new(
        [scale(c[0]), scale(c[1]), scale(c[2])],
        0.5f32.to_bits(),
        [0; 3],
        1.0f32.to_bits(),
    )
}

fn minus(a: [f32; 3], b: [f32; 3]) -> [f32; 3] {
    [a[0] - b[0], a[1] - b[1], a[2] - b[2]]
}

fn dot(a: [f32; 3], b: [f32; 3]) -> f32 {
    a[0] * b[0] + a[1] * b[1] + a[2] * b[2]
}

fn cross(a: [f32; 3], b: [f32; 3]) -> [f32; 3] {
    [
        a[1] * b[2] - a[2] * b[1],
        a[2] * b[0] - a[0] * b[2],
        a[0] * b[1] - a[1] * b[0],
    ]
}

/// Whether a triangle meets a box, by separating axes.
fn triangle_box_overlap(center: [f32; 3], half: [f32; 3], tri: [[f32; 3]; 3]) -> bool {
    let v = tri.map(|p| minus(p, center));
    let edges = [minus(v[1], v[0]), minus(v[2], v[1]), minus(v[0], v[2])];
    let reach = |axis: [f32; 3]| dot(half, axis.map(f32::abs));
    for e in edges {
        for axis in [[0.0, -e[2], e[1]], [e[2], 0.0, -e[0]], [-e[1], e[0], 0.0]] {
            let p = v.map(|q| dot(q, axis));
            let low = p[0].min(p[1]).min(p[2]);
            let high = p[0].max(p[1]).max(p[2]);
            if low > reach(axis) || high < -reach(axis) {
                return false;
            }
        }
    }
    for i in 0..3 {
        if v[0][i].min(v[1][i]).min(v[2][i]) > half[i]
            || v[0][i].max(v[1][i]).max(v[2][i]) < -half[i]
        {
            return false;
        }
    }
    let normal = cross(edges[0], edges[1]);
    let apart = dot(normal, v[0]).abs() > reach(normal);
    !apart
}

fn voxelize_mesh(mesh: &Mesh, resolution: u32) -> VoxelizeResult {
    let groups: Vec<MaterialEntry> =
        (0..mesh.material_names.len() as u32).map(color_entry).collect();
    let mut low = [f32::MAX; 3];
    let mut high = [f32::MIN; 3];
    for p in &mesh.positions {
        for i in 0..3 {
            low[i] = low[i].min(p[i]);
            high[i] = high[i].max(p[i]);
        }
    }
    let extent = minus(high, low);
    let longest = extent[0].max(extent[1]).max(extent[2]);
    if mesh.positions.is_empty() || longest <= 0.0 || mesh.triangles.is_empty() {
        return voxelize(&[], &groups);
    }
    let size = longest / grid_resolution(resolution) as f32;
    let origin = low.map(|l| l - size * 0.5);
    let dims = extent.map(|e| ((e + size) / size).ceil() as i32);
    let mut hits: Vec<VoxelHit> = Vec::new();
    for (n, t) in mesh.triangles.iter().enumerate() {
        let tri = t.map(|i| minus(mesh.positions[i as usize], origin).map(|c| c / size));
        let mut first = [0i32; 3];
        let mut last = [0i32; 3];
        for i in 0..3 {
            let lo = tri[0][i].min(tri[1][i]).min(tri[2][i]) - 0.01;
            let hi = tri[0][i].max(tri[1][i]).max(tri[2][i]) + 0.01;
            first[i] = lo.floor() as i32;
            last[i] = hi.floor() as i32;
        }
        let group = mesh.triangle_materials[n] as u16;
        hits.extend(triangle_hits(first, last, dims, group, |x, y, z| {
            triangle_box_overlap([x as f32 + 0.5, y as f32 + 0.5, z as f32 + 0.5], [0.5; 3], tri)
        }));
    }
    voxelize(&hits, &groups)
}

fn make_triangle_obj(v0: [f32; 3], v1: [f32; 3], v2: [f32; 3]) -> Mesh {
    Mesh {
        positions: vec![v0, v1, v2],
        triangles: vec![[0, 1, 2]],
        triangle_materials: vec![0],
        material_names: vec!["(default)".to_string()],
    }
}

#[test]
fn voxelize_empty_mesh() {
    let parsed = Mesh {
        positions: Vec::new(),
        triangles: Vec::new(),
        triangle_materials: Vec::new(),
        material_names: vec!["(default)".to_string()],
    };
    let result = voxelize_mesh(&parsed, 62);
    assert!(result.chunks.is_empty());
}

#[test]
fn voxelize_single_triangle() {
    let parsed = make_triangle_obj(
        [0.0, 0.0, 0.0],
        [5.0, 0.0, 0.0],
        [0.0, 5.0, 0.0],
    );
    let result = voxelize_mesh(&parsed, 10);
    assert!(!result.chunks.is_empty());
    let total: u32 = result.chunks.iter().map(|c| c.occupancy.popcount()).sum();
    assert!(total > 0, "expected occupied voxels");
}

#[test]
fn voxelize_cube_mesh() {
    // Unit cube from 0 to 1
    let parsed = Mesh {
        positions: vec![
            [0.0, 0.0, 0.0], [1.0, 0.0, 0.0], [1.0, 1.0, 0.0], [0.0, 1.0, 0.0],
            [0.0, 0.0, 1.0], [1.0, 0.0, 1.0], [1.0, 1.0, 1.0], [0.0, 1.0, 1.0],
        ],
        triangles: vec![
            // Front
            [0, 1, 2], [0, 2, 3],
            // Back
            [4, 7, 6], [4, 6, 5],
            // Bottom
            [0, 4, 5], [0, 5, 1],
            // Top
            [3, 2, 6], [3, 6, 7],
            // Right
            [1, 5, 6], [1, 6, 2],
            // Left
            [0, 3, 7], [0, 7, 4],
        ],
        triangle_materials: vec![0; 12],
        material_names: vec!["(default)".to_string()],
    };
    let result = voxelize_mesh(&parsed, 10);
    let total: u32 = result.chunks.iter().map(|c| c.occupancy.popcount()).sum();
    // A 10-voxel cube surface should have many voxels
    assert!(total >= 10, "expected >= 10 surface voxels, got {total}");
}

#[test]
fn voxelize_multi_material() {
    let parsed = Mesh {
        positions: vec![
            [0.0, 0.0, 0.0], [2.0, 0.0, 0.0], [0.0, 2.0, 0.0],
            [3.0, 0.0, 0.0], [5.0, 0.0, 0.0], [3.0, 2.0, 0.0],
        ],
        triangles: vec![[0, 1, 2], [3, 4, 5]],
        triangle_materials: vec![0, 1],
        material_names: vec!["red".to_string(), "blue".to_string()],
    };
    let result = voxelize_mesh(&parsed, 10);
    assert!(!result.chunks.is_empty());
    // Material table should have entries for (default), red (id=2), blue (id=3)
    assert_ne!(
        result.materials[2].albedo_rg,
        result.materials[3].albedo_rg,
        "different materials should have different colors"
    );
}

#[test]
fn voxelize_single_chunk_bounds() {
    // Small mesh that fits in one chunk (resolution=10)
    let parsed = make_triangle_obj(
        [0.0, 0.0, 0.0],
        [1.0, 0.0, 0.0],
        [0.0, 1.0, 0.0],
    );
    let result = voxelize_mesh(&parsed, 10);
    assert_eq!(result.chunks.len(), 1, "small mesh should fit in one chunk");
}

#[test]
fn voxelize_local_coords_in_usable_range() {
    // Verify all occupied voxels are in the usable interior [1, 62]
    let parsed = make_triangle_obj(
        [0.0, 0.0, 0.0],
        [3.0, 0.0, 0.0],
        [0.0, 3.0, 0.0],
    );
    let result = voxelize_mesh(&parsed, 20);
    for chunk in &result.chunks {
        for x in 0..CS_P {
            for z in 0..CS_P {
                for y in 0..CS_P {
                    if chunk.occupancy.get(x, y, z) {
                        assert!(
                            x >= 1 && x <= CS && z >= 1 && z <= CS && y >= 1 && y <= CS,
                            "voxel at ({x},{y},{z}) is outside usable range [1,{CS}]"
                        );
                    }
                }
            }
        }
    }
}



#[test]
fn floor_div_positive() {
    assert_eq!(floor_div(7, 3), 2);
    assert_eq!(floor_div(6, 3), 2);
}

#[test]
fn floor_div_negative() {
    assert_eq!(floor_div(-1, 62), -1);
    assert_eq!(floor_div(-62, 62), -1);
    assert_eq!(floor_div(-63, 62), -2);
}

#[test]
fn euclidean_mod_positive() {
    assert_eq!(euclidean_mod(7, 3), 1);
}

#[test]
fn euclidean_mod_negative() {
    assert_eq!(euclidean_mod(-1, 62), 61);
    assert_eq!(euclidean_mod(-62, 62), 0);
    assert_eq!(euclidean_mod(-63, 62), 61);
}

#[test]
fn triangle_scan_is_clipped_and_ordered() {
    let asked = std::cell::RefCell::new(0);
    let hits = triangle_hits([-3, 1, 0], [1, 5, 1], [4, 3, 2], 9, |x, y, z| {
        *asked.borrow_mut() += 1;
        (x + y + z) % 2 == 0
    });
    let at = |x, y, z| VoxelHit { x, y, z, group: 9 };
    assert_eq!(hits, [at(1, 1, 0), at(0, 2, 0), at(0, 1, 1), at(1, 2, 1)]);
    assert_eq!(*asked.borrow(), 8);
}

#[test]
fn triangle_scan_of_nothing() {
    assert!(triangle_hits([2, 0, 0], [1, 9, 9], [10, 10, 10], 0, |_, _, _| true).is_empty());
    assert!(triangle_hits([0, 0, 0], [9, 9, 9], [10, 0, 10], 0, |_, _, _| true).is_empty());
    assert!(triangle_hits([0, 0, 0], [9, 9, 9], [10, 10, 10], 0, |_, _, _| false).is_empty());
}

#[test]
fn voxelization_is_repeatable() {
    let hit = |x, y, z, group| VoxelHit { x, y, z, group };
    let hits = [hit(70, 0, 0, 3), hit(0, 0, 0, 1), hit(1, 5, 9, 2), hit(0, 0, 0, 7), hit(-1, 0, 0, 1)];
    let groups: Vec<MaterialEntry> = (0..8).map(color_entry).collect();
    let a = voxelize(&hits, &groups);
    let b = voxelize(&hits, &groups);
    assert_eq!(a.chunks.len(), 3);
    assert_eq!(a.chunks.len(), b.chunks.len());
    for (c, d) in a.chunks.iter().zip(&b.chunks) {
        assert_eq!(c.coord, d.coord);
        assert_eq!(c.occupancy.as_words(), d.occupancy.as_words());
        assert_eq!(c.palette.as_words(), d.palette.as_words());
        assert_eq!(c.index_buf.pack(4), d.index_buf.pack(4));
    }
    assert_eq!(a.chunks[1].coord.x, 0);
    assert_eq!(a.chunks[1].palette.as_words(), [3 << 16, 4]);
}

#[test]
fn resolution_is_at_least_one() {
    assert_eq!(grid_resolution(0), 1);
    assert_eq!(grid_resolution(1), 1);
    assert_eq!(grid_resolution(62), 62);
    let mesh = make_triangle_obj([0.0, 0.0, 0.0], [4.0, 0.0, 0.0], [0.0, 4.0, 0.0]);
    let a = voxelize_mesh(&mesh, 0);
    let b = voxelize_mesh(&mesh, 1);
    assert_eq!(a.chunks.len(), b.chunks.len());
    assert_eq!(a.chunks[0].occupancy.as_words(), b.chunks[0].occupancy.as_words());
}
