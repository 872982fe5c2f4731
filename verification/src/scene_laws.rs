//! What the procedural scenes look like, voxel by voxel and in materials.

use vstd::prelude::*;

use crate::materials;
use crate::materials::MaterialEntry;
use crate::occupancy;
use crate::pool::{MATERIAL_DEFAULT, MATERIAL_EMPTY, MAX_PALETTE_ENTRIES};
use crate::scene;
use crate::scene::{
    ChunkData, MAT_BLUE, MAT_EMISSIVE, MAT_GOLD, MAT_GREEN, MAT_LIGHT, MAT_RED, MAT_ROUGH_GRAY,
    MAT_STONE, MAT_WHITE,
};

verus! {

/// Whether a coordinate lies in the usable interior of a chunk: not in the layer of
/// padding at either end.
pub open spec fn usable(a: int) -> bool {
    1 <= a <= 62
}

/// The room is a closed shell of stone, one voxel thick, round the usable interior.
pub proof fn room_is_a_stone_shell(c: ChunkData, x: int, y: int, z: int)
    requires
        scene::is_room(c),
        occupancy::in_chunk(x, y, z),
    ensures
        usable(x) && usable(y) && usable(z) && !(usable(x - 1) && usable(x + 1) && usable(y - 1)
            && usable(y + 1) && usable(z - 1) && usable(z + 1)) ==> c.material_at(x, y, z) == Some(
            MAT_STONE,
        ),
        usable(x - 1) && usable(x + 1) && usable(y - 1) && usable(y + 1) && usable(z - 1)
            && usable(z + 1) ==> c.material_at(x, y, z) is None,
        !(usable(x) && usable(y) && usable(z)) ==> c.material_at(x, y, z) is None,
{
    assert(c.occupancy.has(x, y, z) == (scene::room_at(x, y, z) is Some));
}

/// A sphere holds the usable voxels whose distance from the centre is at most the
/// radius, all blue, and nothing else.
pub proof fn sphere_holds_what_is_near(
    c: ChunkData,
    cx: int,
    cy: int,
    cz: int,
    radius: int,
    x: int,
    y: int,
    z: int,
)
    requires
        scene::is_sphere(c, cx, cy, cz, radius),
        occupancy::in_chunk(x, y, z),
    ensures
        c.material_at(x, y, z) == (if usable(x) && usable(y) && usable(z) && (x - cx) * (x - cx) + (y
            - cy) * (y - cy) + (z - cz) * (z - cz) <= radius * radius {
            Some(MAT_BLUE)
        } else {
            None
        }),
{
    assert(c.occupancy.has(x, y, z) == (scene::sphere_at(cx, cy, cz, radius, x, y, z) is Some));
}

/// Whether a voxel is one of the eight of the cluster at a corner.
pub open spec fn in_cube_of_two(bx: int, by: int, bz: int, x: int, y: int, z: int) -> bool {
    0 <= x - bx < 2 && 0 <= y - by < 2 && 0 <= z - bz < 2
}

/// The emissive chunk holds three clusters of two voxels a side, and nothing else.
pub proof fn clusters_are_three_small_cubes(c: ChunkData, x: int, y: int, z: int)
    requires
        scene::is_clusters(c),
        occupancy::in_chunk(x, y, z),
    ensures
        c.material_at(x, y, z) == (if in_cube_of_two(10, 8, 10, x, y, z) || in_cube_of_two(
            50,
            15,
            30,
            x,
            y,
            z,
        ) || in_cube_of_two(30, 10, 50, x, y, z) {
            Some(MAT_EMISSIVE)
        } else {
            None
        }),
{
    assert(c.occupancy.has(x, y, z) == (scene::clusters_at(x, y, z) is Some));
}

/// In the test scene a voxel has the material that its generator gives it: that of
/// the clusters, else that of the sphere, else that of the room.
pub proof fn test_scene_layers_its_parts(
    c: ChunkData,
    room: ChunkData,
    sphere: ChunkData,
    clusters: ChunkData,
    x: int,
    y: int,
    z: int,
)
    requires
        scene::is_test_scene(c),
        scene::is_room(room),
        scene::is_sphere(sphere, 32, 25, 32, 12),
        scene::is_clusters(clusters),
        occupancy::in_chunk(x, y, z),
    ensures
        c.material_at(x, y, z) == (if clusters.material_at(x, y, z) is Some {
            clusters.material_at(x, y, z)
        } else if sphere.material_at(x, y, z) is Some {
            sphere.material_at(x, y, z)
        } else {
            room.material_at(x, y, z)
        }),
{
    assert(c.occupancy.has(x, y, z) == (scene::test_scene_at(x, y, z) is Some));
    assert(room.occupancy.has(x, y, z) == (scene::room_at(x, y, z) is Some));
    assert(sphere.occupancy.has(x, y, z) == (scene::sphere_at(32, 25, 32, 12, x, y, z) is Some));
    assert(clusters.occupancy.has(x, y, z) == (scene::clusters_at(x, y, z) is Some));
}

/// In the test scene the clusters glow, the rest of the sphere is blue, and the rest
/// of the room is stone.
pub proof fn test_scene_materials_are_right(c: ChunkData, x: int, y: int, z: int)
    requires
        scene::is_test_scene(c),
        occupancy::in_chunk(x, y, z),
    ensures
        ({
            let glows = in_cube_of_two(10, 8, 10, x, y, z) || in_cube_of_two(50, 15, 30, x, y, z)
                || in_cube_of_two(30, 10, 50, x, y, z);
            let in_ball = (x - 32) * (x - 32) + (y - 25) * (y - 25) + (z - 32) * (z - 32) <= 144;
            let inside = usable(x) && usable(y) && usable(z);
            let walls = inside && (x == 1 || x == 62 || y == 1 || y == 62 || z == 1 || z == 62);
            &&& glows ==> c.material_at(x, y, z) == Some(MAT_EMISSIVE)
            &&& inside && in_ball && !glows ==> c.material_at(x, y, z) == Some(MAT_BLUE)
            &&& walls && !in_ball && !glows ==> c.material_at(x, y, z) == Some(MAT_STONE)
            &&& !walls && !in_ball && !glows ==> c.material_at(x, y, z) is None
            &&& !inside ==> c.material_at(x, y, z) is None
        }),
{
    assert(c.occupancy.has(x, y, z) == (scene::test_scene_at(x, y, z) is Some));
}

/// The Cornell box, voxel by voxel: a red left and a green right wall, white back
/// wall, floor and ceiling, a lamp in the ceiling, a tall golden box and a short rough
/// cube on the floor; the front is open and the rest is empty.
pub proof fn cornell_box_materials_are_right(c: ChunkData, x: int, y: int, z: int)
    requires
        scene::is_cornell_box(c),
        occupancy::in_chunk(x, y, z),
    ensures
        ({
            let inside = usable(x) && usable(y) && usable(z);
            let lamp = y == 62 && 22 <= x < 43 && 22 <= z < 43;
            let tall = 12 <= x < 27 && 2 <= y < 36 && 15 <= z < 30;
            let short = 36 <= x < 51 && 2 <= y < 19 && 32 <= z < 47;
            let m = c.material_at(x, y, z);
            &&& inside && z == 1 ==> m == Some(MAT_WHITE)
            &&& inside && z != 1 && x == 1 ==> m == Some(MAT_RED)
            &&& inside && z != 1 && x == 62 ==> m == Some(MAT_GREEN)
            &&& inside && z != 1 && x != 1 && x != 62 && (y == 1 || (y == 62 && !lamp)) ==> m
                == Some(MAT_WHITE)
            &&& lamp ==> m == Some(MAT_LIGHT)
            &&& tall ==> m == Some(MAT_GOLD)
            &&& short ==> m == Some(MAT_ROUGH_GRAY)
            &&& inside && 1 < x < 62 && 1 < y < 62 && z > 1 && !tall && !short ==> m is None
            &&& !inside ==> m is None
        }),
{
    assert(c.occupancy.has(x, y, z) == (scene::cornell_at(x, y, z) is Some));
}

/// The materials of the scenes have ids of their own, in sequence behind the empty
/// and the default material.
pub proof fn scene_materials_are_distinct()
    ensures
        MATERIAL_EMPTY == 0 && MATERIAL_DEFAULT == 1,
        MAT_STONE == 2 && MAT_BLUE == 3 && MAT_EMISSIVE == 4,
        MAT_WHITE == 5 && MAT_RED == 6 && MAT_GREEN == 7 && MAT_LIGHT == 8,
        MAT_GOLD == 9 && MAT_ROUGH_GRAY == 10,
{
}

/// Adding a material keeps the entries that a palette has and their places; the
/// material is in it afterwards unless the palette was full; and nothing else is new.
pub proof fn adding_keeps_the_palette(p: Seq<u16>, m: u16)
    requires
        1 <= p.len() <= MAX_PALETTE_ENTRIES,
        p.no_duplicates(),
    ensures
        ({
            let q = scene::palette_after_add(p, m);
            &&& q.no_duplicates()
            &&& p.len() <= q.len() <= p.len() + 1
            &&& q.take(p.len() as int) == p
            &&& p.contains(m) ==> q == p
            &&& !p.contains(m) && p.len() < 16 ==> q.len() == p.len() + 1 && q.last() == m
            &&& p.len() == 16 ==> q == p
        }),
{
    let q = scene::palette_after_add(p, m);
    assert(q.take(p.len() as int) =~= p);
}

/// The field width is the smallest that holds every index: half of it does not.
pub proof fn width_is_smallest(palette_size: int)
    requires
        0 <= palette_size <= 256,
    ensures
        ({
            let w = scene::bpe_for(palette_size);
            &&& w == 1 || w == 2 || w == 4 || w == 8
            &&& w == 1 <==> palette_size <= 2
            &&& w > 1 ==> palette_size > (1u32 << ((w / 2) as u32))
            &&& palette_size <= (1u32 << (w as u32))
        }),
{
    assert(1u32 << 1 == 2 && 1u32 << 2 == 4 && 1u32 << 4 == 16 && 1u32 << 8 == 256) by (
    bit_vector);
}

/// The entry that a scene's table has for a voxel, if there is a voxel.
pub open spec fn looks_of(
    chunks: Seq<ChunkData>,
    table: Seq<MaterialEntry>,
    x: int,
    y: int,
    z: int,
) -> Option<MaterialEntry> {
    match chunks[0].material_at(x, y, z) {
        Some(m) => Some(table[m as int]),
        None => None,
    }
}

/// How the test scene looks: clusters glow in yellow, the rest of the sphere is blue,
/// and the rest of the room is of a rough gray. Parts of colors are in thousandths.
pub proof fn test_scene_looks_right(
    chunks: Seq<ChunkData>,
    table: Seq<MaterialEntry>,
    x: int,
    y: int,
    z: int,
)
    requires
        scene::is_whole_test_scene(chunks, table),
        occupancy::in_chunk(x, y, z),
    ensures
        ({
            let glows = in_cube_of_two(10, 8, 10, x, y, z) || in_cube_of_two(50, 15, 30, x, y, z)
                || in_cube_of_two(30, 10, 50, x, y, z);
            let in_ball = usable(x) && usable(y) && usable(z) && (x - 32) * (x - 32) + (y - 25) * (y
                - 25) + (z - 32) * (z - 32) <= 144;
            let walls = usable(x) && usable(y) && usable(z) && (x == 1 || x == 62 || y == 1 || y
                == 62 || z == 1 || z == 62);
            let m = looks_of(chunks, table, x, y, z);
            &&& glows ==> m is Some && materials::looks_like(
                m->Some_0,
                1000,
                900,
                300,
                200,
                2000,
                1800,
                500,
            )
            &&& in_ball && !glows ==> m is Some && materials::looks_like(
                m->Some_0,
                200,
                350,
                700,
                400,
                0,
                0,
                0,
            )
            &&& walls && !in_ball && !glows ==> m is Some && materials::looks_like(
                m->Some_0,
                450,
                430,
                400,
                800,
                0,
                0,
                0,
            )
            &&& !walls && !in_ball && !glows ==> m is None
        }),
{
    test_scene_materials_are_right(chunks[0], x, y, z);
    materials::test_scene_table_looks_right(0);
}

/// How the Cornell box looks: white, red, green, golden and gray in their places, and a
/// lamp that alone emits light.
pub proof fn cornell_box_looks_right(
    chunks: Seq<ChunkData>,
    table: Seq<MaterialEntry>,
    x: int,
    y: int,
    z: int,
)
    requires
        scene::is_whole_cornell_box(chunks, table),
        occupancy::in_chunk(x, y, z),
    ensures
        ({
            let c = chunks[0];
            let m = looks_of(chunks, table, x, y, z);
            let id = c.material_at(x, y, z);
            &&& m is Some <==> id is Some
            &&& id == Some(MAT_WHITE) ==> materials::looks_like(
                m->Some_0,
                730,
                730,
                730,
                900,
                0,
                0,
                0,
            )
            &&& id == Some(MAT_RED) ==> materials::looks_like(m->Some_0, 650, 50, 50, 900, 0, 0, 0)
            &&& id == Some(MAT_GREEN) ==> materials::looks_like(
                m->Some_0,
                120,
                450,
                150,
                900,
                0,
                0,
                0,
            )
            &&& y == 62 && 22 <= x < 43 && 22 <= z < 43 ==> m is Some && materials::looks_like(
                m->Some_0,
                1000,
                1000,
                1000,
                100,
                8000,
                7000,
                5000,
            )
            &&& id == Some(MAT_GOLD) ==> materials::looks_like(
                m->Some_0,
                830,
                690,
                220,
                150,
                0,
                0,
                0,
            )
            &&& id == Some(MAT_ROUGH_GRAY) ==> materials::looks_like(
                m->Some_0,
                400,
                400,
                400,
                950,
                0,
                0,
                0,
            )
        }),
{
    cornell_box_materials_are_right(chunks[0], x, y, z);
    materials::cornell_table_looks_right(0);
}

} // verus!
