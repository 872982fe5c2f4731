//! The voxels that a triangle touches.

use vstd::prelude::*;

use crate::voxelizer_cpu::VoxelHit;

verus! {

/// A voxel of a box that lies in a grid: between the corners of the box, and
/// not outside the grid.
pub open spec fn in_clipped_box(
    low: Seq<i32>,
    high: Seq<i32>,
    dims: Seq<i32>,
    x: int,
    y: int,
    z: int,
) -> bool {
    &&& low[0] <= x <= high[0] && 0 <= x < dims[0]
    &&& low[1] <= y <= high[1] && 0 <= y < dims[1]
    &&& low[2] <= z <= high[2] && 0 <= z < dims[2]
}

/// Voxels are visited by z, then by y, then by x.
pub open spec fn visited_before(h: VoxelHit, x: int, y: int, z: int) -> bool {
    h.z < z || (h.z == z && (h.y < y || (h.y == y && h.x < x)))
}

/// Whether a list holds a hit on a voxel.
pub open spec fn has_hit(hits: Seq<VoxelHit>, x: int, y: int, z: int) -> bool {
    exists|i: int|
        0 <= i < hits.len() && (#[trigger] hits[i]).x == x && hits[i].y == y && hits[i].z == z
}

/// The hits are among the voxels of a box before a place, in the order of the
/// visit, and each of these voxels was asked about.
spec fn are_hits_before<F: Fn(i32, i32, i32) -> bool>(
    hits: Seq<VoxelHit>,
    low: Seq<i32>,
    high: Seq<i32>,
    dims: Seq<i32>,
    group: u16,
    overlaps: F,
    x: i32,
    y: i32,
    z: i32,
) -> bool {
    &&& forall|i: int|
        0 <= i < hits.len() ==> {
            let h = #[trigger] hits[i];
            &&& in_clipped_box(low, high, dims, h.x as int, h.y as int, h.z as int)
            &&& visited_before(h, x as int, y as int, z as int)
            &&& h.group == group
            &&& call_ensures(overlaps, (h.x, h.y, h.z), true)
        }
    &&& forall|i: int, j: int|
        0 <= i < j < hits.len() ==> visited_before(
            #[trigger] hits[i],
            (#[trigger] hits[j]).x as int,
            hits[j].y as int,
            hits[j].z as int,
        )
    &&& forall|a: i32, b: i32, c: i32|
        in_clipped_box(low, high, dims, a as int, b as int, c as int) && visited_before(
            VoxelHit { x: a, y: b, z: c, group },
            x as int,
            y as int,
            z as int,
        ) ==> #[trigger] has_hit(hits, a as int, b as int, c as int) || call_ensures(
            overlaps,
            (a, b, c),
            false,
        )
}

/// The hits of a triangle: the voxels of its bounding box, as far as they lie
/// in the grid, that a test says it overlaps.
pub open spec fn are_triangle_hits<F: Fn(i32, i32, i32) -> bool>(
    hits: Seq<VoxelHit>,
    low: Seq<i32>,
    high: Seq<i32>,
    dims: Seq<i32>,
    group: u16,
    overlaps: F,
) -> bool {
    &&& forall|i: int|
        0 <= i < hits.len() ==> {
            let h = #[trigger] hits[i];
            &&& in_clipped_box(low, high, dims, h.x as int, h.y as int, h.z as int)
            &&& h.group == group
            &&& call_ensures(overlaps, (h.x, h.y, h.z), true)
        }
    &&& forall|i: int, j: int|
        0 <= i < j < hits.len() ==> visited_before(
            #[trigger] hits[i],
            (#[trigger] hits[j]).x as int,
            hits[j].y as int,
            hits[j].z as int,
        )
    &&& forall|a: i32, b: i32, c: i32|
        in_clipped_box(low, high, dims, a as int, b as int, c as int) ==> #[trigger] has_hit(
            hits,
            a as int,
            b as int,
            c as int,
        ) || call_ensures(overlaps, (a, b, c), false)
}

proof fn lemma_hit_kept(hits: Seq<VoxelHit>, h: VoxelHit)
    ensures
        forall|a: int, b: int, c: int|
            has_hit(hits, a, b, c) ==> #[trigger] has_hit(hits.push(h), a, b, c),
        has_hit(hits.push(h), h.x as int, h.y as int, h.z as int),
{
    assert forall|a: int, b: int, c: int| has_hit(hits, a, b, c) implies #[trigger] has_hit(
        hits.push(h),
        a,
        b,
        c,
    ) by {
        let i = choose|i: int|
            0 <= i < hits.len() && (#[trigger] hits[i]).x == a && hits[i].y == b && hits[i].z == c;
        assert(hits.push(h)[i] == hits[i]);
    }
    assert(hits.push(h)[hits.len() as int] == h);
}

/// The box that is left of a bounding box in a grid.
spec fn clipped(
    low: Seq<i32>,
    high: Seq<i32>,
    dims: Seq<i32>,
    lx: i32,
    ly: i32,
    lz: i32,
    hx: i32,
    hy: i32,
    hz: i32,
) -> bool {
    &&& forall|x: int, y: int, z: int| #[trigger]
        in_clipped_box(low, high, dims, x, y, z) <==> lx <= x <= hx && ly <= y <= hy && lz <= z
            <= hz
    &&& hx < i32::MAX && hy < i32::MAX && hz < i32::MAX
}

/// The test can be asked about every voxel of the box.
spec fn may_ask<F: Fn(i32, i32, i32) -> bool>(
    low: Seq<i32>,
    high: Seq<i32>,
    dims: Seq<i32>,
    overlaps: F,
) -> bool {
    forall|x: i32, y: i32, z: i32|
        in_clipped_box(low, high, dims, x as int, y as int, z as int) ==> #[trigger] call_requires(
            overlaps,
            (x, y, z),
        )
}

/// Find the grid voxels that a triangle touches: ask about each voxel of its
/// bounding box, clipped to the grid.
pub fn triangle_hits<F: Fn(i32, i32, i32) -> bool>(
    low: [i32; 3],
    high: [i32; 3],
    dims: [i32; 3],
    group: u16,
    overlaps: F,
) -> (hits: Vec<VoxelHit>)
    requires
        dims[0] > i32::MIN && dims[1] > i32::MIN && dims[2] > i32::MIN,
        forall|x: i32, y: i32, z: i32|
            in_clipped_box(low@, high@, dims@, x as int, y as int, z as int)
                ==> #[trigger] call_requires(overlaps, (x, y, z)),
    ensures
        are_triangle_hits(hits@, low@, high@, dims@, group, overlaps),
{
    let lx: i32 = if low[0] > 0 { low[0] } else { 0 };
    let ly: i32 = if low[1] > 0 { low[1] } else { 0 };
    let lz: i32 = if low[2] > 0 { low[2] } else { 0 };
    let hx: i32 = if high[0] < dims[0] - 1 { high[0] } else { dims[0] - 1 };
    let hy: i32 = if high[1] < dims[1] - 1 { high[1] } else { dims[1] - 1 };
    let hz: i32 = if high[2] < dims[2] - 1 { high[2] } else { dims[2] - 1 };
    let mut hits: Vec<VoxelHit> = Vec::new();
    let mut z: i32 = lz;
    while z <= hz
        invariant
            clipped(low@, high@, dims@, lx, ly, lz, hx, hy, hz),
            lz <= z,
            may_ask(low@, high@, dims@, overlaps),
            are_hits_before(hits@, low@, high@, dims@, group, overlaps, lx, ly, z),
        decreases hz + 1 - z,
    {
        let mut y: i32 = ly;
        while y <= hy
            invariant
                clipped(low@, high@, dims@, lx, ly, lz, hx, hy, hz),
                lz <= z <= hz,
                ly <= y,
                may_ask(low@, high@, dims@, overlaps),
                are_hits_before(hits@, low@, high@, dims@, group, overlaps, lx, y, z),
            decreases hy + 1 - y,
        {
            let mut x: i32 = lx;
            while x <= hx
                invariant
                    clipped(low@, high@, dims@, lx, ly, lz, hx, hy, hz),
                    lz <= z <= hz,
                    ly <= y <= hy,
                    lx <= x,
                    may_ask(low@, high@, dims@, overlaps),
                    are_hits_before(hits@, low@, high@, dims@, group, overlaps, x, y, z),
                decreases hx + 1 - x,
            {
                let ghost before = hits@;
                assert(in_clipped_box(low@, high@, dims@, x as int, y as int, z as int));
                assert(call_requires(overlaps, (x, y, z)));
                if overlaps(x, y, z) {
                    let h = VoxelHit { x, y, z, group };
                    hits.push(h);
                    proof {
                        lemma_hit_kept(before, h);
                    }
                }
                x = x + 1;
            }
            y = y + 1;
        }
        z = z + 1;
    }
    hits
}

/// Hits stay in the box and in the grid, and carry the triangle's group.
pub proof fn hits_stay_in_box_and_grid<F: Fn(i32, i32, i32) -> bool>(
    hits: Seq<VoxelHit>,
    low: Seq<i32>,
    high: Seq<i32>,
    dims: Seq<i32>,
    group: u16,
    overlaps: F,
    i: int,
)
    requires
        are_triangle_hits(hits, low, high, dims, group, overlaps),
        0 <= i < hits.len(),
    ensures
        ({
            let h = hits[i];
            &&& 0 <= h.x < dims[0] && 0 <= h.y < dims[1] && 0 <= h.z < dims[2]
            &&& low[0] <= h.x <= high[0] && low[1] <= h.y <= high[1] && low[2] <= h.z <= high[2]
            &&& h.group == group
        }),
{
}

/// A voxel of the box and the grid that the test never denies is hit.
pub proof fn overlapped_voxels_are_hit<F: Fn(i32, i32, i32) -> bool>(
    hits: Seq<VoxelHit>,
    low: Seq<i32>,
    high: Seq<i32>,
    dims: Seq<i32>,
    group: u16,
    overlaps: F,
    x: i32,
    y: i32,
    z: i32,
) -> (i: int)
    requires
        are_triangle_hits(hits, low, high, dims, group, overlaps),
        0 <= x < dims[0] && 0 <= y < dims[1] && 0 <= z < dims[2],
        low[0] <= x <= high[0] && low[1] <= y <= high[1] && low[2] <= z <= high[2],
        !call_ensures(overlaps, (x, y, z), false),
    ensures
        0 <= i < hits.len(),
        hits[i] == (VoxelHit { x, y, z, group }),
{
    assert(has_hit(hits, x as int, y as int, z as int));
    choose|i: int|
        0 <= i < hits.len() && (#[trigger] hits[i]).x == x && hits[i].y == y && hits[i].z == z
}

/// Hits come by z, then y, then x, and none comes twice.
pub proof fn hits_come_in_order<F: Fn(i32, i32, i32) -> bool>(
    hits: Seq<VoxelHit>,
    low: Seq<i32>,
    high: Seq<i32>,
    dims: Seq<i32>,
    group: u16,
    overlaps: F,
    i: int,
    j: int,
)
    requires
        are_triangle_hits(hits, low, high, dims, group, overlaps),
        0 <= i < j < hits.len(),
    ensures
        hits[i].z <= hits[j].z,
        hits[i].z == hits[j].z ==> hits[i].y <= hits[j].y,
        hits[i].z == hits[j].z && hits[i].y == hits[j].y ==> hits[i].x < hits[j].x,
{
    assert(visited_before(hits[i], hits[j].x as int, hits[j].y as int, hits[j].z as int));
}

} // verus!
