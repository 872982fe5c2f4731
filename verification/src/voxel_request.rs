//! Voxelization requests: which faces are voxelized, when the CPU steps in for
//! the GPU, and what is done with the result.

use vstd::prelude::*;

use crate::sparse;
use crate::sparse::{Dims, Sparse};

verus! {

/// Dense buffers larger than this are not allocated.
pub const MAX_FALLBACK_BYTES: u64 = 536_870_912;

/// Bytes of a mebibyte.
pub const MIB: u64 = 1_048_576;

/// What a request asks for.
#[derive(Debug, Clone, Copy, PartialEq, Eq, Structural)]
pub enum RequestKind {
    /// The sparse grid.
    Sparse,
    /// The positions of all voxels.
    Positions,
    /// The numbers and attributes of all voxels.
    Attributes,
    /// The positions of all voxels, in chunks.
    PositionsChunked,
    /// The sparse grid, in chunks.
    Chunked,
}

/// Why a request fails.
#[derive(Debug, Clone, Copy, PartialEq, Eq, Structural)]
pub enum RequestError {
    /// Origin or dimensions do not have three numbers.
    BadGrid,
    /// The CPU would have to step in, but its buffers would be too large.
    FallbackTooLarge { estimated_mb: u64, limit_mb: u64 },
    /// The voxelizer gave no owners.
    OwnerMissing,
    /// The voxelizer gave no colors.
    ColorMissing,
}

/// A request.
#[derive(Debug, Clone, Copy)]
pub struct Request {
    pub kind: RequestKind,
    /// Triangles a chunk; for sparse chunks 0 leaves it to the voxelizer.
    pub chunk_size: u32,
    /// Most positions or entries that are wanted.
    pub max_entries: u32,
}

/// What to do next with a request.
#[derive(Debug, Clone, Copy, PartialEq, Eq, Structural)]
pub enum Step {
    /// Voxelize on the GPU, in chunks of so many triangles where it says so.
    VoxelizeOnGpu { chunk_size: Option<u32> },
    /// Voxelize on the CPU.
    VoxelizeOnCpu,
    /// List the positions of each chunk's voxels, up to a limit.
    ListPositions { limit: u32 },
    /// List the attributes of the grid's voxels, up to a limit.
    ListAttributes { limit: u32 },
    /// Hand out the grid.
    HandOut,
    /// Hand out an empty list.
    HandOutNothing,
    /// Fail.
    Fail(RequestError),
}

/// At least one.
pub open spec fn at_least_one(n: u32) -> u32 {
    if n == 0 {
        1
    } else {
        n
    }
}

fn or_one(n: u32) -> (r: u32)
    ensures
        r == at_least_one(n),
{
    if n == 0 {
        1
    } else {
        n
    }
}

/// The dimensions of a grid.
pub fn grid_dims(origin_len: usize, dims: &[u32]) -> (r: Result<Dims, RequestError>)
    ensures
        r == (if origin_len < 3 || dims@.len() < 3 {
            Err(RequestError::BadGrid)
        } else {
            Ok(Dims { x: dims@[0], y: dims@[1], z: dims@[2] })
        }),
{
    if origin_len < 3 || dims.len() < 3 {
        return Err(RequestError::BadGrid);
    }
    Ok(Dims { x: dims[0], y: dims[1], z: dims[2] })
}

/// A face: the numbers of its three vertices.
#[derive(Debug, Clone, Copy, PartialEq, Eq, Structural)]
pub struct Face {
    pub a: u32,
    pub b: u32,
    pub c: u32,
}

/// Whether a face is voxelized: the coordinates of its last vertex are there.
pub open spec fn is_voxelized(c: u32, coordinates: int) -> bool {
    3 * c + 2 < coordinates
}

/// The voxelized faces among the first `n` triples of a list of vertex numbers.
pub open spec fn faces_of(indices: Seq<u32>, coordinates: int, n: nat) -> Seq<Face>
    decreases n,
{
    if n == 0 {
        Seq::empty()
    } else {
        let before = faces_of(indices, coordinates, (n - 1) as nat);
        let at = 3 * (n - 1);
        if is_voxelized(indices[at + 2], coordinates) {
            before.push(Face { a: indices[at], b: indices[at + 1], c: indices[at + 2] })
        } else {
            before
        }
    }
}

/// Select the faces to voxelize: whole triples whose last vertex has its three
/// coordinates.
pub fn select_faces(indices: &[u32], coordinates: usize) -> (faces: Vec<Face>)
    ensures
        faces@ == faces_of(indices@, coordinates as int, indices@.len() / 3),
{
    let mut faces: Vec<Face> = Vec::new();
    let mut i: usize = 0;
    let count: usize = indices.len() / 3;
    while i < count
        invariant
            i <= count,
            count == indices@.len() / 3,
            faces@ == faces_of(indices@, coordinates as int, i as nat),
        decreases count - i,
    {
        assert(3 * i + 2 < indices.len());
        let a: u32 = indices[3 * i];
        let b: u32 = indices[3 * i + 1];
        let c: u32 = indices[3 * i + 2];
        let last: u64 = c as u64 * 3 + 2;
        if last < coordinates as u64 {
            faces.push(Face { a, b, c });
        }
        i = i + 1;
    }
    faces
}

/// Every selected face is a triple of the list, and its last vertex has its
/// coordinates.
pub proof fn faces_are_triples(indices: Seq<u32>, coordinates: int, n: nat, i: int)
    requires
        3 * n <= indices.len(),
        0 <= i < faces_of(indices, coordinates, n).len(),
    ensures
        ({
            let f = faces_of(indices, coordinates, n)[i];
            &&& is_voxelized(f.c, coordinates)
            &&& exists|k: int|
                i <= k < n && f == (Face {
                    a: indices[3 * k],
                    b: indices[3 * k + 1],
                    c: #[trigger] indices[3 * k + 2],
                })
        }),
    decreases n,
{
    if n > 0 {
        let m = (n - 1) as nat;
        let before = faces_of(indices, coordinates, m);
        lemma_face_count(indices, coordinates, m);
        if i < before.len() {
            faces_are_triples(indices, coordinates, m, i);
            let k = choose|k: int|
                i <= k < m && before[i] == (Face {
                    a: indices[3 * k],
                    b: indices[3 * k + 1],
                    c: #[trigger] indices[3 * k + 2],
                });
            assert(before[i] == faces_of(indices, coordinates, n)[i]);
            assert(i <= k < n && indices[3 * k + 2] == before[i].c);
        } else {
            assert(indices[3 * (n - 1) + 2] == faces_of(indices, coordinates, n)[i].c);
        }
    }
}

proof fn lemma_face_count(indices: Seq<u32>, coordinates: int, n: nat)
    ensures
        faces_of(indices, coordinates, n).len() <= n,
    decreases n,
{
    if n > 0 {
        lemma_face_count(indices, coordinates, (n - 1) as nat);
    }
}

/// Bytes of the buffers of a dense grid, as far as a `u64` counts: a bit a
/// voxel in whole words, and a word a voxel for each attribute.
pub open spec fn dense_bytes(dims: Dims, store_owner: bool, store_color: bool) -> int {
    let n = dims.x * dims.y * dims.z;
    let total = (n + 31) / 32 * 4 + (if store_owner {
        4 * n
    } else {
        0
    }) + (if store_color {
        4 * n
    } else {
        0
    });
    if total > u64::MAX {
        u64::MAX as int
    } else {
        total
    }
}

/// Estimate the bytes of the buffers of a dense grid.
pub fn estimate_dense_bytes(dims: Dims, store_owner: bool, store_color: bool) -> (n: u64)
    requires
        dims.x * dims.y * dims.z + 31 <= u64::MAX,
    ensures
        n == dense_bytes(dims, store_owner, store_color),
{
    proof {
        lemma_volume(dims);
    }
    let voxels: u64 = dims.x as u64 * dims.y as u64 * dims.z as u64;
    let words: u64 = (voxels + 31) / 32;
    let mut total: u128 = words as u128 * 4;
    if store_owner {
        total = total + voxels as u128 * 4;
    }
    if store_color {
        total = total + voxels as u128 * 4;
    }
    if total > u64::MAX as u128 {
        u64::MAX
    } else {
        total as u64
    }
}

proof fn lemma_volume(dims: Dims)
    ensures
        0 <= dims.x * dims.y <= u64::MAX,
        0 <= dims.x * dims.y * dims.z,
{
    assert(0 <= dims.x * dims.y <= u64::MAX) by (nonlinear_arith)
        requires
            0 <= dims.x <= u32::MAX,
            0 <= dims.y <= u32::MAX,
    ;
    assert(0 <= dims.x * dims.y * dims.z) by (nonlinear_arith)
        requires
            0 <= dims.x * dims.y,
            0 <= dims.z,
    ;
}

/// Whether a grid has any occupied voxel.
pub open spec fn is_occupied(s: Sparse) -> bool {
    sparse::any_set(s.occupancy@)
}

/// Whether any of some grids has an occupied voxel.
pub open spec fn any_occupied(chunks: Seq<Sparse>) -> bool {
    exists|i: int| 0 <= i < chunks.len() && is_occupied(#[trigger] chunks[i])
}

/// Whether any of some grids has an occupied voxel.
pub fn has_voxels(chunks: &[Sparse]) -> (any: bool)
    ensures
        any == any_occupied(chunks@),
{
    let mut i: usize = 0;
    while i < chunks.len()
        invariant
            i <= chunks@.len(),
            forall|k: int| 0 <= k < i ==> !is_occupied(#[trigger] chunks@[k]),
        decreases chunks@.len() - i,
    {
        if words_any(&chunks[i].occupancy) {
            assert(is_occupied(chunks@[i as int]));
            return true;
        }
        i = i + 1;
    }
    false
}

fn words_any(words: &Vec<u32>) -> (any: bool)
    ensures
        any == sparse::any_set(words@),
{
    let mut i: usize = 0;
    while i < words.len()
        invariant
            i <= words@.len(),
            forall|k: int| 0 <= k < i ==> words@[k] == 0,
        decreases words@.len() - i,
    {
        if words[i] != 0 {
            return true;
        }
        i = i + 1;
    }
    false
}

/// The first step of a request on a grid that is well-formed.
pub open spec fn first_step(r: Request) -> Step {
    Step::VoxelizeOnGpu {
        chunk_size: match r.kind {
            RequestKind::PositionsChunked => Some(at_least_one(r.chunk_size)),
            RequestKind::Chunked => Some(r.chunk_size),
            _ => None,
        },
    }
}

/// Begin a request.
pub fn begin(r: &Request) -> (s: Step)
    ensures
        s == first_step(*r),
{
    let chunk_size: Option<u32> = match r.kind {
        RequestKind::PositionsChunked => Some(or_one(r.chunk_size)),
        RequestKind::Chunked => Some(r.chunk_size),
        _ => None,
    };
    Step::VoxelizeOnGpu { chunk_size }
}

/// The step that follows a finished grid.
pub open spec fn step_with_grid(r: Request, chunks: Seq<Sparse>) -> Step {
    match r.kind {
        RequestKind::Sparse => Step::HandOut,
        RequestKind::Chunked => Step::HandOut,
        RequestKind::Positions => Step::ListPositions { limit: at_least_one(r.max_entries) },
        RequestKind::PositionsChunked => Step::ListPositions {
            limit: at_least_one((r.max_entries as int / chunks.len() as int) as u32),
        },
        RequestKind::Attributes => if chunks[0].owner_id is None {
            Step::Fail(RequestError::OwnerMissing)
        } else if chunks[0].color_rgba is None {
            Step::Fail(RequestError::ColorMissing)
        } else {
            Step::ListAttributes { limit: at_least_one(r.max_entries) }
        },
    }
}

/// Whether what follows a finished grid depends on its chunks.
pub open spec fn reads_chunks(kind: RequestKind) -> bool {
    kind == RequestKind::PositionsChunked || kind == RequestKind::Attributes
}

/// Go on with a finished grid: from the GPU, or from the CPU in its stead.
///
/// Positions are listed chunk by chunk; each chunk has an equal share of the
/// limit, and at least one.
pub fn go_on_with_grid(r: &Request, chunks: &[Sparse]) -> (s: Step)
    requires
        chunks@.len() >= 1 || !reads_chunks(r.kind),
        r.kind == RequestKind::PositionsChunked ==> chunks@.len() <= u32::MAX,
    ensures
        s == step_with_grid(*r, chunks@),
{
    match r.kind {
        RequestKind::Sparse => Step::HandOut,
        RequestKind::Chunked => Step::HandOut,
        RequestKind::Positions => Step::ListPositions { limit: or_one(r.max_entries) },
        RequestKind::PositionsChunked => {
            let share: u32 = r.max_entries / chunks.len() as u32;
            Step::ListPositions { limit: or_one(share) }
        },
        RequestKind::Attributes => {
            if chunks[0].owner_id.is_none() {
                return Step::Fail(RequestError::OwnerMissing);
            }
            if chunks[0].color_rgba.is_none() {
                return Step::Fail(RequestError::ColorMissing);
            }
            Step::ListAttributes { limit: or_one(r.max_entries) }
        },
    }
}

/// Whether the CPU has to step in: the GPU found no voxel. Unless positions are
/// wanted in chunks, there must be something to voxelize.
pub open spec fn needs_cpu(r: Request, chunks: Seq<Sparse>, has_triangles: bool) -> bool {
    !any_occupied(chunks) && (has_triangles || r.kind == RequestKind::PositionsChunked)
}

/// Whether a request ends at once: positions are wanted in chunks, and there is
/// no chunk.
pub open spec fn hands_out_nothing(r: Request, chunks: Seq<Sparse>) -> bool {
    r.kind == RequestKind::PositionsChunked && chunks.len() == 0
}

/// Whether the size of a dense grid on the CPU is estimated.
pub open spec fn considers_cpu(r: Request, chunks: Seq<Sparse>, has_triangles: bool) -> bool {
    !hands_out_nothing(r, chunks) && needs_cpu(r, chunks, has_triangles)
}

/// Whether a request ends at once.
fn ends_at_once(r: &Request, chunks: &[Sparse]) -> (b: bool)
    ensures
        b == hands_out_nothing(*r, chunks@),
{
    match r.kind {
        RequestKind::PositionsChunked => chunks.len() == 0,
        _ => false,
    }
}

/// Whether the size of a dense grid on the CPU is estimated after what the GPU
/// found.
pub fn wants_cpu(r: &Request, chunks: &[Sparse], has_triangles: bool) -> (b: bool)
    ensures
        b == considers_cpu(*r, chunks@, has_triangles),
{
    let by_positions: bool = match r.kind {
        RequestKind::PositionsChunked => true,
        _ => false,
    };
    !ends_at_once(r, chunks) && !has_voxels(chunks) && (has_triangles || by_positions)
}

/// The step that follows what the GPU found.
pub open spec fn step_after_gpu(
    r: Request,
    chunks: Seq<Sparse>,
    has_triangles: bool,
    dims: Dims,
) -> Step {
    if hands_out_nothing(r, chunks) {
        Step::HandOutNothing
    } else if considers_cpu(r, chunks, has_triangles) {
        let estimated = dense_bytes(dims, true, true);
        if estimated > MAX_FALLBACK_BYTES {
            Step::Fail(
                RequestError::FallbackTooLarge {
                    estimated_mb: (estimated / MIB as int) as u64,
                    limit_mb: MAX_FALLBACK_BYTES / MIB,
                },
            )
        } else {
            Step::VoxelizeOnCpu
        }
    } else {
        step_with_grid(r, chunks)
    }
}

/// Go on after the GPU has voxelized.
pub fn go_on_after_gpu(r: &Request, chunks: &[Sparse], has_triangles: bool, dims: Dims) -> (s: Step)
    requires
        r.kind == RequestKind::PositionsChunked ==> chunks@.len() <= u32::MAX,
        r.kind == RequestKind::Attributes ==> chunks@.len() >= 1,
        considers_cpu(*r, chunks@, has_triangles) ==> dims.x * dims.y * dims.z + 31 <= u64::MAX,
    ensures
        s == step_after_gpu(*r, chunks@, has_triangles, dims),
{
    if ends_at_once(r, chunks) {
        return Step::HandOutNothing;
    }
    if wants_cpu(r, chunks, has_triangles) {
        let estimated: u64 = estimate_dense_bytes(dims, true, true);
        if estimated > MAX_FALLBACK_BYTES {
            return Step::Fail(
                RequestError::FallbackTooLarge {
                    estimated_mb: estimated / MIB,
                    limit_mb: MAX_FALLBACK_BYTES / MIB,
                },
            );
        }
        return Step::VoxelizeOnCpu;
    }
    go_on_with_grid(r, chunks)
}

/// The CPU never steps in where the GPU found a voxel, and never allocates more
/// than the limit.
pub proof fn cpu_steps_in_only_when_needed(
    r: Request,
    chunks: Seq<Sparse>,
    has_triangles: bool,
    dims: Dims,
)
    requires
        step_after_gpu(r, chunks, has_triangles, dims) == Step::VoxelizeOnCpu,
    ensures
        !any_occupied(chunks),
        dense_bytes(dims, true, true) <= MAX_FALLBACK_BYTES,
{
}

/// What the GPU reports about its work.
#[derive(Debug, Clone, Copy, PartialEq, Eq, Structural)]
pub struct DebugInfo {
    pub tested: u32,
    pub hits: u32,
    pub workgroups: u32,
    pub flag0: u32,
    pub flag1: u32,
    pub flag2: u32,
}

/// The report of one grid.
pub open spec fn debug_of(s: Sparse) -> DebugInfo {
    DebugInfo {
        tested: s.debug_tested,
        hits: s.debug_hits,
        workgroups: s.debug_workgroups,
        flag0: s.debug_flags[0],
        flag1: s.debug_flags[1],
        flag2: s.debug_flags[2],
    }
}

/// The counts of the first `n` grids, summed: tested, hits, workgroups.
pub open spec fn debug_sums(chunks: Seq<Sparse>, n: nat) -> (int, int, int)
    decreases n,
{
    if n == 0 {
        (0, 0, 0)
    } else {
        let before = debug_sums(chunks, (n - 1) as nat);
        let c = chunks[n - 1];
        (before.0 + c.debug_tested, before.1 + c.debug_hits, before.2 + c.debug_workgroups)
    }
}

/// The flag words of the first `n` grids, joined bit by bit.
pub open spec fn debug_flags_or(chunks: Seq<Sparse>, k: int, n: nat) -> u32
    decreases n,
{
    if n == 0 {
        0
    } else {
        debug_flags_or(chunks, k, (n - 1) as nat) | chunks[n - 1].debug_flags[k]
    }
}

/// Merge the reports of some grids: counts are summed, flags joined.
pub fn merge_debug(chunks: &[Sparse]) -> (d: DebugInfo)
    requires
        debug_sums(chunks@, chunks@.len()).0 <= u32::MAX,
        debug_sums(chunks@, chunks@.len()).1 <= u32::MAX,
        debug_sums(chunks@, chunks@.len()).2 <= u32::MAX,
    ensures
        (d.tested as int, d.hits as int, d.workgroups as int) == debug_sums(
            chunks@,
            chunks@.len(),
        ),
        d.flag0 == debug_flags_or(chunks@, 0, chunks@.len()),
        d.flag1 == debug_flags_or(chunks@, 1, chunks@.len()),
        d.flag2 == debug_flags_or(chunks@, 2, chunks@.len()),
{
    let mut d = DebugInfo { tested: 0, hits: 0, workgroups: 0, flag0: 0, flag1: 0, flag2: 0 };
    let mut i: usize = 0;
    while i < chunks.len()
        invariant
            i <= chunks@.len(),
            debug_sums(chunks@, chunks@.len()).0 <= u32::MAX,
            debug_sums(chunks@, chunks@.len()).1 <= u32::MAX,
            debug_sums(chunks@, chunks@.len()).2 <= u32::MAX,
            (d.tested as int, d.hits as int, d.workgroups as int) == debug_sums(chunks@, i as nat),
            d.flag0 == debug_flags_or(chunks@, 0, i as nat),
            d.flag1 == debug_flags_or(chunks@, 1, i as nat),
            d.flag2 == debug_flags_or(chunks@, 2, i as nat),
        decreases chunks@.len() - i,
    {
        proof {
            lemma_sums_monotone(chunks@, (i + 1) as nat, chunks@.len());
        }
        d = DebugInfo {
            tested: d.tested + chunks[i].debug_tested,
            hits: d.hits + chunks[i].debug_hits,
            workgroups: d.workgroups + chunks[i].debug_workgroups,
            flag0: d.flag0 | chunks[i].debug_flags[0],
            flag1: d.flag1 | chunks[i].debug_flags[1],
            flag2: d.flag2 | chunks[i].debug_flags[2],
        };
        i = i + 1;
    }
    d
}

proof fn lemma_sums_monotone(chunks: Seq<Sparse>, n: nat, m: nat)
    requires
        n <= m,
    ensures
        debug_sums(chunks, n).0 <= debug_sums(chunks, m).0,
        debug_sums(chunks, n).1 <= debug_sums(chunks, m).1,
        debug_sums(chunks, n).2 <= debug_sums(chunks, m).2,
    decreases m,
{
    if n < m {
        lemma_sums_monotone(chunks, n, (m - 1) as nat);
    }
}

/// What is shown of a grid's report: where a count or all flags are zero, the
/// merged report of the GPU is shown instead.
pub open spec fn shown_debug_of(own: DebugInfo, merged: DebugInfo) -> DebugInfo {
    let no_flags = own.flag0 == 0 && own.flag1 == 0 && own.flag2 == 0;
    let flags = if no_flags {
        merged
    } else {
        own
    };
    DebugInfo {
        tested: if own.tested == 0 {
            merged.tested
        } else {
            own.tested
        },
        hits: if own.hits == 0 {
            merged.hits
        } else {
            own.hits
        },
        workgroups: if own.workgroups == 0 {
            merged.workgroups
        } else {
            own.workgroups
        },
        flag0: flags.flag0,
        flag1: flags.flag1,
        flag2: flags.flag2,
    }
}

/// What is shown of a grid's report.
pub fn shown_debug(s: &Sparse, merged: &DebugInfo) -> (d: DebugInfo)
    ensures
        d == shown_debug_of(debug_of(*s), *merged),
{
    let flags: [u32; 3] = s.debug_flags;
    let no_flags: bool = flags[0] == 0 && flags[1] == 0 && flags[2] == 0;
    DebugInfo {
        tested: if s.debug_tested == 0 {
            merged.tested
        } else {
            s.debug_tested
        },
        hits: if s.debug_hits == 0 {
            merged.hits
        } else {
            s.debug_hits
        },
        workgroups: if s.debug_workgroups == 0 {
            merged.workgroups
        } else {
            s.debug_workgroups
        },
        flag0: if no_flags {
            merged.flag0
        } else {
            flags[0]
        },
        flag1: if no_flags {
            merged.flag1
        } else {
            flags[1]
        },
        flag2: if no_flags {
            merged.flag2
        } else {
            flags[2]
        },
    }
}

/// Make chunks ready to be handed out: without empty bricks where that is
/// wanted.
pub fn finish_chunks(chunks: Vec<Sparse>, compact: bool) -> (out: Vec<Sparse>)
    requires
        compact ==> forall|i: int|
            0 <= i < chunks@.len() ==> sparse::sparse_is_complete(#[trigger] chunks@[i]),
    ensures
        !compact ==> out@ == chunks@,
        compact ==> out@.len() == chunks@.len() && forall|i: int|
            0 <= i < chunks@.len() ==> sparse::is_compact_of(#[trigger] out@[i], chunks@[i]),
{
    if !compact {
        return chunks;
    }
    let ghost all = chunks@;
    let mut rest = chunks;
    let mut out: Vec<Sparse> = Vec::new();
    while rest.len() > 0
        invariant
            out@.len() + rest@.len() == all.len(),
            forall|i: int| 0 <= i < rest@.len() ==> rest@[i] == all[out@.len() + i],
            forall|i: int| 0 <= i < all.len() ==> sparse::sparse_is_complete(#[trigger] all[i]),
            forall|i: int|
                0 <= i < out@.len() ==> sparse::is_compact_of(#[trigger] out@[i], all[i]),
        decreases rest@.len(),
    {
        let ghost k = out@.len() as int;
        let c = rest.remove(0);
        assert(c == all[k]);
        out.push(sparse::compact_sparse(c));
    }
    out
}

/// The GPU gets chunks of the size that was asked for. Where positions are listed in
/// chunks it is at least one; where no chunks are asked for it gets everything at once.
pub proof fn chunk_sizes_are_those_asked_for(r: Request)
    ensures
        ({
            let size = first_step(r)->chunk_size;
            &&& first_step(r) is VoxelizeOnGpu
            &&& size is Some <==> r.kind == RequestKind::PositionsChunked || r.kind
                == RequestKind::Chunked
            &&& size is Some && r.chunk_size > 0 ==> size == Some(r.chunk_size)
            &&& r.kind == RequestKind::PositionsChunked && r.chunk_size == 0 ==> size == Some(1u32)
            &&& r.kind == RequestKind::Chunked && r.chunk_size == 0 ==> size == Some(0u32)
        }),
{
}

/// The chunks' shares of the limit add up to no more than the limit, and one more each
/// would be too many; but every chunk may list one position.
pub proof fn shares_of_the_limit_are_fair(r: Request, chunks: Seq<Sparse>)
    requires
        r.kind == RequestKind::PositionsChunked,
        1 <= chunks.len(),
    ensures
        ({
            let s = step_with_grid(r, chunks);
            &&& s is ListPositions
            &&& s->ListPositions_limit >= 1
            &&& s->ListPositions_limit == 1 || s->ListPositions_limit * chunks.len()
                <= r.max_entries
            &&& (s->ListPositions_limit + 1) * chunks.len() > r.max_entries
        }),
{
    let n = chunks.len() as int;
    let m = r.max_entries as int;
    let q = m / n;
    vstd::arithmetic::div_mod::lemma_fundamental_div_mod(m, n);
    assert(n * q == q * n) by (nonlinear_arith);
    assert((q + 1) * n == q * n + n) by (nonlinear_arith);
    vstd::arithmetic::div_mod::lemma_div_is_ordered_by_denominator(m, 1, n);
    vstd::arithmetic::div_mod::lemma_div_pos_is_pos(m, n);
    if q == 0 {
        assert((1 + 1) * n > m) by (nonlinear_arith)
            requires
                n > m,
                m >= 0,
        ;
    }
}

/// A limit that is not shared is the one that was asked for, and at least one; and
/// what is handed out whole has none.
pub proof fn limits_are_those_asked_for(r: Request, chunks: Seq<Sparse>)
    requires
        r.max_entries > 0,
    ensures
        r.kind == RequestKind::Positions ==> step_with_grid(r, chunks) == (Step::ListPositions {
            limit: r.max_entries,
        }),
        r.kind == RequestKind::Attributes && chunks[0].owner_id is Some && chunks[0].color_rgba is Some
            ==> step_with_grid(r, chunks) == (Step::ListAttributes { limit: r.max_entries }),
        r.kind == RequestKind::Attributes && chunks[0].owner_id is None ==> step_with_grid(r, chunks)
            == Step::Fail(RequestError::OwnerMissing),
        r.kind == RequestKind::Attributes && chunks[0].owner_id is Some && chunks[0].color_rgba is None
            ==> step_with_grid(r, chunks) == Step::Fail(RequestError::ColorMissing),
        step_with_grid(r, chunks) == Step::HandOut <==> r.kind == RequestKind::Sparse || r.kind
            == RequestKind::Chunked,
{
}

/// Where the GPU found a voxel, the request goes on with it, whatever the size of the
/// grid. Where it found none although there are triangles, the CPU voxelizes, or the
/// request fails if its buffers would take more than 512 MiB. Where positions are wanted
/// in chunks, triangles are not asked for, and without a chunk nothing is handed out.
pub proof fn the_cpu_stands_in(
    r: Request,
    chunks: Seq<Sparse>,
    has_triangles: bool,
    dims: Dims,
    k: int,
)
    ensures
        ({
            let s = step_after_gpu(r, chunks, has_triangles, dims);
            let size = dense_bytes(dims, true, true);
            let empty = forall|i: int| 0 <= i < chunks.len() ==> !is_occupied(#[trigger] chunks[i]);
            let by_chunk = r.kind == RequestKind::PositionsChunked;
            let nothing = by_chunk && chunks.len() == 0;
            let wanted = !nothing && (has_triangles || by_chunk);
            &&& nothing ==> s == Step::HandOutNothing
            &&& 0 <= k < chunks.len() && is_occupied(chunks[k]) ==> s == step_with_grid(r, chunks)
            &&& empty && wanted && size <= 512 * 1_048_576 ==> s == Step::VoxelizeOnCpu
            &&& empty && wanted && size > 512 * 1_048_576 ==> {
                &&& s is Fail && s->Fail_0 is FallbackTooLarge
                &&& s->Fail_0->limit_mb == 512
                &&& s->Fail_0->estimated_mb * 1_048_576 <= size < (s->Fail_0->estimated_mb + 1)
                    * 1_048_576
            }
            &&& !has_triangles && !by_chunk ==> s == step_with_grid(r, chunks)
        }),
{
    if 0 <= k < chunks.len() && is_occupied(chunks[k]) {
        assert(any_occupied(chunks));
    }
    let size = dense_bytes(dims, true, true);
    lemma_volume(dims);
}

/// A dense grid has a bit a voxel, in the fewest whole words, and four bytes a voxel
/// for each attribute; the order of the sides does not matter.
pub proof fn dense_bytes_add_up(dims: Dims, store_owner: bool, store_color: bool)
    ensures
        ({
            let n = dims.x * dims.y * dims.z;
            let bits = dense_bytes(dims, false, false);
            let attributes = (if store_owner {
                4 * n
            } else {
                0
            }) + (if store_color {
                4 * n
            } else {
                0
            });
            let all = dense_bytes(dims, store_owner, store_color);
            &&& n < 0x8000_0000_0000_0000 ==> 8 * bits >= n && 8 * (bits - 4) < n && bits % 4 == 0
            &&& bits + attributes <= u64::MAX && n < 0x8000_0000_0000_0000 ==> all == bits
                + attributes
            &&& all <= u64::MAX
            &&& dense_bytes(
                Dims { x: dims.z, y: dims.y, z: dims.x },
                store_owner,
                store_color,
            ) == all
            &&& dense_bytes(
                Dims { x: dims.y, y: dims.x, z: dims.z },
                store_owner,
                store_color,
            ) == all
        }),
{
    lemma_volume(dims);
    let x = dims.x as int;
    let y = dims.y as int;
    let z = dims.z as int;
    assert(x * y * z == z * y * x && x * y * z == y * x * z) by (nonlinear_arith);
}

/// A triple at any place of the list is selected if its last vertex has its three
/// coordinates.
pub proof fn whole_faces_are_selected(indices: Seq<u32>, coordinates: int, n: nat, k: int)
    requires
        3 * n <= indices.len(),
        0 <= k < n,
        3 * indices[3 * k + 2] + 2 < coordinates,
    ensures
        faces_of(indices, coordinates, n).contains(
            Face { a: indices[3 * k], b: indices[3 * k + 1], c: indices[3 * k + 2] },
        ),
    decreases n,
{
    let f = Face { a: indices[3 * k], b: indices[3 * k + 1], c: indices[3 * k + 2] };
    let all = faces_of(indices, coordinates, n);
    let before = faces_of(indices, coordinates, (n - 1) as nat);
    if k == n - 1 {
        assert(all.last() == f);
        assert(all[all.len() - 1] == f);
    } else {
        whole_faces_are_selected(indices, coordinates, (n - 1) as nat, k);
        let i = choose|i: int| 0 <= i < before.len() && before[i] == f;
        assert(all[i] == f);
    }
}

/// The faces of two lists are those of one list with the other behind it.
pub proof fn faces_of_joined_lists(a: Seq<u32>, b: Seq<u32>, coordinates: int, n: nat, m: nat)
    requires
        a.len() == 3 * n,
        3 * m <= b.len(),
    ensures
        faces_of(a + b, coordinates, n + m) == faces_of(a, coordinates, n) + faces_of(
            b,
            coordinates,
            m,
        ),
    decreases m,
{
    if m == 0 {
        lemma_faces_prefix(a, b, coordinates, n);
        assert(faces_of(a, coordinates, n) + faces_of(b, coordinates, 0) =~= faces_of(
            a,
            coordinates,
            n,
        ));
    } else {
        faces_of_joined_lists(a, b, coordinates, n, (m - 1) as nat);
        let at = 3 * (m - 1);
        assert((a + b)[3 * (n + m - 1)] == b[at]);
        assert((a + b)[3 * (n + m - 1) + 1] == b[at + 1]);
        assert((a + b)[3 * (n + m - 1) + 2] == b[at + 2]);
        assert(faces_of(a + b, coordinates, n + m) =~= faces_of(a, coordinates, n) + faces_of(
            b,
            coordinates,
            m,
        ));
    }
}

proof fn lemma_faces_prefix(a: Seq<u32>, b: Seq<u32>, coordinates: int, n: nat)
    requires
        3 * n <= a.len(),
    ensures
        faces_of(a + b, coordinates, n) == faces_of(a, coordinates, n),
    decreases n,
{
    if n > 0 {
        lemma_faces_prefix(a, b, coordinates, (n - 1) as nat);
        let at = 3 * (n - 1);
        assert((a + b)[at] == a[at] && (a + b)[at + 1] == a[at + 1] && (a + b)[at + 2] == a[at
            + 2]);
    }
}

/// The reports of two lists of grids add up, and the report of one grid is its own.
pub proof fn reports_add_up(a: Seq<Sparse>, b: Seq<Sparse>, c: Sparse, k: int)
    ensures
        debug_sums(seq![c], 1) == (
            c.debug_tested as int,
            c.debug_hits as int,
            c.debug_workgroups as int,
        ),
        debug_sums(a + b, (a + b).len()).0 == debug_sums(a, a.len()).0 + debug_sums(b, b.len()).0,
        debug_sums(a + b, (a + b).len()).1 == debug_sums(a, a.len()).1 + debug_sums(b, b.len()).1,
        debug_sums(a + b, (a + b).len()).2 == debug_sums(a, a.len()).2 + debug_sums(b, b.len()).2,
        debug_flags_or(seq![c], k, 1) == c.debug_flags[k],
        debug_flags_or(a + b, k, (a + b).len()) == debug_flags_or(a, k, a.len()) | debug_flags_or(
            b,
            k,
            b.len(),
        ),
{
    reveal_with_fuel(debug_sums, 2);
    reveal_with_fuel(debug_flags_or, 2);
    let f = c.debug_flags[k];
    assert(0u32 | f == f) by (bit_vector);
    lemma_reports(a, b, k, b.len());
}

proof fn lemma_reports(a: Seq<Sparse>, b: Seq<Sparse>, k: int, m: nat)
    requires
        m <= b.len(),
    ensures
        debug_sums(a + b, a.len() + m).0 == debug_sums(a, a.len()).0 + debug_sums(b, m).0,
        debug_sums(a + b, a.len() + m).1 == debug_sums(a, a.len()).1 + debug_sums(b, m).1,
        debug_sums(a + b, a.len() + m).2 == debug_sums(a, a.len()).2 + debug_sums(b, m).2,
        debug_flags_or(a + b, k, a.len() + m) == debug_flags_or(a, k, a.len()) | debug_flags_or(
            b,
            k,
            m,
        ),
    decreases m,
{
    if m == 0 {
        lemma_reports_prefix(a, b, k, a.len());
        let x = debug_flags_or(a, k, a.len());
        assert(x | 0 == x) by (bit_vector);
    } else {
        lemma_reports(a, b, k, (m - 1) as nat);
        assert((a + b)[a.len() + m - 1] == b[m - 1]);
        let x = debug_flags_or(a, k, a.len());
        let y = debug_flags_or(b, k, (m - 1) as nat);
        let z = b[m - 1].debug_flags[k];
        assert((x | y) | z == x | (y | z)) by (bit_vector);
    }
}

proof fn lemma_reports_prefix(a: Seq<Sparse>, b: Seq<Sparse>, k: int, n: nat)
    requires
        n <= a.len(),
    ensures
        debug_sums(a + b, n) == debug_sums(a, n),
        debug_flags_or(a + b, k, n) == debug_flags_or(a, k, n),
    decreases n,
{
    if n > 0 {
        lemma_reports_prefix(a, b, k, (n - 1) as nat);
        assert((a + b)[n - 1] == a[n - 1]);
    }
}

/// What a grid reports itself is shown; the merged report fills in for counts that are
/// zero, and for the flags if all of them are.
pub proof fn own_reports_are_shown(s: Sparse, merged: DebugInfo)
    ensures
        ({
            let d = shown_debug_of(debug_of(s), merged);
            let f = s.debug_flags;
            &&& d.tested == s.debug_tested || (s.debug_tested == 0 && d.tested == merged.tested)
            &&& s.debug_tested == 0 ==> d.tested == merged.tested
            &&& d.hits == s.debug_hits || (s.debug_hits == 0 && d.hits == merged.hits)
            &&& s.debug_hits == 0 ==> d.hits == merged.hits
            &&& d.workgroups == s.debug_workgroups || (s.debug_workgroups == 0 && d.workgroups
                == merged.workgroups)
            &&& s.debug_workgroups == 0 ==> d.workgroups == merged.workgroups
            &&& f[0] != 0 || f[1] != 0 || f[2] != 0 ==> d.flag0 == f[0] && d.flag1 == f[1] && d.flag2
                == f[2]
            &&& f[0] == 0 && f[1] == 0 && f[2] == 0 ==> d.flag0 == merged.flag0 && d.flag1
                == merged.flag1 && d.flag2 == merged.flag2
        }),
{
}

} // verus!
