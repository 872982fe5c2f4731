//! Lifecycle of a chunk's mesh, and which neighbours an edit touches.

use vstd::prelude::*;

verus! {

/// Lifecycle state of a chunk's mesh.
#[derive(Clone, Copy, Debug, PartialEq, Eq, Structural)]
pub enum ChunkState {
    /// Mesh is up-to-date with voxel data.
    Clean,
    /// Voxel data changed; mesh needs rebuild.
    Dirty,
    /// Currently being meshed from the voxel data of `data_version`.
    Meshing { data_version: u64 },
    /// A mesh of the voxel data of `data_version` waits to be swapped in.
    ReadyToSwap { data_version: u64 },
}

/// The phase of a chunk's mesh: up to date, out of date, being made, or waiting.
pub open spec fn phase(s: ChunkState) -> int {
    match s {
        ChunkState::Clean => 0,
        ChunkState::Dirty => 1,
        ChunkState::Meshing { .. } => 2,
        ChunkState::ReadyToSwap { .. } => 3,
    }
}

impl Default for ChunkState {
    fn default() -> (s: Self)
        ensures
            s == ChunkState::Dirty,
    {
        ChunkState::Dirty
    }
}

impl ChunkState {
    /// Whether this chunk needs a mesh rebuild.
    pub fn needs_rebuild(&self) -> (b: bool)
        ensures
            b == (*self == ChunkState::Dirty),
            b == (phase(*self) == 1),
    {
        matches!(self, ChunkState::Dirty)
    }

    /// Whether this chunk is currently being meshed.
    pub fn is_meshing(&self) -> (b: bool)
        ensures
            b == (*self is Meshing),
            b == (phase(*self) == 2),
    {
        matches!(self, ChunkState::Meshing { .. })
    }

    /// Whether this chunk has a pending mesh ready to swap.
    pub fn has_pending_mesh(&self) -> (b: bool)
        ensures
            b == (*self is ReadyToSwap),
            b == (phase(*self) == 3),
    {
        matches!(self, ChunkState::ReadyToSwap { .. })
    }

    /// Whether this chunk's mesh is up-to-date.
    pub fn is_clean(&self) -> (b: bool)
        ensures
            b == (*self == ChunkState::Clean),
            b == (phase(*self) == 0),
    {
        matches!(self, ChunkState::Clean)
    }
}

/// A chunk is in exactly one of the four states.
pub proof fn states_exclude_each_other(s: ChunkState)
    ensures
        (s == ChunkState::Clean) as int + (s == ChunkState::Dirty) as int + (s is Meshing) as int + (
        s is ReadyToSwap) as int == 1,
{
}

/// Which chunk boundaries a voxel touches.
#[derive(Clone, Copy, Debug, PartialEq, Eq, Structural)]
pub struct BoundaryFlags {
    /// Voxel is on the -X face.
    pub neg_x: bool,
    /// Voxel is on the +X face.
    pub pos_x: bool,
    /// Voxel is on the -Y face.
    pub neg_y: bool,
    /// Voxel is on the +Y face.
    pub pos_y: bool,
    /// Voxel is on the -Z face.
    pub neg_z: bool,
    /// Voxel is on the +Z face.
    pub pos_z: bool,
}

impl Default for BoundaryFlags {
    fn default() -> (f: Self)
        ensures
            f == no_flags(),
    {
        BoundaryFlags {
            neg_x: false,
            pos_x: false,
            neg_y: false,
            pos_y: false,
            neg_z: false,
            pos_z: false,
        }
    }
}

/// No boundary.
pub open spec fn no_flags() -> BoundaryFlags {
    BoundaryFlags {
        neg_x: false,
        pos_x: false,
        neg_y: false,
        pos_y: false,
        neg_z: false,
        pos_z: false,
    }
}

/// One where a flag is set, else zero.
pub open spec fn one_if(b: bool) -> int {
    if b {
        1
    } else {
        0
    }
}

/// Number of boundaries that are set.
pub open spec fn touched(f: BoundaryFlags) -> int {
    one_if(f.neg_x) + one_if(f.pos_x) + one_if(f.neg_y) + one_if(f.pos_y) + one_if(f.neg_z) + one_if(
        f.pos_z,
    )
}

/// A list of one offset where a flag is set, else an empty one.
pub open spec fn offset_if(b: bool, x: i32, y: i32, z: i32) -> Seq<(i32, i32, i32)> {
    if b {
        seq![(x, y, z)]
    } else {
        Seq::empty()
    }
}

/// The offsets of the neighbours behind the boundaries that are set.
pub open spec fn neighbor_offsets(f: BoundaryFlags) -> Seq<(i32, i32, i32)> {
    offset_if(f.neg_x, -1i32, 0i32, 0i32) + offset_if(f.pos_x, 1i32, 0i32, 0i32) + offset_if(
        f.neg_y,
        0i32,
        -1i32,
        0i32,
    ) + offset_if(f.pos_y, 0i32, 1i32, 0i32) + offset_if(f.neg_z, 0i32, 0i32, -1i32) + offset_if(
        f.pos_z,
        0i32,
        0i32,
        1i32,
    )
}

/// The entries of a list of offsets.
pub open spec fn as_triples(v: Seq<[i32; 3]>) -> Seq<(i32, i32, i32)> {
    v.map_values(|o: [i32; 3]| (o[0], o[1], o[2]))
}

/// Two sets of flags joined.
pub open spec fn joined(a: BoundaryFlags, b: BoundaryFlags) -> BoundaryFlags {
    BoundaryFlags {
        neg_x: a.neg_x || b.neg_x,
        pos_x: a.pos_x || b.pos_x,
        neg_y: a.neg_y || b.neg_y,
        pos_y: a.pos_y || b.pos_y,
        neg_z: a.neg_z || b.neg_z,
        pos_z: a.pos_z || b.pos_z,
    }
}

/// Add an offset where a flag is set.
fn add_offset(v: &mut Vec<[i32; 3]>, set: bool, o: [i32; 3])
    ensures
        as_triples(final(v)@) == as_triples(old(v)@) + offset_if(set, o[0], o[1], o[2]),
{
    if set {
        v.push(o);
    }
    assert(as_triples(v@) =~= as_triples(old(v)@) + offset_if(set, o[0], o[1], o[2]));
}

impl BoundaryFlags {
    /// Whether any boundary flag is set.
    pub fn any(&self) -> (b: bool)
        ensures
            b == (*self != no_flags()),
            b == (touched(*self) > 0),
    {
        self.neg_x || self.pos_x || self.neg_y || self.pos_y || self.neg_z || self.pos_z
    }

    /// How many boundaries this touches.
    pub fn count(&self) -> (n: usize)
        ensures
            n == one_if(self.neg_x) + one_if(self.pos_x) + one_if(self.neg_y) + one_if(self.pos_y)
                + one_if(self.neg_z) + one_if(self.pos_z),
            n == touched(*self),
    {
        let mut count: usize = 0;
        if self.neg_x {
            count = count + 1;
        }
        if self.pos_x {
            count = count + 1;
        }
        if self.neg_y {
            count = count + 1;
        }
        if self.pos_y {
            count = count + 1;
        }
        if self.neg_z {
            count = count + 1;
        }
        if self.pos_z {
            count = count + 1;
        }
        count
    }

    /// Neighbor chunk offsets that need to be marked dirty, as [dx, dy, dz] for
    /// each boundary that is set.
    pub fn affected_neighbors(&self) -> (v: Vec<[i32; 3]>)
        ensures
            as_triples(v@) == neighbor_offsets(*self),
    {
        let mut v: Vec<[i32; 3]> = Vec::new();
        assert(as_triples(v@) =~= Seq::empty());
        add_offset(&mut v, self.neg_x, [-1, 0, 0]);
        add_offset(&mut v, self.pos_x, [1, 0, 0]);
        add_offset(&mut v, self.neg_y, [0, -1, 0]);
        add_offset(&mut v, self.pos_y, [0, 1, 0]);
        add_offset(&mut v, self.neg_z, [0, 0, -1]);
        add_offset(&mut v, self.pos_z, [0, 0, 1]);
        assert(Seq::<(i32, i32, i32)>::empty() + offset_if(self.neg_x, -1i32, 0i32, 0i32)
            =~= offset_if(self.neg_x, -1i32, 0i32, 0i32));
        v
    }

    /// Merge another set of boundary flags into this one.
    pub fn merge(&mut self, other: BoundaryFlags)
        ensures
            *final(self) == joined(*old(self), other),
    {
        *self = BoundaryFlags {
            neg_x: self.neg_x || other.neg_x,
            pos_x: self.pos_x || other.pos_x,
            neg_y: self.neg_y || other.neg_y,
            pos_y: self.pos_y || other.pos_y,
            neg_z: self.neg_z || other.neg_z,
            pos_z: self.pos_z || other.pos_z,
        };
    }
}

/// As many neighbours are affected as boundaries are touched.
pub proof fn one_neighbor_per_boundary(f: BoundaryFlags)
    ensures
        neighbor_offsets(f).len() == one_if(f.neg_x) + one_if(f.pos_x) + one_if(f.neg_y) + one_if(
            f.pos_y,
        ) + one_if(f.neg_z) + one_if(f.pos_z),
{
}

/// Joining flags is commutative and idempotent, and loses no flag.
pub proof fn joining_keeps_flags(a: BoundaryFlags, b: BoundaryFlags)
    ensures
        joined(a, b) == joined(b, a),
        joined(a, a) == a,
        joined(joined(a, b), b) == joined(a, b),
        joined(a, no_flags()) == a,
{
}

/// The neighbour at an offset is affected exactly if it lies across a boundary that
/// is touched: one step along one axis, on the side of the flag.
pub proof fn neighbors_lie_across_boundaries(f: BoundaryFlags, d: (i32, i32, i32))
    ensures
        neighbor_offsets(f).contains(d) <==> {
            ||| f.neg_x && d.0 == -1 && d.1 == 0 && d.2 == 0
            ||| f.pos_x && d.0 == 1 && d.1 == 0 && d.2 == 0
            ||| f.neg_y && d.0 == 0 && d.1 == -1 && d.2 == 0
            ||| f.pos_y && d.0 == 0 && d.1 == 1 && d.2 == 0
            ||| f.neg_z && d.0 == 0 && d.1 == 0 && d.2 == -1
            ||| f.pos_z && d.0 == 0 && d.1 == 0 && d.2 == 1
        },
{
    let a = offset_if(f.neg_x, -1i32, 0i32, 0i32);
    let b = offset_if(f.pos_x, 1i32, 0i32, 0i32);
    let c = offset_if(f.neg_y, 0i32, -1i32, 0i32);
    let e = offset_if(f.pos_y, 0i32, 1i32, 0i32);
    let g = offset_if(f.neg_z, 0i32, 0i32, -1i32);
    let h = offset_if(f.pos_z, 0i32, 0i32, 1i32);
    lemma_offset_if(f.neg_x, -1i32, 0i32, 0i32, d);
    lemma_offset_if(f.pos_x, 1i32, 0i32, 0i32, d);
    lemma_offset_if(f.neg_y, 0i32, -1i32, 0i32, d);
    lemma_offset_if(f.pos_y, 0i32, 1i32, 0i32, d);
    lemma_offset_if(f.neg_z, 0i32, 0i32, -1i32, d);
    lemma_offset_if(f.pos_z, 0i32, 0i32, 1i32, d);
    lemma_either(a, b, d);
    lemma_either(a + b, c, d);
    lemma_either(a + b + c, e, d);
    lemma_either(a + b + c + e, g, d);
    lemma_either(a + b + c + e + g, h, d);
}

proof fn lemma_offset_if(b: bool, x: i32, y: i32, z: i32, d: (i32, i32, i32))
    ensures
        offset_if(b, x, y, z).contains(d) == (b && d == (x, y, z)),
{
    if b {
        assert(offset_if(b, x, y, z)[0] == (x, y, z));
    }
}

proof fn lemma_either(s: Seq<(i32, i32, i32)>, t: Seq<(i32, i32, i32)>, d: (i32, i32, i32))
    ensures
        (s + t).contains(d) == (s.contains(d) || t.contains(d)),
{
    if s.contains(d) {
        let i = choose|i: int| 0 <= i < s.len() && s[i] == d;
        assert((s + t)[i] == d);
    }
    if t.contains(d) {
        let i = choose|i: int| 0 <= i < t.len() && t[i] == d;
        assert((s + t)[s.len() + i] == d);
    }
}

/// Joined flags affect the neighbours that either of the two affects.
pub proof fn joining_joins_neighbors(a: BoundaryFlags, b: BoundaryFlags, d: (i32, i32, i32))
    ensures
        neighbor_offsets(joined(a, b)).contains(d) <==> neighbor_offsets(a).contains(d)
            || neighbor_offsets(b).contains(d),
{
    neighbors_lie_across_boundaries(a, d);
    neighbors_lie_across_boundaries(b, d);
    neighbors_lie_across_boundaries(joined(a, b), d);
}

/// A boundary is touched for each neighbour that is affected, and none exactly if
/// nothing is set.
pub proof fn boundaries_are_counted_by_neighbors(f: BoundaryFlags)
    ensures
        touched(f) == neighbor_offsets(f).len(),
        touched(f) == 0 <==> !f.neg_x && !f.pos_x && !f.neg_y && !f.pos_y && !f.neg_z && !f.pos_z,
        touched(f) == 0 <==> f == no_flags(),
{
}

/// The phases tell the states apart: a chunk is meshed from dirty to clean over the two
/// states that carry a data version.
pub proof fn phases_tell_states_apart(s: ChunkState, t: ChunkState, v: u64)
    ensures
        0 <= phase(s) < 4,
        phase(ChunkState::Clean) == 0 && phase(ChunkState::Dirty) == 1,
        phase(ChunkState::Meshing { data_version: v }) == 2,
        phase(ChunkState::ReadyToSwap { data_version: v }) == 3,
        phase(s) == phase(t) && phase(s) < 2 ==> s == t,
{
}

} // verus!
