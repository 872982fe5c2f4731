//! Lookup tables over resident chunks: from chunk coordinate to slot, and
//! between chunk slots and probe slots.

use vstd::prelude::*;

use crate::cascade::{V3_MAX_PROBE_SLOTS, V3_PROBE_SENTINEL};
use crate::coord::ChunkCoord;
use crate::pool;
use crate::pool::{SlotAllocator, MAX_SLOTS};
use crate::probe_slot::ProbeSlotAllocator;
use crate::slot_directory;

verus! {

/// Table entry for "no chunk here".
pub const SLOT_TABLE_SENTINEL: u32 = 0xFFFF_FFFF;

/// Which residents there are: the slot of each resident coordinate.
pub type Residents = Map<ChunkCoord, u32>;

/// A coordinate along one axis: 0 is x, 1 is y, 2 is z.
pub open spec fn along(c: ChunkCoord, axis: int) -> int {
    if axis == 0 {
        c.x as int
    } else if axis == 1 {
        c.y as int
    } else {
        c.z as int
    }
}

/// `m` is the least coordinate of a resident along an axis.
pub open spec fn is_least(r: Residents, axis: int, m: int) -> bool {
    &&& exists|c: ChunkCoord| #[trigger] r.contains_key(c) && along(c, axis) == m
    &&& forall|c: ChunkCoord| #[trigger] r.contains_key(c) ==> m <= along(c, axis)
}

/// `m` is the greatest coordinate of a resident along an axis.
pub open spec fn is_greatest(r: Residents, axis: int, m: int) -> bool {
    &&& exists|c: ChunkCoord| #[trigger] r.contains_key(c) && along(c, axis) == m
    &&& forall|c: ChunkCoord| #[trigger] r.contains_key(c) ==> m >= along(c, axis)
}

/// The least coordinate of a resident along an axis.
pub open spec fn least(r: Residents, axis: int) -> int {
    choose|m: int| is_least(r, axis, m)
}

/// The greatest coordinate of a resident along an axis.
pub open spec fn greatest(r: Residents, axis: int) -> int {
    choose|m: int| is_greatest(r, axis, m)
}

/// Half of an integer, rounded toward zero.
pub open spec fn half_toward_zero(n: int) -> int {
    if n >= 0 {
        n / 2
    } else {
        -((-n) / 2)
    }
}

/// Middle of the residents along an axis; 0 where there are none.
pub open spec fn middle(r: Residents, axis: int) -> int {
    if r.dom() == Set::<ChunkCoord>::empty() {
        0
    } else {
        half_toward_zero(least(r, axis) + greatest(r, axis))
    }
}

/// Coordinate of the table's first cell along an axis: the middle of the
/// residents lies in the middle of the table.
pub open spec fn table_origin(r: Residents, axis: int, dim: int) -> int {
    middle(r, axis) - dim / 2
}

/// The table's arithmetic along an axis stays within `i32`.
pub open spec fn axis_fits(r: Residents, axis: int, dim: int) -> bool {
    let lo = least(r, axis);
    let hi = greatest(r, axis);
    let o = table_origin(r, axis, dim);
    &&& i32::MIN <= lo + hi <= i32::MAX
    &&& i32::MIN <= o
    &&& hi - o <= i32::MAX
    &&& i32::MIN <= lo - o
}

/// The table's arithmetic stays within `i32`.
pub open spec fn table_fits(r: Residents, dim: int) -> bool {
    r.dom() =~= Set::empty() || (axis_fits(r, 0, dim) && axis_fits(r, 1, dim) && axis_fits(
        r,
        2,
        dim,
    ))
}

/// Place of a cell in the table: x varies fastest.
pub open spec fn cell_place(x: int, y: int, z: int, dim: int) -> int {
    x + dim * (y + dim * z)
}

/// Slot of the chunk at a coordinate, or the sentinel.
pub open spec fn slot_at(r: Residents, x: int, y: int, z: int) -> u32 {
    let c = ChunkCoord { x: x as i32, y: y as i32, z: z as i32 };
    if c.x == x && c.y == y && c.z == z && r.contains_key(c) {
        r[c]
    } else {
        SLOT_TABLE_SENTINEL
    }
}

/// Table from coordinate to slot over a cube of coordinates.
#[derive(Debug)]
pub struct SlotTable {
    pub origin_x: i32,
    pub origin_y: i32,
    pub origin_z: i32,
    pub dim: u32,
    pub entries: Vec<u32>,
}

impl SlotTable {
    /// The table of some residents.
    pub open spec fn is_table_of(&self, r: Residents, dim: u32) -> bool {
        &&& self.dim == dim
        &&& self.origin_x == table_origin(r, 0, dim as int)
        &&& self.origin_y == table_origin(r, 1, dim as int)
        &&& self.origin_z == table_origin(r, 2, dim as int)
        &&& self.entries@.len() == dim * dim * dim
        &&& forall|x: int, y: int, z: int|
            0 <= x < dim && 0 <= y < dim && 0 <= z < dim ==> self.entries@[#[trigger] cell_place(
                x,
                y,
                z,
                dim as int,
            )] == slot_at(r, self.origin_x + x, self.origin_y + y, self.origin_z + z)
    }
}

/// There is one least coordinate.
pub proof fn least_is(r: Residents, axis: int, m: int)
    requires
        is_least(r, axis, m),
    ensures
        least(r, axis) == m,
{
}

/// There is one greatest coordinate.
pub proof fn greatest_is(r: Residents, axis: int, m: int)
    requires
        is_greatest(r, axis, m),
    ensures
        greatest(r, axis) == m,
{
}

/// Cells of the table have places of their own, all of them in the table.
pub proof fn cell_place_injective(x: int, y: int, z: int, x2: int, y2: int, z2: int, dim: int)
    requires
        0 <= x < dim && 0 <= y < dim && 0 <= z < dim,
        0 <= x2 < dim && 0 <= y2 < dim && 0 <= z2 < dim,
    ensures
        0 <= cell_place(x, y, z, dim) < dim * dim * dim,
        cell_place(x, y, z, dim) == cell_place(x2, y2, z2, dim) ==> x == x2 && y == y2 && z == z2,
{
    let b = y + dim * z;
    let b2 = y2 + dim * z2;
    assert(0 <= dim * z <= dim * (dim - 1)) by (nonlinear_arith)
        requires
            0 <= z < dim,
    ;
    assert(dim * (dim - 1) == dim * dim - dim) by (nonlinear_arith);
    assert(0 <= dim * b <= dim * (dim * dim - 1)) by (nonlinear_arith)
        requires
            0 <= b <= dim * dim - 1,
            0 < dim,
    ;
    assert(dim * (dim * dim - 1) == dim * dim * dim - dim) by (nonlinear_arith);
    if cell_place(x, y, z, dim) == cell_place(x2, y2, z2, dim) {
        vstd::arithmetic::mul::lemma_mul_is_commutative(dim, b);
        vstd::arithmetic::mul::lemma_mul_is_commutative(dim, b2);
        vstd::arithmetic::mul::lemma_mul_is_commutative(dim, z);
        vstd::arithmetic::mul::lemma_mul_is_commutative(dim, z2);
        vstd::arithmetic::div_mod::lemma_fundamental_div_mod_converse(x + dim * b, dim, b, x);
        vstd::arithmetic::div_mod::lemma_fundamental_div_mod_converse(x2 + dim * b2, dim, b2, x2);
        vstd::arithmetic::div_mod::lemma_fundamental_div_mod_converse(b, dim, z, y);
        vstd::arithmetic::div_mod::lemma_fundamental_div_mod_converse(b2, dim, z2, y2);
    }
}

/// Every place of the table belongs to a cell.
pub proof fn cell_place_surjective(p: int, dim: int)
    requires
        0 <= p < dim * dim * dim,
        dim > 0,
    ensures
        0 <= p % dim < dim,
        0 <= p / dim % dim < dim,
        0 <= p / dim / dim < dim,
        cell_place(p % dim, p / dim % dim, p / dim / dim, dim) == p,
{
    let q = p / dim;
    vstd::arithmetic::div_mod::lemma_fundamental_div_mod(p, dim);
    vstd::arithmetic::div_mod::lemma_fundamental_div_mod(q, dim);
    assert(q < dim * dim) by (nonlinear_arith)
        requires
            p == dim * q + p % dim,
            0 <= p % dim,
            p < dim * dim * dim,
            dim > 0,
    ;
    assert(0 <= q) by (nonlinear_arith)
        requires
            p == dim * q + p % dim,
            p % dim < dim,
            0 <= p,
            dim > 0,
    ;
    let z = q / dim;
    assert(z < dim) by (nonlinear_arith)
        requires
            q == dim * z + q % dim,
            0 <= q % dim,
            q < dim * dim,
            dim > 0,
    ;
    assert(0 <= z) by (nonlinear_arith)
        requires
            q == dim * z + q % dim,
            q % dim < dim,
            0 <= q,
            dim > 0,
    ;
}

/// Two tables of the same residents are the same.
pub proof fn slot_table_is_determined(a: SlotTable, b: SlotTable, r: Residents, dim: u32)
    requires
        a.is_table_of(r, dim),
        b.is_table_of(r, dim),
    ensures
        a.entries@ == b.entries@,
        a.origin_x == b.origin_x,
        a.origin_y == b.origin_y,
        a.origin_z == b.origin_z,
{
    assert forall|p: int| 0 <= p < a.entries@.len() implies a.entries@[p] == b.entries@[p] by {
        let d = dim as int;
        if d == 0 {
            assert(d * d * d == 0) by (nonlinear_arith)
                requires
                    d == 0,
            ;
        }
        cell_place_surjective(p, d);
        assert(a.entries@[cell_place(p % d, p / d % d, p / d / d, d)] == a.entries@[p]);
        assert(b.entries@[cell_place(p % d, p / d % d, p / d / d, d)] == b.entries@[p]);
    }
    assert(a.entries@ =~= b.entries@);
}

/// A resident within the table's cube is found in it: the entry at its place
/// is its slot.
pub proof fn residents_are_found(t: SlotTable, r: Residents, dim: u32, c: ChunkCoord)
    requires
        t.is_table_of(r, dim),
        r.contains_key(c),
        0 <= c.x - t.origin_x < dim,
        0 <= c.y - t.origin_y < dim,
        0 <= c.z - t.origin_z < dim,
    ensures
        t.entries@[cell_place(c.x - t.origin_x, c.y - t.origin_y, c.z - t.origin_z, dim as int)]
            == r[c],
{
    assert(t.entries@[cell_place(c.x - t.origin_x, c.y - t.origin_y, c.z - t.origin_z, dim as int)]
        == slot_at(r, c.x as int, c.y as int, c.z as int));
}

/// A table names no other slots than those of residents, each at its own
/// coordinate.
pub proof fn table_names_residents_only(t: SlotTable, r: Residents, dim: u32, p: int)
    requires
        t.is_table_of(r, dim),
        0 <= p < t.entries@.len(),
        t.entries@[p] != SLOT_TABLE_SENTINEL,
    ensures
        ({
            let d = dim as int;
            exists|c: ChunkCoord| #[trigger]
                r.contains_key(c) && r[c] == t.entries@[p] && c.x == t.origin_x + p % d && c.y
                    == t.origin_y + p / d % d && c.z == t.origin_z + p / d / d
        }),
{
    let d = dim as int;
    if d == 0 {
        assert(d * d * d == 0) by (nonlinear_arith)
            requires
                d == 0,
        ;
    }
    cell_place_surjective(p, d);
    let x = t.origin_x + p % d;
    let y = t.origin_y + p / d % d;
    let z = t.origin_z + p / d / d;
    assert(t.entries@[cell_place(p % d, p / d % d, p / d / d, d)] == slot_at(r, x, y, z));
    assert(r.contains_key(ChunkCoord { x: x as i32, y: y as i32, z: z as i32 }));
}

/// Where nothing is resident, the table is empty: no entry names a slot.
pub proof fn table_of_nothing_is_empty(t: SlotTable, r: Residents, dim: u32)
    requires
        t.is_table_of(r, dim),
        r.dom() == Set::<ChunkCoord>::empty(),
    ensures
        t.entries@ == Seq::new((dim * dim * dim) as nat, |i: int| SLOT_TABLE_SENTINEL),
{
    assert forall|p: int| 0 <= p < t.entries@.len() implies t.entries@[p]
        == SLOT_TABLE_SENTINEL by {
        if t.entries@[p] != SLOT_TABLE_SENTINEL {
            table_names_residents_only(t, r, dim, p);
            let c = choose|c: ChunkCoord| #[trigger] r.contains_key(c);
            assert(r.dom().contains(c));
        }
    }
    assert(t.entries@ =~= Seq::new((dim * dim * dim) as nat, |i: int| SLOT_TABLE_SENTINEL));
}

proof fn lemma_extremes(s: Set<ChunkCoord>, axis: int)
    requires
        s.finite(),
        s.len() > 0,
    ensures
        exists|c: ChunkCoord| #[trigger]
            s.contains(c) && forall|d: ChunkCoord| #[trigger]
                s.contains(d) ==> along(c, axis) <= along(d, axis),
        exists|c: ChunkCoord| #[trigger]
            s.contains(c) && forall|d: ChunkCoord| #[trigger]
                s.contains(d) ==> along(c, axis) >= along(d, axis),
    decreases s.len(),
{
    let e = s.choose();
    let rest = s.remove(e);
    if rest.len() == 0 {
        assert(rest =~= Set::empty());
        assert forall|d: ChunkCoord| #[trigger] s.contains(d) implies d == e by {
            if d != e {
                assert(rest.contains(d));
            }
        }
        assert(s.contains(e));
    } else {
        lemma_extremes(rest, axis);
        let lo = choose|c: ChunkCoord| #[trigger]
            rest.contains(c) && forall|d: ChunkCoord| #[trigger]
                rest.contains(d) ==> along(c, axis) <= along(d, axis);
        let hi = choose|c: ChunkCoord| #[trigger]
            rest.contains(c) && forall|d: ChunkCoord| #[trigger]
                rest.contains(d) ==> along(c, axis) >= along(d, axis);
        assert forall|d: ChunkCoord| #[trigger] s.contains(d) implies d == e || rest.contains(d) by {
        }
        assert(s.contains(lo) && s.contains(hi) && s.contains(e));
        if along(e, axis) <= along(lo, axis) {
            assert(forall|d: ChunkCoord| #[trigger]
                s.contains(d) ==> along(e, axis) <= along(d, axis));
        } else {
            assert(forall|d: ChunkCoord| #[trigger]
                s.contains(d) ==> along(lo, axis) <= along(d, axis));
        }
        if along(e, axis) >= along(hi, axis) {
            assert(forall|d: ChunkCoord| #[trigger]
                s.contains(d) ==> along(e, axis) >= along(d, axis));
        } else {
            assert(forall|d: ChunkCoord| #[trigger]
                s.contains(d) ==> along(hi, axis) >= along(d, axis));
        }
    }
}

/// Where something is resident, there is a least and a greatest coordinate.
pub proof fn least_exists(r: Residents, axis: int, c: ChunkCoord)
    requires
        r.dom().finite(),
        r.contains_key(c),
    ensures
        is_least(r, axis, least(r, axis)),
        is_greatest(r, axis, greatest(r, axis)),
{
    assert(r.dom().contains(c));
    lemma_extremes(r.dom(), axis);
    let lo = choose|c: ChunkCoord| #[trigger]
        r.dom().contains(c) && forall|d: ChunkCoord| #[trigger]
            r.dom().contains(d) ==> along(c, axis) <= along(d, axis);
    let hi = choose|c: ChunkCoord| #[trigger]
        r.dom().contains(c) && forall|d: ChunkCoord| #[trigger]
            r.dom().contains(d) ==> along(c, axis) >= along(d, axis);
    assert(r.contains_key(lo) && r.contains_key(hi));
    assert(is_least(r, axis, along(lo, axis)));
    assert(is_greatest(r, axis, along(hi, axis)));
}

/// Where the residents span less than the table, all of them lie in its cube.
pub proof fn small_scenes_fit_the_table(r: Residents, axis: int, dim: int, c: ChunkCoord)
    requires
        r.contains_key(c),
        r.dom().finite(),
        dim >= 2,
        greatest(r, axis) - least(r, axis) <= dim - 2,
    ensures
        0 <= along(c, axis) - table_origin(r, axis, dim) < dim,
{
    least_exists(r, axis, c);
    assert(r.dom().contains(c));
    assert(least(r, axis) <= along(c, axis) <= greatest(r, axis));
}

/// Least and greatest coordinates along one axis so far.
struct Span {
    lo: i32,
    hi: i32,
}

/// Least and greatest coordinates of the listed chunks along an axis.
fn span(list: &Vec<(u32, ChunkCoord)>, axis: u32) -> (s: Span)
    requires
        list@.len() > 0,
        axis < 3,
    ensures
        exists|k: int| 0 <= k < list@.len() && along((#[trigger] list@[k]).1, axis as int) == s.lo,
        exists|k: int| 0 <= k < list@.len() && along((#[trigger] list@[k]).1, axis as int) == s.hi,
        forall|k: int|
            0 <= k < list@.len() ==> s.lo <= along((#[trigger] list@[k]).1, axis as int) <= s.hi,
{
    let first: i32 = pick(&list[0].1, axis);
    let mut lo: i32 = first;
    let mut hi: i32 = first;
    let mut i: usize = 1;
    while i < list.len()
        invariant
            1 <= i <= list@.len(),
            axis < 3,
            exists|k: int| 0 <= k < i && along((#[trigger] list@[k]).1, axis as int) == lo,
            exists|k: int| 0 <= k < i && along((#[trigger] list@[k]).1, axis as int) == hi,
            forall|k: int|
                0 <= k < i ==> lo <= along((#[trigger] list@[k]).1, axis as int) <= hi,
        decreases list@.len() - i,
    {
        let v: i32 = pick(&list[i].1, axis);
        assert(along(list@[i as int].1, axis as int) == v);
        if v < lo {
            lo = v;
        }
        if v > hi {
            hi = v;
        }
        i = i + 1;
    }
    Span { lo, hi }
}

/// A coordinate along one axis.
fn pick(c: &ChunkCoord, axis: u32) -> (v: i32)
    requires
        axis < 3,
    ensures
        v == along(*c, axis as int),
{
    if axis == 0 {
        c.x
    } else if axis == 1 {
        c.y
    } else {
        c.z
    }
}

/// Least and greatest coordinates of the residents along an axis.
fn resident_span(list: &Vec<(u32, ChunkCoord)>, axis: u32, r: Ghost<Residents>) -> (s: Span)
    requires
        list@.len() > 0,
        axis < 3,
        slot_directory::lists_resident(list@, r@),
    ensures
        s.lo == least(r@, axis as int),
        s.hi == greatest(r@, axis as int),
        forall|c: ChunkCoord| #[trigger]
            r@.contains_key(c) ==> s.lo <= along(c, axis as int) <= s.hi,
{
    let s = span(list, axis);
    proof {
        let a = axis as int;
        let lo_at = choose|k: int| 0 <= k < list@.len() && along((#[trigger] list@[k]).1, a) == s.lo;
        let hi_at = choose|k: int| 0 <= k < list@.len() && along((#[trigger] list@[k]).1, a) == s.hi;
        assert(r@.contains_key(list@[lo_at].1) && r@.contains_key(list@[hi_at].1));
        assert forall|c: ChunkCoord| #[trigger] r@.contains_key(c) implies s.lo <= along(c, a)
            <= s.hi by {
            assert(list@.contains((r@[c], c)));
            let k = choose|k: int| 0 <= k < list@.len() && list@[k] == (r@[c], c);
            assert(list@[k].1 == c);
        }
        assert(is_least(r@, a, s.lo as int));
        assert(is_greatest(r@, a, s.hi as int));
        least_is(r@, a, s.lo as int);
        greatest_is(r@, a, s.hi as int);
    }
    s
}

/// Whether the table's arithmetic along an axis stays within `i32`.
fn fits_along(list: &Vec<(u32, ChunkCoord)>, axis: u32, dim: u32, r: Ghost<Residents>) -> (b: bool)
    requires
        list@.len() > 0,
        axis < 3,
        dim <= 1024,
        slot_directory::lists_resident(list@, r@),
    ensures
        b == axis_fits(r@, axis as int, dim as int),
{
    let s = resident_span(list, axis, r);
    assert(r@.contains_key(list@[0].1) && r@.dom().contains(list@[0].1));
    let lo: i64 = s.lo as i64;
    let hi: i64 = s.hi as i64;
    let o: i64 = (lo + hi) / 2 - (dim / 2) as i64;
    let least_word: i64 = i32::MIN as i64;
    let greatest_word: i64 = i32::MAX as i64;
    least_word <= lo + hi && lo + hi <= greatest_word && least_word <= o && hi - o <= greatest_word
        && least_word <= lo - o
}

/// Whether a table of the residents can be built: its arithmetic stays within
/// `i32`.
pub fn fits_table(allocator: &SlotAllocator, dim: u32) -> (b: bool)
    requires
        allocator.wf(),
        dim <= 1024,
    ensures
        b == table_fits(allocator@.resident, dim as int),
{
    let list = allocator.allocated_slots();
    let ghost r = allocator@.resident;
    if list.len() == 0 {
        proof {
            lemma_nothing_listed(list@, r);
        }
        return true;
    }
    proof {
        assert(r.contains_key(list@[0].1));
        assert(r.dom().contains(list@[0].1));
    }
    fits_along(&list, 0, dim, Ghost(r)) && fits_along(&list, 1, dim, Ghost(r)) && fits_along(
        &list,
        2,
        dim,
        Ghost(r),
    )
}

/// An empty list lists no residents.
proof fn lemma_nothing_listed(list: Seq<(u32, ChunkCoord)>, r: Residents)
    requires
        slot_directory::lists_resident(list, r),
        list.len() == 0,
    ensures
        r.dom() == Set::<ChunkCoord>::empty(),
{
    assert forall|c: ChunkCoord| !r.dom().contains(c) by {
        if r.contains_key(c) {
            assert(list.contains((r[c], c)));
        }
    }
    assert(r.dom() =~= Set::empty());
}

/// Origin of the table along one axis.
fn origin_along(list: &Vec<(u32, ChunkCoord)>, axis: u32, dim: u32, r: Ghost<Residents>) -> (o: i32)
    requires
        axis < 3,
        dim <= 1024,
        slot_directory::lists_resident(list@, r@),
        list@.len() == 0 || axis_fits(r@, axis as int, dim as int),
    ensures
        o == table_origin(r@, axis as int, dim as int),
        forall|c: ChunkCoord| #[trigger]
            r@.contains_key(c) ==> i32::MIN <= along(c, axis as int) - o <= i32::MAX,
{
    if list.len() == 0 {
        proof {
            lemma_nothing_listed(list@, r@);
            assert forall|c: ChunkCoord| !(#[trigger] r@.contains_key(c)) by {
                assert(!r@.dom().contains(c));
            }
        }
        return -((dim / 2) as i32);
    }
    assert(r@.contains_key(list@[0].1) && r@.dom().contains(list@[0].1));
    let s = resident_span(list, axis, r);
    (s.lo + s.hi) / 2 - (dim / 2) as i32
}

/// Build the table from coordinate to slot. Where nothing is resident, no entry
/// names a slot.
///
/// A resident outside the table's cube is left out.
pub fn build_slot_table(allocator: &SlotAllocator, dim: u32) -> (t: SlotTable)
    requires
        allocator.wf(),
        dim <= 1024,
        table_fits(allocator@.resident, dim as int),
    ensures
        t.is_table_of(allocator@.resident, dim),
{
    let list = allocator.allocated_slots();
    let ghost r = allocator@.resident;
    proof {
        if list@.len() > 0 {
            assert(r.contains_key(list@[0].1));
            assert(r.dom().contains(list@[0].1));
        }
    }
    let origin_x: i32 = origin_along(&list, 0, dim, Ghost(r));
    let origin_y: i32 = origin_along(&list, 1, dim, Ghost(r));
    let origin_z: i32 = origin_along(&list, 2, dim, Ghost(r));
    let ghost d = dim as int;
    proof {
        lemma_table_size(dim);
    }
    let n: usize = dim as usize * dim as usize * dim as usize;
    let mut entries: Vec<u32> = vec![SLOT_TABLE_SENTINEL; n];
    let side: i32 = dim as i32;
    proof {
        assert forall|x: int, y: int, z: int|
            #![trigger cell_place(x, y, z, d)]
            0 <= x < d && 0 <= y < d && 0 <= z < d implies entries@[cell_place(x, y, z, d)]
            == SLOT_TABLE_SENTINEL by {
            cell_place_injective(x, y, z, x, y, z, d);
        }
    }
    let mut i: usize = 0;
    while i < list.len()
        invariant
            0 <= i <= list@.len(),
            dim <= 1024,
            side == dim,
            d == dim,
            slot_directory::lists_resident(list@, r),
            entries@.len() == d * d * d,
            forall|c: ChunkCoord| #[trigger]
                r.contains_key(c) ==> i32::MIN <= c.x - origin_x <= i32::MAX && i32::MIN <= c.y
                    - origin_y <= i32::MAX && i32::MIN <= c.z - origin_z <= i32::MAX,
            forall|k: int|
                0 <= k < i && within((#[trigger] list@[k]).1, origin_x, origin_y, origin_z, d)
                    ==> entries@[place_of(list@[k].1, origin_x, origin_y, origin_z, d)]
                    == list@[k].0,
            forall|x: int, y: int, z: int|
                #![trigger cell_place(x, y, z, d)]
                0 <= x < d && 0 <= y < d && 0 <= z < d ==> entries@[cell_place(x, y, z, d)]
                    == SLOT_TABLE_SENTINEL || entries@[cell_place(x, y, z, d)] == slot_at(
                    r,
                    origin_x + x,
                    origin_y + y,
                    origin_z + z,
                ),
        decreases list@.len() - i,
    {
        let slot: u32 = list[i].0;
        let c: ChunkCoord = list[i].1;
        assert(list@[i as int].1 == c && r.contains_key(c));
        assert(along(c, 0) == c.x && along(c, 1) == c.y && along(c, 2) == c.z);
        let lx: i32 = c.x - origin_x;
        let ly: i32 = c.y - origin_y;
        let lz: i32 = c.z - origin_z;
        if lx >= 0 && lx < side && ly >= 0 && ly < side && lz >= 0 && lz < side {
            proof {
                cell_place_injective(
                    lx as int,
                    ly as int,
                    lz as int,
                    lx as int,
                    ly as int,
                    lz as int,
                    d,
                );
                lemma_table_size(dim);
                lemma_place_steps(lx as int, ly as int, lz as int, d);
            }
            let idx: u32 = lx as u32 + dim * (ly as u32 + dim * lz as u32);
            let ghost before = entries@;
            entries.set(idx as usize, slot);
            proof {
                assert(slot_at(r, c.x as int, c.y as int, c.z as int) == slot);
                assert forall|k: int|
                    0 <= k <= i && within((#[trigger] list@[k]).1, origin_x, origin_y, origin_z, d)
                    implies entries@[place_of(list@[k].1, origin_x, origin_y, origin_z, d)]
                    == list@[k].0 by {
                    let e = list@[k].1;
                    cell_place_injective(
                        e.x - origin_x,
                        e.y - origin_y,
                        e.z - origin_z,
                        lx as int,
                        ly as int,
                        lz as int,
                        d,
                    );
                    if k < i {
                        assert(list@[k].0 < list@[i as int].0);
                        assert(r[e] == list@[k].0);
                        assert(e != c);
                    }
                }
                assert forall|x: int, y: int, z: int|
                    #![trigger cell_place(x, y, z, d)]
                    0 <= x < d && 0 <= y < d && 0 <= z < d implies entries@[cell_place(x, y, z, d)]
                    == SLOT_TABLE_SENTINEL || entries@[cell_place(x, y, z, d)] == slot_at(
                    r,
                    origin_x + x,
                    origin_y + y,
                    origin_z + z,
                ) by {
                    cell_place_injective(x, y, z, lx as int, ly as int, lz as int, d);
                    if cell_place(x, y, z, d) != idx {
                        assert(entries@[cell_place(x, y, z, d)] == before[cell_place(x, y, z, d)]);
                    }
                }
            }
        }
        i = i + 1;
    }
    proof {
        assert forall|x: int, y: int, z: int|
            #![trigger cell_place(x, y, z, d)]
            0 <= x < d && 0 <= y < d && 0 <= z < d implies entries@[cell_place(x, y, z, d)]
            == slot_at(r, origin_x + x, origin_y + y, origin_z + z) by {
            let c = ChunkCoord {
                x: (origin_x + x) as i32,
                y: (origin_y + y) as i32,
                z: (origin_z + z) as i32,
            };
            if c.x == origin_x + x && c.y == origin_y + y && c.z == origin_z + z
                && r.contains_key(c) {
                assert(list@.contains((r[c], c)));
                let k = choose|k: int| 0 <= k < list@.len() && list@[k] == (r[c], c);
                assert(within(list@[k].1, origin_x, origin_y, origin_z, d));
                assert(place_of(list@[k].1, origin_x, origin_y, origin_z, d) == cell_place(
                    x,
                    y,
                    z,
                    d,
                ));
            }
        }
    }
    SlotTable { origin_x, origin_y, origin_z, dim, entries }
}

/// Whether a coordinate lies in the table's cube.
spec fn within(c: ChunkCoord, ox: i32, oy: i32, oz: i32, d: int) -> bool {
    0 <= c.x - ox < d && 0 <= c.y - oy < d && 0 <= c.z - oz < d
}

/// Place of a coordinate in the table.
spec fn place_of(c: ChunkCoord, ox: i32, oy: i32, oz: i32, d: int) -> int {
    cell_place(c.x - ox, c.y - oy, c.z - oz, d)
}

proof fn lemma_table_size(dim: u32)
    requires
        dim <= 1024,
    ensures
        0 <= dim * dim <= 1_048_576,
        0 <= dim * dim * dim <= 1_073_741_824,
{
    assert(0 <= dim * dim <= 1_048_576) by (nonlinear_arith)
        requires
            0 <= dim <= 1024,
    ;
    assert(0 <= dim * dim * dim <= 1_073_741_824) by (nonlinear_arith)
        requires
            0 <= dim * dim <= 1_048_576,
            0 <= dim <= 1024,
    ;
}

proof fn lemma_place_steps(x: int, y: int, z: int, d: int)
    requires
        0 <= x < d <= 1024,
        0 <= y < d,
        0 <= z < d,
    ensures
        0 <= d * z <= 1_048_576,
        0 <= y + d * z <= 1_049_600,
        0 <= d * (y + d * z) <= 1_074_790_400,
{
    assert(0 <= d * z <= 1_048_576) by (nonlinear_arith)
        requires
            0 <= z < d <= 1024,
    ;
    assert(0 <= d * (y + d * z) <= 1_074_790_400) by (nonlinear_arith)
        requires
            0 <= y + d * z <= 1_049_600,
            0 <= d <= 1024,
    ;
}

/// The chunk that a probe slot serves.
#[derive(Debug, Clone, Copy, PartialEq, Eq, Structural)]
pub struct ProbeHome {
    pub x: i32,
    pub y: i32,
    pub z: i32,
    /// Chunk slot, or -1 for an unallocated probe slot.
    pub chunk_slot: i32,
}

/// Tables between chunk slots and probe slots.
#[derive(Debug)]
pub struct ProbeTables {
    /// Probe slot of each chunk slot, or the sentinel.
    pub chunk_to_probe: Vec<u32>,
    /// Chunk of each probe slot.
    pub probe_to_chunk: Vec<ProbeHome>,
}

/// The home of an unallocated probe slot.
pub open spec fn no_home() -> ProbeHome {
    ProbeHome { x: 0, y: 0, z: 0, chunk_slot: (-1) as i32 }
}

/// The home of a probe slot that serves a chunk.
pub open spec fn home_of(c: ChunkCoord, chunk_slot: u32) -> ProbeHome {
    ProbeHome { x: c.x, y: c.y, z: c.z, chunk_slot: chunk_slot as i32 }
}

/// Whether a chunk has both a chunk slot and a probe slot.
pub open spec fn linked(chunks: Residents, probes: Residents, c: ChunkCoord) -> bool {
    chunks.contains_key(c) && probes.contains_key(c)
}

impl ProbeTables {
    /// The tables link exactly the chunks that have both slots.
    pub open spec fn are_tables_of(&self, chunks: Residents, probes: Residents) -> bool {
        &&& self.chunk_to_probe@.len() == MAX_SLOTS
        &&& self.probe_to_chunk@.len() == V3_MAX_PROBE_SLOTS
        &&& forall|c: ChunkCoord| #[trigger]
            linked(chunks, probes, c) ==> self.chunk_to_probe@[chunks[c] as int] == probes[c]
                && self.probe_to_chunk@[probes[c] as int] == home_of(c, chunks[c])
        &&& forall|s: int|
            0 <= s < MAX_SLOTS ==> (#[trigger] self.chunk_to_probe@[s]) == V3_PROBE_SENTINEL
                || exists|c: ChunkCoord| #[trigger] linked(chunks, probes, c) && chunks[c] == s
        &&& forall|p: int|
            0 <= p < V3_MAX_PROBE_SLOTS ==> (#[trigger] self.probe_to_chunk@[p]) == no_home()
                || exists|c: ChunkCoord| #[trigger] linked(chunks, probes, c) && probes[c] == p
    }
}

/// The two tables are inverse to each other.
pub proof fn probe_tables_are_inverse(t: ProbeTables, chunks: Residents, probes: Residents)
    requires
        t.are_tables_of(chunks, probes),
        forall|c: ChunkCoord| #[trigger] chunks.contains_key(c) ==> chunks[c] < MAX_SLOTS,
        forall|c: ChunkCoord| #[trigger] probes.contains_key(c) ==> probes[c] < V3_MAX_PROBE_SLOTS,
    ensures
        forall|s: int|
            0 <= s < MAX_SLOTS && (#[trigger] t.chunk_to_probe@[s]) != V3_PROBE_SENTINEL ==> {
                &&& t.chunk_to_probe@[s] < V3_MAX_PROBE_SLOTS
                &&& t.probe_to_chunk@[t.chunk_to_probe@[s] as int].chunk_slot == s
            },
        forall|p: int|
            0 <= p < V3_MAX_PROBE_SLOTS && (#[trigger] t.probe_to_chunk@[p]).chunk_slot != -1 ==> {
                &&& 0 <= t.probe_to_chunk@[p].chunk_slot < MAX_SLOTS
                &&& t.chunk_to_probe@[t.probe_to_chunk@[p].chunk_slot as int] == p
            },
{
    assert forall|s: int|
        0 <= s < MAX_SLOTS && (#[trigger] t.chunk_to_probe@[s]) != V3_PROBE_SENTINEL implies {
        &&& t.chunk_to_probe@[s] < V3_MAX_PROBE_SLOTS
        &&& t.probe_to_chunk@[t.chunk_to_probe@[s] as int].chunk_slot == s
    } by {
        let c = choose|c: ChunkCoord| #[trigger] linked(chunks, probes, c) && chunks[c] == s;
        assert(linked(chunks, probes, c));
    }
    assert forall|p: int|
        0 <= p < V3_MAX_PROBE_SLOTS && (#[trigger] t.probe_to_chunk@[p]).chunk_slot != -1 implies {
        &&& 0 <= t.probe_to_chunk@[p].chunk_slot < MAX_SLOTS
        &&& t.chunk_to_probe@[t.probe_to_chunk@[p].chunk_slot as int] == p
    } by {
        let c = choose|c: ChunkCoord| #[trigger] linked(chunks, probes, c) && probes[c] == p;
        assert(linked(chunks, probes, c));
    }
}

/// Tables in which no chunk has a probe slot.
pub fn empty_probe_tables() -> (t: ProbeTables)
    ensures
        t.are_tables_of(Map::empty(), Map::empty()),
        t.chunk_to_probe@ == Seq::new(MAX_SLOTS as nat, |i: int| V3_PROBE_SENTINEL),
        t.probe_to_chunk@ == Seq::new(V3_MAX_PROBE_SLOTS as nat, |i: int| no_home()),
{
    let chunk_to_probe: Vec<u32> = vec![V3_PROBE_SENTINEL; MAX_SLOTS as usize];
    let probe_to_chunk: Vec<ProbeHome> = vec![
        ProbeHome { x: 0, y: 0, z: 0, chunk_slot: -1 };
        V3_MAX_PROBE_SLOTS as usize
    ];
    proof {
        assert(chunk_to_probe@ =~= Seq::new(MAX_SLOTS as nat, |i: int| V3_PROBE_SENTINEL));
        assert(probe_to_chunk@ =~= Seq::new(V3_MAX_PROBE_SLOTS as nat, |i: int| no_home()));
    }
    ProbeTables { chunk_to_probe, probe_to_chunk }
}

/// Build the tables between chunk slots and probe slots.
pub fn build_probe_tables(chunks: &SlotAllocator, probes: &ProbeSlotAllocator) -> (t: ProbeTables)
    requires
        chunks.wf(),
        probes.wf(),
    ensures
        t.are_tables_of(chunks@.resident, probes@.resident),
{
    let mut t = empty_probe_tables();
    let list = chunks.allocated_slots();
    let ghost cr = chunks@.resident;
    let ghost pr = probes@.resident;
    proof {
        chunks.wf_partitions();
        probes.wf_partitions();
    }
    let mut i: usize = 0;
    while i < list.len()
        invariant
            0 <= i <= list@.len(),
            probes.wf(),
            pr == probes@.resident,
            slot_directory::lists_resident(list@, cr),
            pool::slots_partitioned(MAX_SLOTS as int, chunks@),
            pool::slots_partitioned(V3_MAX_PROBE_SLOTS as int, probes@),
            cr == chunks@.resident,
            t.chunk_to_probe@.len() == MAX_SLOTS,
            t.probe_to_chunk@.len() == V3_MAX_PROBE_SLOTS,
            forall|k: int|
                0 <= k < i && pr.contains_key((#[trigger] list@[k]).1) ==> t.chunk_to_probe@[
                list@[k].0 as int] == pr[list@[k].1] && t.probe_to_chunk@[pr[list@[k].1] as int]
                    == home_of(list@[k].1, list@[k].0),
            forall|s: int|
                0 <= s < MAX_SLOTS ==> (#[trigger] t.chunk_to_probe@[s]) == V3_PROBE_SENTINEL
                    || exists|c: ChunkCoord| #[trigger] linked(cr, pr, c) && cr[c] == s,
            forall|p: int|
                0 <= p < V3_MAX_PROBE_SLOTS ==> (#[trigger] t.probe_to_chunk@[p]) == no_home()
                    || exists|c: ChunkCoord| #[trigger] linked(cr, pr, c) && pr[c] == p,
        decreases list@.len() - i,
    {
        let chunk_slot: u32 = list[i].0;
        let coord: ChunkCoord = list[i].1;
        assert(list@[i as int] == (chunk_slot, coord));
        assert(cr.contains_key(coord) && cr[coord] == chunk_slot);
        if let Some(probe_slot) = probes.lookup(&coord) {
            proof {
                assert(linked(cr, pr, coord));
                assert(pr[coord] == probe_slot && probe_slot < V3_MAX_PROBE_SLOTS);
                assert(chunk_slot < MAX_SLOTS);
            }
            let ghost before = t;
            t.chunk_to_probe.set(chunk_slot as usize, probe_slot);
            t.probe_to_chunk.set(
                probe_slot as usize,
                ProbeHome { x: coord.x, y: coord.y, z: coord.z, chunk_slot: chunk_slot as i32 },
            );
            proof {
                assert forall|k: int|
                    0 <= k <= i && pr.contains_key((#[trigger] list@[k]).1) implies t.chunk_to_probe@[
                list@[k].0 as int] == pr[list@[k].1] && t.probe_to_chunk@[pr[list@[k].1] as int]
                    == home_of(list@[k].1, list@[k].0) by {
                    if k < i {
                        assert(list@[k].0 < list@[i as int].0);
                        assert(cr.contains_key(list@[k].1) && cr[list@[k].1] == list@[k].0);
                        assert(list@[k].1 != coord);
                        if pr[list@[k].1] == probe_slot {
                            assert(pr.contains_key(list@[k].1) && pr.contains_key(coord));
                        }
                    }
                }
                assert forall|s: int| 0 <= s < MAX_SLOTS implies (#[trigger] t.chunk_to_probe@[s])
                    == V3_PROBE_SENTINEL || exists|c: ChunkCoord| #[trigger]
                    linked(cr, pr, c) && cr[c] == s by {
                    if s != chunk_slot {
                        assert(t.chunk_to_probe@[s] == before.chunk_to_probe@[s]);
                    }
                }
                assert forall|p: int| 0 <= p < V3_MAX_PROBE_SLOTS implies (
                #[trigger] t.probe_to_chunk@[p]) == no_home() || exists|c: ChunkCoord| #[trigger]
                    linked(cr, pr, c) && pr[c] == p by {
                    if p != probe_slot {
                        assert(t.probe_to_chunk@[p] == before.probe_to_chunk@[p]);
                    }
                }
            }
        }
        i = i + 1;
    }
    proof {
        assert forall|c: ChunkCoord| #[trigger] linked(cr, pr, c) implies t.chunk_to_probe@[
        cr[c] as int] == pr[c] && t.probe_to_chunk@[pr[c] as int] == home_of(c, cr[c]) by {
            assert(list@.contains((cr[c], c)));
            let k = choose|k: int| 0 <= k < list@.len() && list@[k] == (cr[c], c);
            assert(pr.contains_key(list@[k].1));
        }
    }
    t
}

/// The residents lie in the middle of the table: along an axis as many cells stay free
/// below the least as above the greatest, but for what rounding moves.
pub proof fn table_is_centred(r: Residents, axis: int, dim: int, c: ChunkCoord)
    requires
        r.contains_key(c),
        r.dom().finite(),
        dim >= 0,
    ensures
        ({
            let below = least(r, axis) - table_origin(r, axis, dim);
            let above = table_origin(r, axis, dim) + dim - 1 - greatest(r, axis);
            0 <= below - above + dim % 2 <= 2
        }),
{
    least_exists(r, axis, c);
    assert(r.dom().contains(c));
}

/// A chunk with both slots is found from either side: its chunk slot leads to its
/// probe slot, and its probe slot to its coordinate and chunk slot.
pub proof fn linked_chunks_are_found(
    t: ProbeTables,
    chunks: Residents,
    probes: Residents,
    c: ChunkCoord,
)
    requires
        t.are_tables_of(chunks, probes),
        chunks.contains_key(c) && probes.contains_key(c),
        chunks[c] <= i32::MAX,
    ensures
        t.chunk_to_probe@[chunks[c] as int] == probes[c],
        ({
            let h = t.probe_to_chunk@[probes[c] as int];
            h.x == c.x && h.y == c.y && h.z == c.z && h.chunk_slot == chunks[c]
        }),
{
    assert(linked(chunks, probes, c));
}

/// A chunk slot without a chunk that has both slots leads nowhere.
pub proof fn unlinked_slots_lead_nowhere(
    t: ProbeTables,
    chunks: Residents,
    probes: Residents,
    s: int,
)
    requires
        t.are_tables_of(chunks, probes),
        0 <= s,
        forall|c: ChunkCoord| #[trigger]
            chunks.contains_key(c) && chunks[c] == s ==> !probes.contains_key(c),
        forall|c: ChunkCoord| #[trigger]
            probes.contains_key(c) && probes[c] == s ==> !chunks.contains_key(c),
    ensures
        s < 4096 ==> t.chunk_to_probe@[s] == 0xFFFF_FFFF,
        s < 64 ==> t.probe_to_chunk@[s].chunk_slot == -1,
        s < 64 ==> t.probe_to_chunk@[s].x == 0 && t.probe_to_chunk@[s].y == 0 && t.probe_to_chunk@[s].z
            == 0,
{
    if s < 4096 && t.chunk_to_probe@[s] != V3_PROBE_SENTINEL {
        let c = choose|c: ChunkCoord| #[trigger] linked(chunks, probes, c) && chunks[c] == s;
        assert(chunks.contains_key(c));
    }
    if s < 64 && t.probe_to_chunk@[s] != no_home() {
        let c = choose|c: ChunkCoord| #[trigger] linked(chunks, probes, c) && probes[c] == s;
        assert(probes.contains_key(c));
    }
}

/// Chunks within half the range of coordinates fit a table of any usual side.
pub proof fn ordinary_scenes_fit(r: Residents, dim: int)
    requires
        r.dom().finite(),
        0 <= dim <= 1024,
        forall|c: ChunkCoord| #[trigger]
            r.contains_key(c) ==> -0x3FFF_0000 <= c.x <= 0x3FFF_0000 && -0x3FFF_0000 <= c.y
                <= 0x3FFF_0000 && -0x3FFF_0000 <= c.z <= 0x3FFF_0000,
    ensures
        table_fits(r, dim),
{
    if r.dom() !~= Set::empty() {
        let c = choose|c: ChunkCoord| r.dom().contains(c);
        assert(r.contains_key(c));
        lemma_axis_fits(r, 0, dim, c);
        lemma_axis_fits(r, 1, dim, c);
        lemma_axis_fits(r, 2, dim, c);
    }
}

proof fn lemma_axis_fits(r: Residents, axis: int, dim: int, c: ChunkCoord)
    requires
        r.dom().finite(),
        r.contains_key(c),
        0 <= dim <= 1024,
        forall|c: ChunkCoord| #[trigger]
            r.contains_key(c) ==> -0x3FFF_0000 <= along(c, axis) <= 0x3FFF_0000,
    ensures
        axis_fits(r, axis, dim),
{
    least_exists(r, axis, c);
    let lo = choose|d: ChunkCoord| #[trigger] r.contains_key(d) && along(d, axis) == least(r, axis);
    let hi = choose|d: ChunkCoord| #[trigger]
        r.contains_key(d) && along(d, axis) == greatest(r, axis);
    assert(r.contains_key(lo) && r.contains_key(hi));
}

} // verus!
