//! Greedy merging of equal cells of a square plane into rectangles.

use vstd::prelude::*;

use crate::bits;
use crate::pool::CS;

verus! {

/// Cells of a plane: CS x CS.
pub const PLANE_CELLS: usize = 3844;

/// Words of a bitmap over a plane.
pub const PLANE_WORDS: usize = 121;

/// A rectangle of merged cells: `width` cells from `a` on along the first
/// axis, `height` cells from `b` on along the second.
#[derive(Debug, Clone, Copy, PartialEq, Eq, Structural)]
pub struct Rect {
    pub a: u32,
    pub b: u32,
    pub width: u32,
    pub height: u32,
    pub material: u32,
}

impl Rect {
    pub open spec fn contains(self, a: int, b: int) -> bool {
        self.a <= a < self.a + self.width && self.b <= b < self.b + self.height
    }
}

pub open spec fn in_plane(a: int, b: int) -> bool {
    0 <= a < CS && 0 <= b < CS
}

/// The place of a cell in the flat order, the second axis running fastest.
pub open spec fn cell_index(a: int, b: int) -> int {
    a * CS + b
}

/// Content of a cell: its material where a face is visible, else None.
pub open spec fn cell(cells: Seq<Option<u32>>, a: int, b: int) -> Option<u32> {
    cells[cell_index(a, b)]
}

/// Whether one of the rectangles contains the cell.
pub open spec fn covered(rects: Seq<Rect>, a: int, b: int) -> bool {
    exists|k: int| 0 <= k < rects.len() && (#[trigger] rects[k]).contains(a, b)
}

/// Whether the cell can still join a rectangle of material `m`.
pub open spec fn joinable(
    cells: Seq<Option<u32>>,
    rects: Seq<Rect>,
    a: int,
    b: int,
    m: u32,
) -> bool {
    in_plane(a, b) && cell(cells, a, b) == Some(m) && !covered(rects, a, b)
}

/// Whether a whole row of `width` cells from (a, b) along the first axis can
/// join.
pub open spec fn row_joinable(
    cells: Seq<Option<u32>>,
    rects: Seq<Rect>,
    a: int,
    b: int,
    width: int,
    m: u32,
) -> bool {
    forall|i: int| 0 <= i < width ==> #[trigger] joinable(cells, rects, a + i, b, m)
}

/// `r` is the rectangle that greedy merging adds next to `rects`: it starts at
/// the first visible cell that is not covered yet, extends as far as possible
/// along the first axis, and then, at that width, as far as possible along the
/// second.
pub open spec fn is_next(cells: Seq<Option<u32>>, rects: Seq<Rect>, r: Rect) -> bool {
    &&& r.width >= 1 && r.height >= 1
    &&& forall|a: int, b: int| #[trigger]
        in_plane(a, b) && cell(cells, a, b) is Some && cell_index(a, b) < cell_index(
            r.a as int,
            r.b as int,
        ) ==> covered(rects, a, b)
    &&& row_joinable(cells, rects, r.a as int, r.b as int, r.width as int, r.material)
    &&& !joinable(cells, rects, r.a + r.width, r.b as int, r.material)
    &&& forall|j: int|
        0 <= j < r.height ==> #[trigger] row_joinable(
            cells,
            rects,
            r.a as int,
            r.b + j,
            r.width as int,
            r.material,
        )
    &&& !row_joinable(
        cells,
        rects,
        r.a as int,
        r.b + r.height,
        r.width as int,
        r.material,
    )
}

/// `rects` is what greedy merging has added after `rects.len()` steps.
pub open spec fn is_greedy_prefix(cells: Seq<Option<u32>>, rects: Seq<Rect>) -> bool {
    forall|k: int| 0 <= k < rects.len() ==> is_next(cells, rects.take(k), #[trigger] rects[k])
}

/// `rects` is the complete result of greedy merging.
pub open spec fn is_greedy_cover(cells: Seq<Option<u32>>, rects: Seq<Rect>) -> bool {
    &&& is_greedy_prefix(cells, rects)
    &&& forall|a: int, b: int| #[trigger]
        in_plane(a, b) && cell(cells, a, b) is Some ==> covered(rects, a, b)
}

/// The result of greedy merging.
pub open spec fn greedy_cover(cells: Seq<Option<u32>>) -> Seq<Rect> {
    choose|rects: Seq<Rect>| is_greedy_cover(cells, rects)
}

// Facts on coverage.

proof fn lemma_covered_push(rects: Seq<Rect>, r: Rect)
    ensures
        forall|a: int, b: int| #[trigger]
            covered(rects.push(r), a, b) == (covered(rects, a, b) || r.contains(a, b)),
{
    let more = rects.push(r);
    assert forall|a: int, b: int| #[trigger]
        covered(more, a, b) == (covered(rects, a, b) || r.contains(a, b)) by {
        if covered(rects, a, b) {
            let k = choose|k: int| 0 <= k < rects.len() && (#[trigger] rects[k]).contains(a, b);
            assert(more[k].contains(a, b));
        }
        if r.contains(a, b) {
            assert(more[rects.len() as int].contains(a, b));
        }
    }
}

proof fn lemma_prefix_push(cells: Seq<Option<u32>>, rects: Seq<Rect>, r: Rect)
    requires
        is_greedy_prefix(cells, rects),
        is_next(cells, rects, r),
    ensures
        is_greedy_prefix(cells, rects.push(r)),
{
    let more = rects.push(r);
    assert forall|k: int| 0 <= k < more.len() implies is_next(
        cells,
        more.take(k),
        #[trigger] more[k],
    ) by {
        assert(more.take(k) =~= rects.take(k));
        if k == rects.len() {
            assert(rects.take(k) =~= rects);
        }
    }
}

/// The next rectangle is determined.
proof fn lemma_next_unique(cells: Seq<Option<u32>>, rects: Seq<Rect>, x: Rect, y: Rect)
    requires
        is_next(cells, rects, x),
        is_next(cells, rects, y),
    ensures
        x == y,
{
    assert(joinable(cells, rects, x.a + 0, x.b as int, x.material));
    assert(joinable(cells, rects, y.a + 0, y.b as int, y.material));
    assert(in_plane(x.a as int, x.b as int) && in_plane(y.a as int, y.b as int));
    assert(cell_index(x.a as int, x.b as int) == cell_index(y.a as int, y.b as int));
    assert(x.a == y.a && x.b == y.b);
    if x.width < y.width {
        assert(joinable(cells, rects, y.a + x.width, y.b as int, y.material));
    }
    if y.width < x.width {
        assert(joinable(cells, rects, x.a + y.width, x.b as int, x.material));
    }
    if x.height < y.height {
        assert(row_joinable(
            cells,
            rects,
            y.a as int,
            y.b + x.height,
            y.width as int,
            y.material,
        ));
    }
    if y.height < x.height {
        assert(row_joinable(
            cells,
            rects,
            x.a as int,
            x.b + y.height,
            x.width as int,
            x.material,
        ));
    }
}

/// Greedy merging has one result only.
pub proof fn greedy_cover_unique(cells: Seq<Option<u32>>, x: Seq<Rect>, y: Seq<Rect>)
    requires
        is_greedy_cover(cells, x),
        is_greedy_cover(cells, y),
    ensures
        x == y,
{
    let n = if x.len() <= y.len() {
        x.len() as int
    } else {
        y.len() as int
    };
    lemma_common_prefix(cells, x, y, n);
    if x.len() < y.len() {
        assert(x.take(n) =~= x);
        lemma_nothing_after_cover(cells, x, y[n]);
    }
    if y.len() < x.len() {
        assert(y.take(n) =~= y);
        lemma_nothing_after_cover(cells, y, x[n]);
    }
    assert(x.take(n) =~= x && y.take(n) =~= y);
}

proof fn lemma_common_prefix(cells: Seq<Option<u32>>, x: Seq<Rect>, y: Seq<Rect>, n: int)
    requires
        is_greedy_prefix(cells, x),
        is_greedy_prefix(cells, y),
        0 <= n <= x.len(),
        n <= y.len(),
    ensures
        x.take(n) == y.take(n),
    decreases n,
{
    if n > 0 {
        lemma_common_prefix(cells, x, y, n - 1);
        lemma_next_unique(cells, x.take(n - 1), x[n - 1], y[n - 1]);
        assert(x.take(n) =~= x.take(n - 1).push(x[n - 1]));
        assert(y.take(n) =~= y.take(n - 1).push(y[n - 1]));
    } else {
        assert(x.take(n) =~= y.take(n));
    }
}

proof fn lemma_nothing_after_cover(cells: Seq<Option<u32>>, rects: Seq<Rect>, r: Rect)
    requires
        is_greedy_cover(cells, rects),
    ensures
        !is_next(cells, rects, r),
{
    if is_next(cells, rects, r) {
        assert(joinable(cells, rects, r.a + 0, r.b as int, r.material));
        assert(in_plane(r.a as int, r.b as int));
    }
}

/// The least number from `lo` on with a property that `hi` has.
proof fn least(p: spec_fn(int) -> bool, lo: int, hi: int) -> (i: int)
    requires
        lo <= hi,
        p(hi),
    ensures
        lo <= i <= hi,
        p(i),
        forall|j: int| lo <= j < i ==> !#[trigger] p(j),
    decreases hi - lo,
{
    if p(lo) {
        lo
    } else {
        least(p, lo + 1, hi)
    }
}

proof fn lemma_next_exists(cells: Seq<Option<u32>>, rects: Seq<Rect>, a: int, b: int) -> (r: Rect)
    requires
        in_plane(a, b),
        cell(cells, a, b) is Some,
        !covered(rects, a, b),
        forall|x: int, y: int| #[trigger]
            in_plane(x, y) && cell(cells, x, y) is Some && cell_index(x, y) < cell_index(a, b)
                ==> covered(rects, x, y),
    ensures
        is_next(cells, rects, r),
        r.contains(a, b),
{
    let m = cell(cells, a, b)->0;
    assert(joinable(cells, rects, a + 0, b, m));
    let stop = |w: int| !joinable(cells, rects, a + w, b, m);
    assert(stop(CS - a));
    let width = least(stop, 1, CS - a);
    assert forall|i: int| 0 <= i < width implies #[trigger] joinable(
        cells,
        rects,
        a + i,
        b,
        m,
    ) by {
        if i >= 1 {
            assert(!stop(i));
        }
    }
    let end = |h: int| !row_joinable(cells, rects, a, b + h, width, m);
    assert(!joinable(cells, rects, a + 0, b + (CS - b), m));
    assert(end(CS - b));
    let height = least(end, 1, CS - b);
    let r = Rect {
        a: a as u32,
        b: b as u32,
        width: width as u32,
        height: height as u32,
        material: m,
    };
    assert forall|j: int| 0 <= j < height implies #[trigger] row_joinable(
        cells,
        rects,
        a,
        b + j,
        width,
        m,
    ) by {
        if j >= 1 {
            assert(!end(j));
        } else {
            assert(b + j == b);
        }
    }
    assert(stop(width));
    assert(end(height));
    r
}

proof fn lemma_cover_extends(cells: Seq<Option<u32>>, rects: Seq<Rect>, i: int) -> (full: Seq<
    Rect,
>)
    requires
        is_greedy_prefix(cells, rects),
        0 <= i <= PLANE_CELLS,
        forall|x: int, y: int| #[trigger]
            in_plane(x, y) && cell(cells, x, y) is Some && cell_index(x, y) < i ==> covered(
                rects,
                x,
                y,
            ),
    ensures
        is_greedy_cover(cells, full),
    decreases PLANE_CELLS - i,
{
    if i == PLANE_CELLS {
        rects
    } else {
        let a = i / (CS as int);
        let b = i % (CS as int);
        assert(in_plane(a, b) && cell_index(a, b) == i);
        if cell(cells, a, b) is Some && !covered(rects, a, b) {
            let r = lemma_next_exists(cells, rects, a, b);
            lemma_prefix_push(cells, rects, r);
            lemma_covered_push(rects, r);
            assert forall|x: int, y: int| #[trigger]
                in_plane(x, y) && cell(cells, x, y) is Some && cell_index(x, y) < i
                    + 1 implies covered(rects.push(r), x, y) by {
                if cell_index(x, y) == i {
                    assert(x == a && y == b);
                }
            }
            lemma_cover_extends(cells, rects.push(r), i + 1)
        } else {
            assert forall|x: int, y: int| #[trigger]
                in_plane(x, y) && cell(cells, x, y) is Some && cell_index(x, y) < i
                    + 1 implies covered(rects, x, y) by {
                if cell_index(x, y) == i {
                    assert(x == a && y == b);
                }
            }
            lemma_cover_extends(cells, rects, i + 1)
        }
    }
}

/// Greedy merging has a result on every plane, and `greedy_cover` is it.
pub proof fn greedy_cover_exists(cells: Seq<Option<u32>>)
    ensures
        is_greedy_cover(cells, greedy_cover(cells)),
{
    let full = lemma_cover_extends(cells, Seq::empty(), 0);
}

/// A rectangle of a greedy cover stays in the plane and holds visible cells of
/// its own material only.
pub proof fn rects_are_uniform(cells: Seq<Option<u32>>, rects: Seq<Rect>, k: int, a: int, b: int)
    requires
        is_greedy_prefix(cells, rects),
        0 <= k < rects.len(),
        rects[k].contains(a, b),
    ensures
        in_plane(a, b),
        cell(cells, a, b) == Some(rects[k].material),
{
    let r = rects[k];
    let prev = rects.take(k);
    assert(row_joinable(cells, prev, r.a as int, r.b + (b - r.b), r.width as int, r.material));
    assert(joinable(cells, prev, r.a + (a - r.a), r.b + (b - r.b), r.material));
}

/// No two rectangles of a greedy cover share a cell.
pub proof fn rects_are_disjoint(
    cells: Seq<Option<u32>>,
    rects: Seq<Rect>,
    j: int,
    k: int,
    a: int,
    b: int,
)
    requires
        is_greedy_prefix(cells, rects),
        0 <= j < rects.len(),
        0 <= k < rects.len(),
        rects[j].contains(a, b),
        rects[k].contains(a, b),
    ensures
        j == k,
{
    if j < k {
        lemma_earlier_disjoint(cells, rects, j, k, a, b);
    } else if k < j {
        lemma_earlier_disjoint(cells, rects, k, j, a, b);
    }
}

proof fn lemma_earlier_disjoint(
    cells: Seq<Option<u32>>,
    rects: Seq<Rect>,
    j: int,
    k: int,
    a: int,
    b: int,
)
    requires
        is_greedy_prefix(cells, rects),
        0 <= j < k < rects.len(),
        rects[j].contains(a, b),
    ensures
        !rects[k].contains(a, b),
{
    let r = rects[k];
    let prev = rects.take(k);
    if r.contains(a, b) {
        assert(row_joinable(cells, prev, r.a as int, r.b + (b - r.b), r.width as int, r.material));
        assert(joinable(cells, prev, r.a + (a - r.a), r.b + (b - r.b), r.material));
        assert(prev[j].contains(a, b));
    }
}

/// The visible cells of a plane.
pub open spec fn visible_cells(cells: Seq<Option<u32>>) -> Set<(int, int)> {
    Set::new(|c: (int, int)| in_plane(c.0, c.1) && cell(cells, c.0, c.1) is Some)
}

/// The summed areas of rectangles.
pub open spec fn total_area(rects: Seq<Rect>) -> int
    decreases rects.len(),
{
    if rects.len() == 0 {
        0
    } else {
        total_area(rects.drop_last()) + rects.last().width * rects.last().height
    }
}

spec fn column_cells(a: int, b: int, height: int) -> Set<(int, int)> {
    Set::new(|c: (int, int)| c.0 == a && b <= c.1 < b + height)
}

spec fn block_cells(a: int, b: int, width: int, height: int) -> Set<(int, int)> {
    Set::new(|c: (int, int)| a <= c.0 < a + width && b <= c.1 < b + height)
}

spec fn covered_cells(rects: Seq<Rect>) -> Set<(int, int)> {
    Set::new(|c: (int, int)| covered(rects, c.0, c.1))
}

proof fn lemma_column_len(a: int, b: int, height: int)
    requires
        height >= 0,
    ensures
        column_cells(a, b, height).finite(),
        column_cells(a, b, height).len() == height,
    decreases height,
{
    if height == 0 {
        assert(column_cells(a, b, height) =~= Set::empty());
    } else {
        lemma_column_len(a, b, height - 1);
        assert(column_cells(a, b, height) =~= column_cells(a, b, height - 1).insert(
            (a, b + height - 1),
        ));
    }
}

proof fn lemma_block_len(a: int, b: int, width: int, height: int)
    requires
        width >= 0,
        height >= 0,
    ensures
        block_cells(a, b, width, height).finite(),
        block_cells(a, b, width, height).len() == width * height,
    decreases width,
{
    if width == 0 {
        assert(block_cells(a, b, width, height) =~= Set::empty());
        assert(0 * height == 0);
    } else {
        lemma_block_len(a, b, width - 1, height);
        lemma_column_len(a + width - 1, b, height);
        let rest = block_cells(a, b, width - 1, height);
        let column = column_cells(a + width - 1, b, height);
        assert(block_cells(a, b, width, height) =~= rest.union(column));
        assert(rest.disjoint(column));
        vstd::set_lib::lemma_set_disjoint_lens(rest, column);
        assert(width * height == (width - 1) * height + height) by (nonlinear_arith);
    }
}

proof fn lemma_covered_len(cells: Seq<Option<u32>>, rects: Seq<Rect>)
    requires
        is_greedy_prefix(cells, rects),
    ensures
        covered_cells(rects).finite(),
        covered_cells(rects).len() == total_area(rects),
    decreases rects.len(),
{
    if rects.len() == 0 {
        assert(covered_cells(rects) =~= Set::empty());
    } else {
        let prev = rects.drop_last();
        let r = rects.last();
        assert forall|k: int| 0 <= k < prev.len() implies is_next(
            cells,
            prev.take(k),
            #[trigger] prev[k],
        ) by {
            assert(prev.take(k) =~= rects.take(k));
            assert(prev[k] == rects[k]);
        }
        lemma_covered_len(cells, prev);
        let block = block_cells(r.a as int, r.b as int, r.width as int, r.height as int);
        lemma_block_len(r.a as int, r.b as int, r.width as int, r.height as int);
        lemma_covered_push(prev, r);
        assert(prev.push(r) =~= rects);
        assert(covered_cells(rects) =~= covered_cells(prev).union(block));
        assert(covered_cells(prev).disjoint(block)) by {
            assert forall|c: (int, int)| covered_cells(prev).contains(c) implies !block.contains(
                c,
            ) by {
                let j = choose|j: int|
                    0 <= j < prev.len() && (#[trigger] prev[j]).contains(c.0, c.1);
                assert(rects[j].contains(c.0, c.1));
                lemma_earlier_disjoint(cells, rects, j, rects.len() - 1, c.0, c.1);
            }
        }
        vstd::set_lib::lemma_set_disjoint_lens(covered_cells(prev), block);
    }
}

/// The rectangles of a greedy cover have, in sum, as many cells as are visible:
/// merging neither loses a face nor doubles one.
pub proof fn areas_sum_to_visible(cells: Seq<Option<u32>>, rects: Seq<Rect>)
    requires
        is_greedy_cover(cells, rects),
    ensures
        visible_cells(cells).finite(),
        visible_cells(cells).len() == total_area(rects),
{
    lemma_covered_len(cells, rects);
    assert(visible_cells(cells) =~= covered_cells(rects)) by {
        assert forall|c: (int, int)| covered_cells(rects).contains(c) implies visible_cells(
            cells,
        ).contains(c) by {
            let k = choose|k: int|
                0 <= k < rects.len() && (#[trigger] rects[k]).contains(c.0, c.1);
            rects_are_uniform(cells, rects, k, c.0, c.1);
        }
        assert forall|c: (int, int)| visible_cells(cells).contains(c) implies covered_cells(
            rects,
        ).contains(c) by {
            assert(in_plane(c.0, c.1));
        }
    }
}

proof fn lemma_len_at_most_area(rects: Seq<Rect>)
    requires
        forall|k: int|
            0 <= k < rects.len() ==> (#[trigger] rects[k]).width >= 1 && rects[k].height >= 1,
    ensures
        rects.len() <= total_area(rects),
    decreases rects.len(),
{
    if rects.len() > 0 {
        let r = rects.last();
        lemma_len_at_most_area(rects.drop_last());
        assert(r.width * r.height >= 1) by (nonlinear_arith)
            requires
                r.width >= 1,
                r.height >= 1,
        ;
    }
}

/// A greedy cover has at most as many rectangles as the plane has cells.
pub proof fn cover_len_bound(cells: Seq<Option<u32>>)
    ensures
        greedy_cover(cells).len() <= PLANE_CELLS,
{
    let rects = greedy_cover(cells);
    greedy_cover_exists(cells);
    areas_sum_to_visible(cells, rects);
    assert forall|k: int| 0 <= k < rects.len() implies (#[trigger] rects[k]).width >= 1
        && rects[k].height >= 1 by {
        assert(is_next(cells, rects.take(k), rects[k]));
    }
    lemma_len_at_most_area(rects);
    lemma_block_len(0, 0, CS as int, CS as int);
    vstd::set_lib::lemma_len_subset(
        visible_cells(cells),
        block_cells(0, 0, CS as int, CS as int),
    );
}

// Executable merging.

/// One bit per cell of a plane.
pub struct ProcessedBitmap {
    words: [u32; 121],
}

impl ProcessedBitmap {
    pub closed spec fn has(&self, a: int, b: int) -> bool {
        bits::bit32(self.words[cell_index(a, b) / 32], cell_index(a, b) % 32)
    }

    /// A bitmap with no cell set.
    pub fn new() -> (p: Self)
        ensures
            forall|a: int, b: int| in_plane(a, b) ==> !#[trigger] p.has(a, b),
    {
        proof {
            bits::lemma_zero32();
        }
        ProcessedBitmap { words: [0u32; 121] }
    }

    /// Whether a cell is set.
    pub fn get(&self, a: u32, b: u32) -> (r: bool)
        requires
            in_plane(a as int, b as int),
        ensures
            r == self.has(a as int, b as int),
    {
        let idx: u32 = a * CS + b;
        bits::test_bit32(self.words[(idx / 32) as usize], idx % 32)
    }

    /// Set a cell.
    pub fn set(&mut self, a: u32, b: u32)
        requires
            in_plane(a as int, b as int),
        ensures
            forall|x: int, y: int|
                in_plane(x, y) ==> #[trigger] final(self).has(x, y) == (old(self).has(x, y) || (x
                    == a && y == b)),
    {
        let idx: u32 = a * CS + b;
        let word: usize = (idx / 32) as usize;
        let w: u32 = self.words[word];
        let bit: u32 = idx % 32;
        self.words[word] = w | (1u32 << bit);
        proof {
            bits::lemma_set_bit32(w, bit);
            assert forall|x: int, y: int|
                in_plane(x, y) implies #[trigger] self.has(x, y) == (old(self).has(x, y) || (x == a
                && y == b)) by {
                let i = cell_index(x, y);
                if i == idx {
                    assert(x == a && y == b);
                }
                if i / 32 == word {
                    assert(bits::bit32(w | (1u32 << bit), i % 32) == (i % 32 == bit || bits::bit32(
                        w,
                        i % 32,
                    )));
                }
            }
        }
    }
}

/// `done` marks exactly the cells that `rects` cover.
pub open spec fn marks(done: ProcessedBitmap, rects: Seq<Rect>) -> bool {
    forall|a: int, b: int|
        in_plane(a, b) ==> #[trigger] done.has(a, b) == covered(rects, a, b)
}

/// Whether the cell can still join a rectangle of material `m`.
fn can_join(
    cells: &Vec<Option<u32>>,
    done: &ProcessedBitmap,
    rects: Ghost<Seq<Rect>>,
    a: u32,
    b: u32,
    m: u32,
) -> (r: bool)
    requires
        cells@.len() == PLANE_CELLS,
        in_plane(a as int, b as int),
        marks(*done, rects@),
    ensures
        r == joinable(cells@, rects@, a as int, b as int, m),
{
    if done.get(a, b) {
        return false;
    }
    match cells[(a * CS + b) as usize] {
        Some(c) => c == m,
        None => false,
    }
}

/// Whether a whole row can join.
fn row_can_join(
    cells: &Vec<Option<u32>>,
    done: &ProcessedBitmap,
    rects: Ghost<Seq<Rect>>,
    a: u32,
    b: u32,
    width: u32,
    m: u32,
) -> (r: bool)
    requires
        cells@.len() == PLANE_CELLS,
        a + width <= CS,
        b < CS,
        marks(*done, rects@),
    ensures
        r == row_joinable(cells@, rects@, a as int, b as int, width as int, m),
{
    let mut i: u32 = 0;
    while i < width
        invariant
            cells@.len() == PLANE_CELLS,
            a + width <= CS,
            b < CS,
            i <= width,
            marks(*done, rects@),
            row_joinable(cells@, rects@, a as int, b as int, i as int, m),
        decreases width - i,
    {
        if !can_join(cells, done, rects, a + i, b, m) {
            assert(!joinable(cells@, rects@, a + i, b as int, m));
            return false;
        }
        i = i + 1;
    }
    true
}

/// The rectangle that greedy merging adds from a given first cell.
fn next_rect(
    cells: &Vec<Option<u32>>,
    done: &ProcessedBitmap,
    rects: Ghost<Seq<Rect>>,
    a: u32,
    b: u32,
    m: u32,
) -> (r: Rect)
    requires
        cells@.len() == PLANE_CELLS,
        marks(*done, rects@),
        joinable(cells@, rects@, a as int, b as int, m),
        forall|x: int, y: int| #[trigger]
            in_plane(x, y) && cell(cells@, x, y) is Some && cell_index(x, y) < cell_index(
                a as int,
                b as int,
            ) ==> covered(rects@, x, y),
    ensures
        is_next(cells@, rects@, r),
        r.a == a && r.b == b,
        r.a + r.width <= CS && r.b + r.height <= CS,
{
    let mut width: u32 = 1;
    while a + width < CS && can_join(cells, done, rects, a + width, b, m)
        invariant
            cells@.len() == PLANE_CELLS,
            marks(*done, rects@),
            width >= 1,
            a + width <= CS,
            b < CS,
            row_joinable(cells@, rects@, a as int, b as int, width as int, m),
        ensures
            !joinable(cells@, rects@, a + width, b as int, m),
        decreases CS - width,
    {
        width = width + 1;
    }
    let mut height: u32 = 1;
    while b + height < CS && row_can_join(cells, done, rects, a, b + height, width, m)
        invariant
            cells@.len() == PLANE_CELLS,
            marks(*done, rects@),
            width >= 1,
            height >= 1,
            a + width <= CS,
            b + height <= CS,
            !joinable(cells@, rects@, a + 0, CS as int, m),
            forall|j: int|
                0 <= j < height ==> #[trigger] row_joinable(
                    cells@,
                    rects@,
                    a as int,
                    b + j,
                    width as int,
                    m,
                ),
        ensures
            !row_joinable(cells@, rects@, a as int, b + height, width as int, m),
        decreases CS - height,
    {
        height = height + 1;
    }
    Rect { a, b, width, height, material: m }
}

/// Set all cells of a rectangle.
fn mark_rect(done: &mut ProcessedBitmap, r: &Rect)
    requires
        r.a + r.width <= CS,
        r.b + r.height <= CS,
    ensures
        forall|x: int, y: int|
            in_plane(x, y) ==> #[trigger] final(done).has(x, y) == (old(done).has(x, y)
                || r.contains(x, y)),
{
    let ghost before = *done;
    let mut i: u32 = 0;
    while i < r.width
        invariant
            r.a + r.width <= CS,
            r.b + r.height <= CS,
            i <= r.width,
            forall|x: int, y: int|
                in_plane(x, y) ==> #[trigger] done.has(x, y) == (before.has(x, y) || (r.contains(
                    x,
                    y,
                ) && x < r.a + i)),
        decreases r.width - i,
    {
        let mut j: u32 = 0;
        while j < r.height
            invariant
                r.a + r.width <= CS,
                r.b + r.height <= CS,
                i < r.width,
                j <= r.height,
                forall|x: int, y: int|
                    in_plane(x, y) ==> #[trigger] done.has(x, y) == (before.has(x, y)
                        || (r.contains(x, y) && (x < r.a + i || (x == r.a + i && y < r.b + j)))),
            decreases r.height - j,
        {
            done.set(r.a + i, r.b + j);
            j = j + 1;
        }
        i = i + 1;
    }
}

/// Merge the visible cells of a plane greedily into rectangles.
pub fn greedy_rects(cells: &Vec<Option<u32>>) -> (rects: Vec<Rect>)
    requires
        cells@.len() == PLANE_CELLS,
    ensures
        rects@ == greedy_cover(cells@),
        is_greedy_cover(cells@, rects@),
{
    let mut done = ProcessedBitmap::new();
    let mut rects: Vec<Rect> = Vec::new();
    let mut a: u32 = 0;
    while a < CS
        invariant
            cells@.len() == PLANE_CELLS,
            a <= CS,
            marks(done, rects@),
            is_greedy_prefix(cells@, rects@),
            forall|x: int, y: int| #[trigger]
                in_plane(x, y) && cell(cells@, x, y) is Some && cell_index(x, y) < a * CS
                    ==> covered(rects@, x, y),
        decreases CS - a,
    {
        let mut b: u32 = 0;
        while b < CS
            invariant
                cells@.len() == PLANE_CELLS,
                a < CS,
                b <= CS,
                marks(done, rects@),
                is_greedy_prefix(cells@, rects@),
                forall|x: int, y: int| #[trigger]
                    in_plane(x, y) && cell(cells@, x, y) is Some && cell_index(x, y) < a * CS + b
                        ==> covered(rects@, x, y),
            decreases CS - b,
        {
            let ghost prev = rects@;
            if !done.get(a, b) {
                if let Some(m) = cells[(a * CS + b) as usize] {
                    let r: Rect = next_rect(cells, &done, Ghost(rects@), a, b, m);
                    mark_rect(&mut done, &r);
                    rects.push(r);
                    proof {
                        lemma_prefix_push(cells@, prev, r);
                        lemma_covered_push(prev, r);
                    }
                }
            }
            proof {
                assert forall|x: int, y: int| #[trigger]
                    in_plane(x, y) && cell(cells@, x, y) is Some && cell_index(x, y) < a * CS + b
                        + 1 implies covered(rects@, x, y) by {
                    if cell_index(x, y) == a * CS + b {
                        assert(x == a && y == b);
                        assert(done.has(x, y));
                    } else {
                        assert(covered(prev, x, y));
                    }
                }
            }
            b = b + 1;
        }
        a = a + 1;
    }
    proof {
        greedy_cover_exists(cells@);
        greedy_cover_unique(cells@, rects@, greedy_cover(cells@));
    }
    rects
}

/// A rectangle is as wide as it can be, and then as high as it can be: the cell behind
/// its first row, and some cell of the row behind its last one, lies outside the plane,
/// differs from it, or belongs to an earlier rectangle.
pub proof fn rects_cannot_grow(cells: Seq<Option<u32>>, rects: Seq<Rect>, k: int) -> (i: int)
    requires
        is_greedy_prefix(cells, rects),
        0 <= k < rects.len(),
    ensures
        ({
            let r = rects[k];
            let earlier = rects.take(k);
            let a = r.a + r.width;
            let b = r.b + r.height;
            &&& a >= CS || cells[a * CS + r.b] != Some(r.material) || covered(earlier, a, r.b as int)
            &&& 0 <= i < r.width
            &&& b >= CS || cells[(r.a + i) * CS + b] != Some(r.material) || covered(
                earlier,
                r.a + i,
                b,
            )
        }),
{
    let r = rects[k];
    let earlier = rects.take(k);
    assert(is_next(cells, earlier, r));
    assert(joinable(cells, earlier, r.a + 0, r.b as int, r.material));
    assert(joinable(cells, earlier, r.a + (r.width - 1), r.b as int, r.material));
    assert(row_joinable(
        cells,
        earlier,
        r.a as int,
        r.b + (r.height - 1),
        r.width as int,
        r.material,
    ));
    assert(joinable(cells, earlier, r.a + 0, r.b + (r.height - 1), r.material));
    let i = choose|i: int|
        0 <= i < r.width && !#[trigger] joinable(cells, earlier, r.a + i, r.b + r.height, r.material);
    assert(joinable(cells, earlier, r.a + i, r.b as int, r.material));
    i
}

/// Rectangles come in the order of their first cells.
pub proof fn rects_come_in_order(cells: Seq<Option<u32>>, rects: Seq<Rect>, j: int, k: int)
    requires
        is_greedy_prefix(cells, rects),
        0 <= j < k < rects.len(),
    ensures
        rects[j].a < rects[k].a || (rects[j].a == rects[k].a && rects[j].b < rects[k].b),
{
    let p = rects[j];
    let q = rects[k];
    assert(is_next(cells, rects.take(j), p));
    assert(is_next(cells, rects.take(k), q));
    assert(joinable(cells, rects.take(j), p.a + 0, p.b as int, p.material));
    assert(joinable(cells, rects.take(k), q.a + 0, q.b as int, q.material));
    let early = rects.take(j);
    let late = rects.take(k);
    assert(in_plane(q.a as int, q.b as int) && in_plane(p.a as int, p.b as int));
    if cell_index(q.a as int, q.b as int) < cell_index(p.a as int, p.b as int) {
        assert(covered(early, q.a as int, q.b as int));
        let i = choose|i: int|
            0 <= i < early.len() && (#[trigger] early[i]).contains(q.a as int, q.b as int);
        assert(late[i] == early[i]);
        assert(covered(late, q.a as int, q.b as int));
    }
    if cell_index(q.a as int, q.b as int) == cell_index(p.a as int, p.b as int) {
        assert(late[j] == p);
        assert(p.contains(q.a as int, q.b as int));
        assert(covered(late, q.a as int, q.b as int));
    }
}

/// A plane of one material is one rectangle.
pub proof fn uniform_planes_merge_to_one(cells: Seq<Option<u32>>, m: u32)
    requires
        cells.len() == PLANE_CELLS,
        forall|i: int| 0 <= i < cells.len() ==> (#[trigger] cells[i]) == Some(m),
    ensures
        greedy_cover(cells).len() == 1,
        ({
            let r = greedy_cover(cells)[0];
            r.a == 0 && r.b == 0 && r.width == 62 && r.height == 62 && r.material == m
        }),
{
    let r = Rect { a: 0, b: 0, width: 62, height: 62, material: m };
    let one = seq![r];
    let none = one.take(0);
    assert forall|a: int, b: int| in_plane(a, b) implies #[trigger] joinable(cells, none, a, b, m) by {
        assert(cells[cell_index(a, b)] == Some(m));
    }
    assert(!joinable(cells, none, r.a + 0, r.b + r.height, m));
    assert(!row_joinable(cells, none, r.a as int, r.b + r.height, r.width as int, m));
    assert forall|j: int| 0 <= j < 62 implies #[trigger] row_joinable(cells, none, r.a as int, r.b + j, r.width as int, m) by {
        assert forall|i: int| 0 <= i < 62 implies #[trigger] joinable(cells, none, r.a + i, r.b + j, m) by {
            assert(in_plane(r.a + i, r.b + j));
        }
    }
    assert(row_joinable(cells, none, r.a as int, r.b + 0, r.width as int, m));
    assert(is_next(cells, none, r));
    assert(is_greedy_prefix(cells, one));
    assert forall|a: int, b: int| #[trigger]
        in_plane(a, b) && cell(cells, a, b) is Some implies covered(one, a, b) by {
        assert(one[0].contains(a, b));
    }
    assert(is_greedy_cover(cells, one));
    greedy_cover_unique(cells, one, greedy_cover(cells));
}

} // verus!
