//! Priority queue for chunk mesh rebuilds.

use std::cmp::Ordering;

use vstd::prelude::*;

use crate::coord::ChunkCoord;

verus! {

/// Rebuild request with priority.
#[derive(Clone, Copy, Debug)]
pub struct RebuildRequest {
    /// Chunk coordinate to rebuild.
    pub coord: ChunkCoord,
    /// Priority as the bit pattern of a 32-bit float; higher is more urgent.
    pub priority: u32,
    /// Version of voxel data when the request was made.
    pub data_version: u64,
}

/// Requests are equal where they are for the same chunk.
impl PartialEq for RebuildRequest {
    fn eq(&self, other: &Self) -> (b: bool) {
        self.coord == other.coord
    }
}

impl vstd::std_specs::cmp::PartialEqSpecImpl for RebuildRequest {
    open spec fn obeys_eq_spec() -> bool {
        true
    }

    open spec fn eq_spec(&self, other: &Self) -> bool {
        self.coord == other.coord
    }
}

impl Eq for RebuildRequest {

}

/// Order of two requests: by priority. One without a number for its priority
/// comes neither before nor after another.
pub open spec fn order_of(a: RebuildRequest, b: RebuildRequest) -> Ordering {
    if !is_number(a.priority) || !is_number(b.priority) {
        Ordering::Equal
    } else if priority_key(a.priority) < priority_key(b.priority) {
        Ordering::Less
    } else if priority_key(a.priority) > priority_key(b.priority) {
        Ordering::Greater
    } else {
        Ordering::Equal
    }
}

/// Requests are ordered by priority alone.
impl PartialOrd for RebuildRequest {
    fn partial_cmp(&self, other: &Self) -> (o: Option<Ordering>) {
        if !has_number(self.priority) || !has_number(other.priority) {
            return Some(Ordering::Equal);
        }
        let a: i64 = key_of(self.priority);
        let b: i64 = key_of(other.priority);
        if a < b {
            Some(Ordering::Less)
        } else if a > b {
            Some(Ordering::Greater)
        } else {
            Some(Ordering::Equal)
        }
    }
}

impl vstd::std_specs::cmp::PartialOrdSpecImpl for RebuildRequest {
    open spec fn obeys_partial_cmp_spec() -> bool {
        true
    }

    open spec fn partial_cmp_spec(&self, other: &Self) -> Option<Ordering> {
        Some(order_of(*self, *other))
    }
}

/// Whether a bit pattern is a number, infinities included.
fn has_number(bits: u32) -> (b: bool)
    ensures
        b == is_number(bits),
{
    bits % 0x8000_0000 <= 0x7F80_0000
}

/// Whether a bit pattern is a number, infinities included.
pub open spec fn is_number(bits: u32) -> bool {
    bits as int % 0x8000_0000 <= 0x7F80_0000
}

/// A key by which bit patterns of floats are ordered as their values are. Both
/// zeros have the same key. Patterns that are no numbers come outside the
/// infinities, on the side of their sign.
pub open spec fn priority_key(bits: u32) -> int {
    if bits < 0x8000_0000 {
        bits as int
    } else {
        0x8000_0000 - bits
    }
}

fn key_of(bits: u32) -> (k: i64)
    ensures
        k == priority_key(bits),
{
    if bits < 0x8000_0000 {
        bits as i64
    } else {
        0x8000_0000i64 - bits as i64
    }
}

/// Magnitude of a finite float, in units of the smallest one.
#[verifier::opaque]
pub open spec fn magnitude(bits: int) -> nat {
    let exponent = bits / 0x80_0000 % 0x100;
    let fraction = bits % 0x80_0000;
    if exponent == 0 {
        fraction as nat
    } else {
        ((0x80_0000 + fraction) as nat) * vstd::arithmetic::power2::pow2((exponent - 1) as nat)
    }
}

/// Value of a finite float, in units of the smallest positive one.
pub open spec fn scaled_value(bits: u32) -> int {
    if bits < 0x8000_0000 {
        magnitude(bits as int) as int
    } else {
        -(magnitude(bits - 0x8000_0000) as int)
    }
}

/// What a queue holds: the priority and data version of each pending chunk.
pub type Pending = Map<ChunkCoord, (u32, u64)>;

/// Priority queue for chunk rebuilds. A chunk is in the queue at most once.
pub struct RebuildQueue {
    requests: Vec<RebuildRequest>,
    pending: Ghost<Pending>,
}

impl View for RebuildQueue {
    type V = Pending;

    closed spec fn view(&self) -> Pending {
        self.pending@
    }
}

/// The list holds the pending requests, each once.
spec fn lists_pending(list: Seq<RebuildRequest>, p: Pending) -> bool {
    &&& forall|i: int, j: int|
        0 <= i < j < list.len() ==> (#[trigger] list[i]).coord != (#[trigger] list[j]).coord
    &&& forall|i: int|
        0 <= i < list.len() ==> p.contains_key((#[trigger] list[i]).coord) && p[list[i].coord] == (
            list[i].priority,
            list[i].data_version,
        )
    &&& forall|c: ChunkCoord| #[trigger]
        p.contains_key(c) ==> list.contains(
            RebuildRequest { coord: c, priority: p[c].0, data_version: p[c].1 },
        )
}

/// A request is as urgent as any pending one.
pub open spec fn is_most_urgent(p: Pending, r: RebuildRequest) -> bool {
    &&& p.contains_key(r.coord)
    &&& p[r.coord] == (r.priority, r.data_version)
    &&& forall|c: ChunkCoord| #[trigger]
        p.contains_key(c) ==> priority_key(p[c].0) <= priority_key(r.priority)
}

/// What is pending after a chunk was added.
pub open spec fn after_enqueue(
    p: Pending,
    coord: ChunkCoord,
    priority: u32,
    data_version: u64,
) -> Pending {
    if p.contains_key(coord) {
        p
    } else {
        p.insert(coord, (priority, data_version))
    }
}

/// What is pending after a chunk got a new priority and data version.
pub open spec fn after_update(
    p: Pending,
    coord: ChunkCoord,
    priority: u32,
    data_version: u64,
) -> Pending {
    if p.contains_key(coord) {
        p.insert(coord, (priority, data_version))
    } else {
        p
    }
}

impl RebuildQueue {
    pub closed spec fn wf(&self) -> bool {
        &&& lists_pending(self.requests@, self.pending@)
        &&& self.pending@.dom().finite()
        &&& self.pending@.dom().len() == self.requests@.len()
    }

    /// A queue holds finitely many chunks.
    pub proof fn domain_is_finite(&self)
        requires
            self.wf(),
        ensures
            self@.dom().finite(),
    {
    }

    /// Create a new empty rebuild queue.
    pub fn new() -> (q: Self)
        ensures
            q.wf(),
            q@ == Map::<ChunkCoord, (u32, u64)>::empty(),
    {
        RebuildQueue { requests: Vec::new(), pending: Ghost(Map::empty()) }
    }

    /// Create an empty queue with room for some requests.
    pub fn with_capacity(capacity: usize) -> (q: Self)
        ensures
            q.wf(),
            q@ == Map::<ChunkCoord, (u32, u64)>::empty(),
    {
        RebuildQueue { requests: Vec::with_capacity(capacity), pending: Ghost(Map::empty()) }
    }

    /// Place of a chunk's request.
    fn position(&self, coord: &ChunkCoord) -> (r: Option<usize>)
        requires
            self.wf(),
        ensures
            match r {
                Some(i) => i < self.requests@.len() && self.requests@[i as int].coord == *coord
                    && self.pending@.contains_key(*coord),
                None => !self.pending@.contains_key(*coord),
            },
    {
        let mut i: usize = 0;
        while i < self.requests.len()
            invariant
                i <= self.requests@.len(),
                self.wf(),
                forall|k: int| 0 <= k < i ==> (#[trigger] self.requests@[k]).coord != *coord,
            decreases self.requests@.len() - i,
        {
            let c: ChunkCoord = self.requests[i].coord;
            if c == *coord {
                assert(self.pending@.contains_key(self.requests@[i as int].coord));
                return Some(i);
            }
            i = i + 1;
        }
        proof {
            if self.pending@.contains_key(*coord) {
                let p = self.pending@[*coord];
                let e = RebuildRequest { coord: *coord, priority: p.0, data_version: p.1 };
                assert(self.requests@.contains(e));
                let k = choose|k: int| 0 <= k < self.requests@.len() && self.requests@[k] == e;
                assert(self.requests@[k].coord == *coord);
            }
        }
        None
    }

    /// Add a request for a chunk that has none.
    fn add_request(&mut self, r: RebuildRequest)
        requires
            old(self).wf(),
            !old(self)@.contains_key(r.coord),
        ensures
            final(self).wf(),
            final(self)@ == old(self)@.insert(r.coord, (r.priority, r.data_version)),
    {
        let ghost before = self.requests@;
        let ghost old_pending = self.pending@;
        self.requests.push(r);
        self.pending = Ghost(self.pending@.insert(r.coord, (r.priority, r.data_version)));
        proof {
            let list = self.requests@;
            let p = self.pending@;
            assert forall|i: int, j: int| 0 <= i < j < list.len() implies (
            #[trigger] list[i]).coord != (#[trigger] list[j]).coord by {
                assert(old_pending.contains_key(before[i].coord));
            }
            assert forall|i: int| 0 <= i < list.len() implies p.contains_key(
                (#[trigger] list[i]).coord,
            ) && p[list[i].coord] == (list[i].priority, list[i].data_version) by {
                if i < before.len() {
                    assert(list[i] == before[i]);
                    assert(old_pending.contains_key(before[i].coord));
                }
            }
            assert forall|c: ChunkCoord| #[trigger] p.contains_key(c) implies list.contains(
                RebuildRequest { coord: c, priority: p[c].0, data_version: p[c].1 },
            ) by {
                if c == r.coord {
                    assert(list[before.len() as int] == r);
                } else {
                    assert(old_pending.contains_key(c));
                    let e = RebuildRequest { coord: c, priority: p[c].0, data_version: p[c].1 };
                    assert(before.contains(e));
                    let k = choose|k: int| 0 <= k < before.len() && before[k] == e;
                    assert(list[k] == e);
                }
            }
        }
    }

    /// Take out the request at a place.
    fn take_request(&mut self, at: usize) -> (r: RebuildRequest)
        requires
            old(self).wf(),
            at < old(self).requests@.len(),
        ensures
            final(self).wf(),
            r == old(self).requests@[at as int],
            old(self)@.contains_key(r.coord),
            final(self)@ == old(self)@.remove(r.coord),
    {
        let ghost before = self.requests@;
        let ghost old_pending = self.pending@;
        let r = self.requests.remove(at);
        self.pending = Ghost(self.pending@.remove(r.coord));
        proof {
            let list = self.requests@;
            let p = self.pending@;
            assert(list =~= before.remove(at as int));
            assert(old_pending.contains_key(before[at as int].coord));
            assert forall|i: int, j: int| 0 <= i < j < list.len() implies (
            #[trigger] list[i]).coord != (#[trigger] list[j]).coord by {
                let a = if i < at {
                    i
                } else {
                    i + 1
                };
                let b = if j < at {
                    j
                } else {
                    j + 1
                };
                assert(list[i] == before[a] && list[j] == before[b]);
            }
            assert forall|i: int| 0 <= i < list.len() implies p.contains_key(
                (#[trigger] list[i]).coord,
            ) && p[list[i].coord] == (list[i].priority, list[i].data_version) by {
                let a = if i < at {
                    i
                } else {
                    i + 1
                };
                assert(list[i] == before[a]);
                assert(old_pending.contains_key(before[a].coord));
                assert(before[a].coord != before[at as int].coord);
            }
            assert forall|c: ChunkCoord| #[trigger] p.contains_key(c) implies list.contains(
                RebuildRequest { coord: c, priority: p[c].0, data_version: p[c].1 },
            ) by {
                assert(old_pending.contains_key(c));
                let e = RebuildRequest { coord: c, priority: p[c].0, data_version: p[c].1 };
                assert(before.contains(e));
                let k = choose|k: int| 0 <= k < before.len() && before[k] == e;
                let i = if k < at {
                    k
                } else {
                    k - 1
                };
                assert(list[i] == e);
            }
        }
        r
    }

    /// Place of a most urgent request.
    fn most_urgent(&self) -> (r: Option<usize>)
        requires
            self.wf(),
        ensures
            match r {
                Some(i) => i < self.requests@.len() && is_most_urgent(
                    self@,
                    self.requests@[i as int],
                ),
                None => self@.dom() == Set::<ChunkCoord>::empty(),
            },
    {
        if self.requests.len() == 0 {
            proof {
                assert(self.pending@.dom() =~= Set::empty());
            }
            return None;
        }
        let mut best: usize = 0;
        let mut i: usize = 1;
        while i < self.requests.len()
            invariant
                1 <= i <= self.requests@.len(),
                best < i,
                forall|k: int|
                    0 <= k < i ==> priority_key((#[trigger] self.requests@[k]).priority)
                        <= priority_key(self.requests@[best as int].priority),
            decreases self.requests@.len() - i,
        {
            if key_of(self.requests[i].priority) > key_of(self.requests[best].priority) {
                best = i;
            }
            i = i + 1;
        }
        proof {
            let p = self.pending@;
            let r = self.requests@[best as int];
            assert(p.contains_key(r.coord));
            assert forall|c: ChunkCoord| #[trigger] p.contains_key(c) implies priority_key(p[c].0)
                <= priority_key(r.priority) by {
                let e = RebuildRequest { coord: c, priority: p[c].0, data_version: p[c].1 };
                assert(self.requests@.contains(e));
                let k = choose|k: int| 0 <= k < self.requests@.len() && self.requests@[k] == e;
                assert(self.requests@[k].priority == p[c].0);
            }
        }
        Some(best)
    }

    /// Add a chunk with a priority. Returns false, and changes nothing, where
    /// the chunk is already in the queue.
    pub fn enqueue(&mut self, coord: ChunkCoord, priority: u32, data_version: u64) -> (added: bool)
        requires
            old(self).wf(),
        ensures
            final(self).wf(),
            added == !old(self)@.contains_key(coord),
            final(self)@ == (if added {
                old(self)@.insert(coord, (priority, data_version))
            } else {
                old(self)@
            }),
            final(self)@ == after_enqueue(old(self)@, coord, priority, data_version),
    {
        match self.position(&coord) {
            Some(_) => false,
            None => {
                self.add_request(RebuildRequest { coord, priority, data_version });
                true
            },
        }
    }

    /// Take out a most urgent request; none where the queue is empty.
    pub fn pop(&mut self) -> (r: Option<RebuildRequest>)
        requires
            old(self).wf(),
        ensures
            final(self).wf(),
            match r {
                Some(r) => is_most_urgent(old(self)@, r) && final(self)@ == old(self)@.remove(
                    r.coord,
                ),
                None => old(self)@.dom() == Set::<ChunkCoord>::empty() && final(self)@ == old(
                    self)@,
            },
    {
        match self.most_urgent() {
            Some(i) => Some(self.take_request(i)),
            None => None,
        }
    }

    /// Look at a most urgent request.
    pub fn peek(&self) -> (r: Option<RebuildRequest>)
        requires
            self.wf(),
        ensures
            match r {
                Some(r) => is_most_urgent(self@, r),
                None => self@.dom() == Set::<ChunkCoord>::empty(),
            },
    {
        match self.most_urgent() {
            Some(i) => Some(self.requests[i]),
            None => None,
        }
    }

    /// Remove a chunk. Returns whether it was in the queue.
    pub fn remove(&mut self, coord: ChunkCoord) -> (was: bool)
        requires
            old(self).wf(),
        ensures
            final(self).wf(),
            was == old(self)@.contains_key(coord),
            final(self)@ == old(self)@.remove(coord),
    {
        match self.position(&coord) {
            Some(i) => {
                let _ = self.take_request(i);
                true
            },
            None => {
                assert(self.pending@.remove(coord) =~= self.pending@);
                false
            },
        }
    }

    /// Whether a chunk is in the queue.
    pub fn contains(&self, coord: ChunkCoord) -> (b: bool)
        requires
            self.wf(),
        ensures
            b == self@.contains_key(coord),
    {
        self.position(&coord).is_some()
    }

    /// Number of pending rebuilds.
    pub fn len(&self) -> (n: usize)
        requires
            self.wf(),
        ensures
            n == self@.dom().len(),
    {
        self.requests.len()
    }

    /// Whether the queue is empty.
    pub fn is_empty(&self) -> (b: bool)
        requires
            self.wf(),
        ensures
            b == (self@.dom() == Set::<ChunkCoord>::empty()),
    {
        proof {
            if self.pending@.dom().len() == 0 {
                assert(self.pending@.dom() =~= Set::empty());
            }
        }
        self.requests.len() == 0
    }

    /// Drop all pending rebuilds.
    pub fn clear(&mut self)
        ensures
            final(self).wf(),
            final(self)@ == Map::<ChunkCoord, (u32, u64)>::empty(),
    {
        *self = RebuildQueue::new();
    }

    /// Give a chunk that is in the queue a new priority and data version.
    pub fn update_priority(&mut self, coord: ChunkCoord, priority: u32, data_version: u64)
        requires
            old(self).wf(),
        ensures
            final(self).wf(),
            final(self)@ == (if old(self)@.contains_key(coord) {
                old(self)@.insert(coord, (priority, data_version))
            } else {
                old(self)@
            }),
            final(self)@ == after_update(old(self)@, coord, priority, data_version),
    {
        match self.position(&coord) {
            Some(i) => {
                let _ = self.take_request(i);
                self.add_request(RebuildRequest { coord, priority, data_version });
                assert(self.pending@ =~= old(self)@.insert(coord, (priority, data_version)));
            },
            None => {},
        }
    }

    /// The chunks in the queue, in no particular order, each once.
    pub fn iter(&self) -> (v: Vec<ChunkCoord>)
        requires
            self.wf(),
        ensures
            v@.no_duplicates(),
            forall|c: ChunkCoord| #[trigger] v@.contains(c) <==> self@.contains_key(c),
    {
        let mut v: Vec<ChunkCoord> = Vec::new();
        let mut i: usize = 0;
        while i < self.requests.len()
            invariant
                i <= self.requests@.len(),
                v@.len() == i,
                forall|k: int| 0 <= k < i ==> #[trigger] v@[k] == self.requests@[k].coord,
            decreases self.requests@.len() - i,
        {
            v.push(self.requests[i].coord);
            i = i + 1;
        }
        proof {
            let p = self.pending@;
            let list = self.requests@;
            assert forall|a: int, b: int| 0 <= a < v@.len() && 0 <= b < v@.len() && a != b implies v@[
            a] != v@[b] by {
                assert(v@[a] == list[a].coord && v@[b] == list[b].coord);
                if a < b {
                    assert(list[a].coord != list[b].coord);
                } else {
                    assert(list[b].coord != list[a].coord);
                }
            }
            assert forall|c: ChunkCoord| #[trigger] v@.contains(c) <==> self@.contains_key(c) by {
                if v@.contains(c) {
                    let k = choose|k: int| 0 <= k < v@.len() && v@[k] == c;
                    assert(p.contains_key(list[k].coord));
                }
                if p.contains_key(c) {
                    let e = RebuildRequest { coord: c, priority: p[c].0, data_version: p[c].1 };
                    assert(list.contains(e));
                    let k = choose|k: int| 0 <= k < list.len() && list[k] == e;
                    assert(v@[k] == c);
                }
            }
        }
        v
    }
}

impl Default for RebuildQueue {
    fn default() -> (q: Self)
        ensures
            q.wf(),
            q@ == Map::<ChunkCoord, (u32, u64)>::empty(),
    {
        RebuildQueue::new()
    }
}

proof fn lemma_magnitude_steps(a: int, b: int)
    requires
        0 <= a < b < 0x7F80_0000,
    ensures
        magnitude(a) < magnitude(b),
{
    reveal(magnitude);
    let ea = a / 0x80_0000;
    let eb = b / 0x80_0000;
    let fa = a % 0x80_0000;
    let fb = b % 0x80_0000;
    assert(0 <= ea <= eb < 0xFF);
    assert(a / 0x80_0000 % 0x100 == ea && b / 0x80_0000 % 0x100 == eb);
    if ea == eb {
        assert(fa < fb);
        if ea > 0 {
            let p = vstd::arithmetic::power2::pow2((ea - 1) as nat) as int;
            vstd::arithmetic::power2::lemma_pow2_pos((ea - 1) as nat);
            assert((0x80_0000 + fa) * p < (0x80_0000 + fb) * p) by (nonlinear_arith)
                requires
                    fa < fb,
                    p > 0,
            ;
        }
    } else {
        let q = vstd::arithmetic::power2::pow2((eb - 1) as nat) as int;
        vstd::arithmetic::power2::lemma_pow2_pos((eb - 1) as nat);
        assert(0x80_0000 * q <= (0x80_0000 + fb) * q) by (nonlinear_arith)
            requires
                fb >= 0,
                q > 0,
        ;
        assert(0x80_0000 <= 0x80_0000 * q) by (nonlinear_arith)
            requires
                q >= 1,
        ;
        if ea > 0 {
            let p = vstd::arithmetic::power2::pow2((ea - 1) as nat) as int;
            vstd::arithmetic::power2::lemma_pow2_pos((ea - 1) as nat);
            lemma_double((ea - 1) as nat, (eb - 1) as nat);
            assert((0x80_0000 + fa) * p < 0x100_0000 * p) by (nonlinear_arith)
                requires
                    fa < 0x80_0000,
                    p > 0,
            ;
            assert(0x100_0000 * p == 0x80_0000 * (2 * p)) by (nonlinear_arith);
            assert(0x80_0000 * (2 * p) <= 0x80_0000 * q) by (nonlinear_arith)
                requires
                    2 * p <= q,
            ;
        }
    }
}

/// A larger power of two is at least twice a smaller one.
proof fn lemma_double(a: nat, b: nat)
    requires
        a < b,
    ensures
        2 * vstd::arithmetic::power2::pow2(a) <= vstd::arithmetic::power2::pow2(b),
    decreases b,
{
    vstd::arithmetic::power2::lemma_pow2_unfold(b);
    if a < b - 1 {
        lemma_double(a, (b - 1) as nat);
    }
}

/// Keys order finite priorities as their values are ordered.
pub proof fn keys_order_values(a: u32, b: u32)
    requires
        a as int % 0x8000_0000 < 0x7F80_0000,
        b as int % 0x8000_0000 < 0x7F80_0000,
    ensures
        priority_key(a) < priority_key(b) <==> scaled_value(a) < scaled_value(b),
        priority_key(a) == priority_key(b) <==> scaled_value(a) == scaled_value(b),
{
    let ma = a as int % 0x8000_0000;
    let mb = b as int % 0x8000_0000;
    if ma < mb {
        lemma_magnitude_steps(ma, mb);
    }
    if mb < ma {
        lemma_magnitude_steps(mb, ma);
    }
    if 0 < ma {
        lemma_magnitude_steps(0, ma);
    }
    if 0 < mb {
        lemma_magnitude_steps(0, mb);
    }
    assert(magnitude(0) == 0) by {
        reveal(magnitude);
    }
}

/// An infinite priority comes before every finite one.
pub proof fn infinity_is_most_urgent(a: u32)
    requires
        is_number(a),
    ensures
        priority_key(a) <= priority_key(0x7F80_0000),
        priority_key(0xFF80_0000) <= priority_key(a),
{
}

/// A queue is emptied in order of urgency: what is taken out later is at most
/// as urgent as what was taken out before.
pub proof fn pops_come_in_order(p: Pending, first: RebuildRequest, second: RebuildRequest)
    requires
        is_most_urgent(p, first),
        is_most_urgent(p.remove(first.coord), second),
    ensures
        priority_key(second.priority) <= priority_key(first.priority),
        second.coord != first.coord,
{
    assert(p.contains_key(second.coord));
}

/// Whether a bit pattern is a finite number.
pub open spec fn is_finite(bits: u32) -> bool {
    bits as int % 0x8000_0000 < 0x7F80_0000
}

/// Requests with finite priorities are ordered as the values of these are; the chunk
/// and the data version do not matter.
pub proof fn order_follows_values(a: RebuildRequest, b: RebuildRequest)
    requires
        is_finite(a.priority),
        is_finite(b.priority),
    ensures
        order_of(a, b) == Ordering::Less <==> scaled_value(a.priority) < scaled_value(b.priority),
        order_of(a, b) == Ordering::Greater <==> scaled_value(a.priority) > scaled_value(
            b.priority,
        ),
        order_of(a, b) == Ordering::Equal <==> scaled_value(a.priority) == scaled_value(b.priority),
{
    keys_order_values(a.priority, b.priority);
    keys_order_values(b.priority, a.priority);
}

/// A most urgent request with finite priorities around it has the greatest value.
pub proof fn most_urgent_has_the_greatest_value(p: Pending, r: RebuildRequest, c: ChunkCoord)
    requires
        is_most_urgent(p, r),
        p.contains_key(c),
        is_finite(r.priority),
        is_finite(p[c].0),
    ensures
        scaled_value(p[c].0) <= scaled_value(r.priority),
{
    keys_order_values(r.priority, p[c].0);
}

/// A chunk that is added is pending with its priority and data version; one that was
/// pending stays as it was, and so do all others.
pub proof fn added_chunks_are_pending(
    p: Pending,
    coord: ChunkCoord,
    priority: u32,
    data_version: u64,
    c: ChunkCoord,
)
    ensures
        ({
            let q = after_enqueue(p, coord, priority, data_version);
            &&& q.contains_key(coord)
            &&& !p.contains_key(coord) ==> q[coord].0 == priority && q[coord].1 == data_version
            &&& p.contains_key(c) ==> q.contains_key(c) && q[c] == p[c]
            &&& q.contains_key(c) && c != coord ==> p.contains_key(c)
        }),
{
}

/// An update changes the priority and the data version of a pending chunk, and nothing
/// else; it adds no chunk.
pub proof fn updates_change_one_chunk(
    p: Pending,
    coord: ChunkCoord,
    priority: u32,
    data_version: u64,
    c: ChunkCoord,
)
    ensures
        ({
            let q = after_update(p, coord, priority, data_version);
            &&& q.contains_key(c) <==> p.contains_key(c)
            &&& p.contains_key(coord) ==> q[coord].0 == priority && q[coord].1 == data_version
            &&& p.contains_key(c) && c != coord ==> q[c] == p[c]
        }),
{
}

} // verus!
