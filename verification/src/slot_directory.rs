//! Fixed-capacity directory that assigns small slot numbers to chunk
//! coordinates: a stack of free slots and the two-way map between coordinates
//! and slots.

use std::collections::HashMap;

use vstd::prelude::*;

use crate::coord::ChunkCoord;

verus! {

broadcast use vstd::std_specs::hash::group_hash_axioms;

/// A coordinate as one integer key: the three components, offset to be
/// non-negative, side by side.
pub open spec fn packed(c: ChunkCoord) -> int {
    (c.x + 0x8000_0000) * 0x1_0000_0000_0000_0000 + (c.y + 0x8000_0000) * 0x1_0000_0000 + (c.z
        + 0x8000_0000)
}

/// Distinct coordinates have distinct keys.
pub proof fn packed_injective(c: ChunkCoord, d: ChunkCoord)
    requires
        packed(c) == packed(d),
    ensures
        c == d,
{
}

/// Integer key of a coordinate.
fn pack_coord(c: &ChunkCoord) -> (k: u128)
    ensures
        k == packed(*c),
{
    let x: u128 = (c.x as i64 + 0x8000_0000) as u128;
    let y: u128 = (c.y as i64 + 0x8000_0000) as u128;
    let z: u128 = (c.z as i64 + 0x8000_0000) as u128;
    x * 0x1_0000_0000_0000_0000 + y * 0x1_0000_0000 + z
}

/// What every directory keeps: each slot below the capacity is either free,
/// once, or held by exactly one coordinate.
pub open spec fn directory_inv(capacity: int, free: Seq<u32>, resident: Map<ChunkCoord, u32>) -> bool {
    &&& free.no_duplicates()
    &&& forall|i: int| 0 <= i < free.len() ==> (#[trigger] free[i]) < capacity
    &&& forall|c: ChunkCoord| #[trigger] resident.contains_key(c) ==> resident[c] < capacity
    &&& forall|c: ChunkCoord|
        #[trigger] resident.contains_key(c) ==> !free.contains(resident[c])
    &&& forall|c: ChunkCoord, d: ChunkCoord|
        #![trigger resident.contains_key(c), resident.contains_key(d)]
        resident.contains_key(c) && resident.contains_key(d) && resident[c] == resident[d] ==> c
            == d
    &&& forall|s: u32|
        s < capacity && !(#[trigger] free.contains(s)) ==> exists|c: ChunkCoord|
            #[trigger] resident.contains_key(c) && resident[c] == s
    &&& resident.dom().finite()
    &&& resident.dom().len() + free.len() == capacity
}

/// The free stack of an unused directory: popping yields 0, 1, 2, ...
pub open spec fn initial_free(capacity: nat) -> Seq<u32> {
    Seq::new(capacity, |i: int| (capacity - 1 - i) as u32)
}

/// Slot directory over `capacity` slots.
pub struct SlotDirectory {
    capacity: u32,
    /// Free slot numbers; the last one is handed out next.
    free_slots: Vec<u32>,
    /// From the integer key of a coordinate to its slot.
    coord_to_slot: HashMap<u128, u32>,
    /// The coordinate that holds each slot. None if the slot is free.
    slot_to_coord: Vec<Option<ChunkCoord>>,
    /// The map that the two containers above represent.
    resident: Ghost<Map<ChunkCoord, u32>>,
}

impl SlotDirectory {
    pub closed spec fn capacity(&self) -> nat {
        self.capacity as nat
    }

    pub closed spec fn free(&self) -> Seq<u32> {
        self.free_slots@
    }

    pub closed spec fn resident(&self) -> Map<ChunkCoord, u32> {
        self.resident@
    }

    closed spec fn represents(&self) -> bool {
        &&& self.slot_to_coord@.len() == self.capacity
        &&& forall|c: ChunkCoord|
            #[trigger] self.resident@.contains_key(c) ==> self.coord_to_slot@.contains_key(
                packed(c) as u128,
            ) && self.coord_to_slot@[packed(c) as u128] == self.resident@[c]
                && self.slot_to_coord@[self.resident@[c] as int] == Some(c)
        &&& forall|k: u128| #[trigger] self.coord_to_slot@.contains_key(k) ==> exists|c: ChunkCoord|
            #[trigger] self.resident@.contains_key(c) && packed(c) == k
        &&& forall|s: int|
            0 <= s < self.capacity ==> ((#[trigger] self.slot_to_coord@[s]) matches Some(c)
                ==> self.resident@.contains_key(c) && self.resident@[c] == s)
    }

    pub closed spec fn wf(&self) -> bool {
        &&& self.represents()
        &&& directory_inv(self.capacity as int, self.free_slots@, self.resident@)
    }

    /// A well-formed directory keeps the directory invariant.
    pub proof fn wf_inv(&self)
        requires
            self.wf(),
        ensures
            directory_inv(self.capacity() as int, self.free(), self.resident()),
    {
    }

    proof fn lemma_lookup(&self, c: ChunkCoord)
        requires
            self.wf(),
        ensures
            self.coord_to_slot@.contains_key(packed(c) as u128) <==> self.resident@.contains_key(c),
    {
        if self.coord_to_slot@.contains_key(packed(c) as u128) {
            let d = choose|d: ChunkCoord|
                #[trigger] self.resident@.contains_key(d) && packed(d) == packed(c) as u128;
            packed_injective(c, d);
        }
    }

    fn free_stack(capacity: u32) -> (free_slots: Vec<u32>)
        ensures
            free_slots@ == initial_free(capacity as nat),
    {
        let mut free_slots: Vec<u32> = Vec::new();
        let mut i: u32 = capacity;
        while i > 0
            invariant
                i <= capacity,
                free_slots@.len() == capacity - i,
                forall|j: int|
                    0 <= j < free_slots@.len() ==> free_slots@[j] == (capacity - 1 - j) as u32,
            decreases i,
        {
            i = i - 1;
            free_slots.push(i);
        }
        free_slots
    }

    fn empty_slots(capacity: u32) -> (slots: Vec<Option<ChunkCoord>>)
        ensures
            slots@ == Seq::new(capacity as nat, |i: int| None::<ChunkCoord>),
    {
        let mut slots: Vec<Option<ChunkCoord>> = Vec::new();
        let mut i: u32 = 0;
        while i < capacity
            invariant
                i <= capacity,
                slots@ == Seq::new(i as nat, |i: int| None::<ChunkCoord>),
            decreases capacity - i,
        {
            slots.push(None);
            i = i + 1;
        }
        slots
    }

    proof fn lemma_initial(capacity: u32)
        ensures
            directory_inv(
                capacity as int,
                initial_free(capacity as nat),
                Map::<ChunkCoord, u32>::empty(),
            ),
    {
        let free = initial_free(capacity as nat);
        assert forall|s: u32| s < capacity implies #[trigger] free.contains(s) by {
            assert(free[capacity - 1 - s] == s);
        }
        assert(Map::<ChunkCoord, u32>::empty().dom() =~= Set::<ChunkCoord>::empty());
    }

    /// A directory with every slot free.
    pub fn new(capacity: u32) -> (d: Self)
        ensures
            d.wf(),
            d.capacity() == capacity,
            d.free() == initial_free(capacity as nat),
            d.resident() == Map::<ChunkCoord, u32>::empty(),
    {
        proof {
            Self::lemma_initial(capacity);
        }
        SlotDirectory {
            capacity,
            free_slots: Self::free_stack(capacity),
            coord_to_slot: HashMap::new(),
            slot_to_coord: Self::empty_slots(capacity),
            resident: Ghost(Map::empty()),
        }
    }

    /// Whether `coord` holds a slot.
    pub fn contains(&self, coord: &ChunkCoord) -> (b: bool)
        requires
            self.wf(),
        ensures
            b == self.resident().contains_key(*coord),
    {
        proof {
            self.lemma_lookup(*coord);
        }
        self.coord_to_slot.contains_key(&pack_coord(coord))
    }

    /// The slot that `coord` holds, if any.
    pub fn lookup(&self, coord: &ChunkCoord) -> (r: Option<u32>)
        requires
            self.wf(),
        ensures
            r == (if self.resident().contains_key(*coord) {
                Some(self.resident()[*coord])
            } else {
                None
            }),
    {
        proof {
            self.lemma_lookup(*coord);
        }
        match self.coord_to_slot.get(&pack_coord(coord)) {
            Some(slot) => Some(*slot),
            None => None,
        }
    }

    /// Give the slot on top of the free stack to `coord`.
    pub fn take(&mut self, coord: ChunkCoord) -> (slot: u32)
        requires
            old(self).wf(),
            !old(self).resident().contains_key(coord),
            old(self).free().len() > 0,
        ensures
            final(self).wf(),
            final(self).capacity() == old(self).capacity(),
            slot == old(self).free().last(),
            final(self).free() == old(self).free().drop_last(),
            final(self).resident() == old(self).resident().insert(coord, slot),
    {
        let ghost before = *self;
        let slot: u32 = match self.free_slots.pop() {
            Some(s) => s,
            None => 0,
        };
        let key: u128 = pack_coord(&coord);
        self.coord_to_slot.insert(key, slot);
        self.slot_to_coord[slot as usize] = Some(coord);
        self.resident = Ghost(self.resident@.insert(coord, slot));
        proof {
            let free = before.free_slots@;
            let m = before.resident@;
            assert(free.contains(slot)) by {
                assert(free[free.len() - 1] == slot);
            }
            assert(self.represents()) by {
                assert forall|c: ChunkCoord| #[trigger] self.resident@.contains_key(c) implies {
                    &&& self.coord_to_slot@.contains_key(packed(c) as u128)
                    &&& self.coord_to_slot@[packed(c) as u128] == self.resident@[c]
                    &&& self.slot_to_coord@[self.resident@[c] as int] == Some(c)
                } by {
                    if c != coord {
                        assert(m.contains_key(c));
                        if packed(c) == packed(coord) {
                            packed_injective(c, coord);
                        }
                        assert(m[c] != slot);
                    }
                }
                assert forall|k: u128| #[trigger] self.coord_to_slot@.contains_key(k) implies exists|
                    c: ChunkCoord,
                | #[trigger] self.resident@.contains_key(c) && packed(c) == k by {
                    if k == key {
                        assert(self.resident@.contains_key(coord));
                    } else {
                        let c = choose|c: ChunkCoord| #[trigger]
                            m.contains_key(c) && packed(c) == k;
                        assert(self.resident@.contains_key(c));
                    }
                }
                assert forall|s: int| 0 <= s < self.capacity implies ((
                #[trigger] self.slot_to_coord@[s]) matches Some(c)
                    ==> self.resident@.contains_key(c) && self.resident@[c] == s) by {
                    if s != slot {
                        assert(self.slot_to_coord@[s] == before.slot_to_coord@[s]);
                    }
                }
            }
            assert(directory_inv(self.capacity as int, self.free_slots@, self.resident@)) by {
                let f2 = self.free_slots@;
                let m2 = self.resident@;
                assert forall|s: u32| f2.contains(s) implies free.contains(s) && s != slot by {
                    let i = choose|i: int| 0 <= i < f2.len() && f2[i] == s;
                    assert(free[i] == s);
                }
                assert forall|s: u32| s < self.capacity && !(#[trigger] f2.contains(s)) implies exists|
                    c: ChunkCoord,
                | #[trigger] m2.contains_key(c) && m2[c] == s by {
                    if s == slot {
                        assert(m2.contains_key(coord));
                    } else {
                        if free.contains(s) {
                            let i = choose|i: int| 0 <= i < free.len() && free[i] == s;
                            assert(f2[i] == s);
                        }
                        let c = choose|c: ChunkCoord| #[trigger] m.contains_key(c) && m[c] == s;
                        assert(m2.contains_key(c));
                    }
                }
                assert forall|c: ChunkCoord| #[trigger] m2.contains_key(c) implies !f2.contains(
                    m2[c],
                ) && m2[c] < self.capacity by {
                    if c != coord {
                        assert(m.contains_key(c));
                    }
                }
                assert forall|c: ChunkCoord, d: ChunkCoord|
                    #![trigger m2.contains_key(c), m2.contains_key(d)]
                    m2.contains_key(c) && m2.contains_key(d) && m2[c] == m2[d] implies c == d by {
                    if c != coord {
                        assert(m.contains_key(c));
                    }
                    if d != coord {
                        assert(m.contains_key(d));
                    }
                }
                assert(m2.dom() =~= m.dom().insert(coord));
            }
        }
        slot
    }

    /// Free a slot. Returns the coordinate that held it, if any did.
    pub fn release(&mut self, slot: u32) -> (r: Option<ChunkCoord>)
        requires
            old(self).wf(),
            slot < old(self).capacity(),
        ensures
            final(self).wf(),
            final(self).capacity() == old(self).capacity(),
            r matches Some(c) ==> {
                &&& old(self).resident().contains_key(c)
                &&& old(self).resident()[c] == slot
                &&& final(self).free() == old(self).free().push(slot)
                &&& final(self).resident() == old(self).resident().remove(c)
            },
            r is None ==> {
                &&& old(self).free().contains(slot)
                &&& *final(self) == *old(self)
            },
    {
        let ghost before = *self;
        match self.slot_to_coord[slot as usize] {
            None => {
                proof {
                    if !self.free_slots@.contains(slot) {
                        let c = choose|c: ChunkCoord|
                            #[trigger] self.resident@.contains_key(c) && self.resident@[c] == slot;
                        assert(self.slot_to_coord@[slot as int] == Some(c));
                    }
                }
                None
            },
            Some(coord) => {
                self.slot_to_coord[slot as usize] = None;
                let key: u128 = pack_coord(&coord);
                self.coord_to_slot.remove(&key);
                self.free_slots.push(slot);
                self.resident = Ghost(self.resident@.remove(coord));
                proof {
                    let free = before.free_slots@;
                    let m = before.resident@;
                    let f2 = self.free_slots@;
                    let m2 = self.resident@;
                    assert(before.slot_to_coord@[slot as int] == Some(coord));
                    assert(m.contains_key(coord) && m[coord] == slot);
                    assert(self.represents()) by {
                        assert forall|c: ChunkCoord| #[trigger] m2.contains_key(c) implies {
                            &&& self.coord_to_slot@.contains_key(packed(c) as u128)
                            &&& self.coord_to_slot@[packed(c) as u128] == m2[c]
                            &&& self.slot_to_coord@[m2[c] as int] == Some(c)
                        } by {
                            assert(m.contains_key(c));
                            if packed(c) == packed(coord) {
                                packed_injective(c, coord);
                            }
                            assert(m[c] != slot);
                        }
                        assert forall|k: u128| #[trigger]
                            self.coord_to_slot@.contains_key(k) implies exists|c: ChunkCoord| #[trigger]
                            m2.contains_key(c) && packed(c) == k by {
                            let c = choose|c: ChunkCoord| #[trigger]
                                m.contains_key(c) && packed(c) == k;
                            assert(m2.contains_key(c));
                        }
                        assert forall|s: int| 0 <= s < self.capacity implies ((
                        #[trigger] self.slot_to_coord@[s]) matches Some(c) ==> m2.contains_key(c)
                            && m2[c] == s) by {
                            if s != slot {
                                assert(self.slot_to_coord@[s] == before.slot_to_coord@[s]);
                            }
                        }
                    }
                    assert(directory_inv(self.capacity as int, f2, m2)) by {
                        assert forall|s: u32| #[trigger] f2.contains(s) implies free.contains(s) || s
                            == slot by {
                            let i = choose|i: int| 0 <= i < f2.len() && f2[i] == s;
                            if i < free.len() {
                                assert(free[i] == s);
                            }
                        }
                        assert(f2.no_duplicates()) by {
                            assert(!free.contains(slot));
                            assert forall|i: int, j: int|
                                0 <= i < f2.len() && 0 <= j < f2.len() && i != j implies f2[i]
                                != f2[j] by {
                                if i < free.len() {
                                    assert(free.contains(free[i]));
                                }
                                if j < free.len() {
                                    assert(free.contains(free[j]));
                                }
                            }
                        }
                        assert forall|c: ChunkCoord| #[trigger]
                            m2.contains_key(c) implies !f2.contains(m2[c]) && m2[c]
                            < self.capacity by {
                            assert(m.contains_key(c));
                        }
                        assert forall|c: ChunkCoord, d: ChunkCoord|
                            #![trigger m2.contains_key(c), m2.contains_key(d)]
                            m2.contains_key(c) && m2.contains_key(d) && m2[c] == m2[d] implies c
                            == d by {
                            assert(m.contains_key(c) && m.contains_key(d));
                        }
                        assert forall|s: u32|
                            s < self.capacity && !(#[trigger] f2.contains(s)) implies exists|
                            c: ChunkCoord,
                        | #[trigger] m2.contains_key(c) && m2[c] == s by {
                            assert(f2[free.len() as int] == slot);
                            if free.contains(s) {
                                let i = choose|i: int| 0 <= i < free.len() && free[i] == s;
                                assert(f2[i] == s);
                            }
                            let c = choose|c: ChunkCoord| #[trigger]
                                m.contains_key(c) && m[c] == s;
                            assert(m2.contains_key(c));
                        }
                        assert(m2.dom() =~= m.dom().remove(coord));
                    }
                }
                Some(coord)
            },
        }
    }

    /// The coordinate that holds `slot`, if any.
    pub fn coord_of(&self, slot: u32) -> (r: Option<ChunkCoord>)
        requires
            self.wf(),
        ensures
            r matches Some(c) ==> self.resident().contains_key(c) && self.resident()[c] == slot,
            r is None ==> forall|c: ChunkCoord| #[trigger]
                self.resident().contains_key(c) ==> self.resident()[c] != slot,
    {
        if slot < self.capacity {
            self.slot_to_coord[slot as usize]
        } else {
            None
        }
    }

    /// Number of free slots.
    pub fn free_count(&self) -> (n: u32)
        requires
            self.wf(),
        ensures
            n == self.free().len(),
    {
        self.free_slots.len() as u32
    }

    /// Number of slots that a coordinate holds.
    pub fn resident_count(&self) -> (n: u32)
        requires
            self.wf(),
        ensures
            n == self.resident().dom().len(),
    {
        self.capacity - self.free_slots.len() as u32
    }

    /// Whether no slot is free.
    pub fn is_full(&self) -> (b: bool)
        requires
            self.wf(),
        ensures
            b == (self.free().len() == 0),
    {
        self.free_slots.len() == 0
    }

    /// Free every slot, back to the state of a new directory.
    pub fn clear(&mut self)
        requires
            old(self).wf(),
        ensures
            final(self).wf(),
            final(self).capacity() == old(self).capacity(),
            final(self).free() == initial_free(old(self).capacity()),
            final(self).resident() == Map::<ChunkCoord, u32>::empty(),
    {
        self.coord_to_slot.clear();
        self.slot_to_coord = Self::empty_slots(self.capacity);
        self.free_slots = Self::free_stack(self.capacity);
        self.resident = Ghost(Map::empty());
        proof {
            Self::lemma_initial(self.capacity);
        }
    }

    /// All held slots with their coordinates, in slot order.
    pub fn allocated(&self) -> (v: Vec<(u32, ChunkCoord)>)
        requires
            self.wf(),
        ensures
            lists_resident(v@, self.resident()),
    {
        let mut v: Vec<(u32, ChunkCoord)> = Vec::new();
        let mut slot: u32 = 0;
        while slot < self.capacity
            invariant
                self.wf(),
                slot <= self.capacity,
                forall|i: int, j: int| 0 <= i < j < v@.len() ==> v@[i].0 < v@[j].0,
                forall|i: int|
                    0 <= i < v@.len() ==> (#[trigger] v@[i]).0 < slot
                        && self.resident@.contains_key(v@[i].1) && self.resident@[v@[i].1]
                        == v@[i].0,
                forall|c: ChunkCoord| #[trigger]
                    self.resident@.contains_key(c) && self.resident@[c] < slot ==> v@.contains(
                        (self.resident@[c], c),
                    ),
            decreases self.capacity - slot,
        {
            let ghost prev = v@;
            if let Some(c) = self.slot_to_coord[slot as usize] {
                assert(self.slot_to_coord@[slot as int] == Some(c));
                v.push((slot, c));
            }
            proof {
                assert forall|c: ChunkCoord| #[trigger]
                    self.resident@.contains_key(c) && self.resident@[c] < slot + 1 implies v@.contains(
                (self.resident@[c], c)) by {
                    if self.resident@[c] < slot {
                        assert(prev.contains((self.resident@[c], c)));
                        let i = choose|i: int|
                            0 <= i < prev.len() && prev[i] == (self.resident@[c], c);
                        assert(v@[i] == (self.resident@[c], c));
                    } else {
                        assert(self.slot_to_coord@[slot as int] == Some(c));
                        assert(v@[prev.len() as int] == (slot, c));
                    }
                }
            }
            slot = slot + 1;
        }
        v
    }
}

/// `v` lists the pairs of `resident` by ascending slot, each once.
pub open spec fn lists_resident(v: Seq<(u32, ChunkCoord)>, resident: Map<ChunkCoord, u32>) -> bool {
    &&& forall|i: int, j: int| 0 <= i < j < v.len() ==> v[i].0 < v[j].0
    &&& forall|i: int|
        0 <= i < v.len() ==> resident.contains_key((#[trigger] v[i]).1) && resident[v[i].1]
            == v[i].0
    &&& forall|c: ChunkCoord| #[trigger]
        resident.contains_key(c) ==> v.contains((resident[c], c))
}

/// A list of residents goes up by slots, and holds each resident with its slot and
/// nothing else.
pub proof fn residents_are_listed_by_slot(
    v: Seq<(u32, ChunkCoord)>,
    resident: Map<ChunkCoord, u32>,
    i: int,
    j: int,
    c: ChunkCoord,
)
    requires
        lists_resident(v, resident),
        0 <= i < j < v.len(),
    ensures
        v[i].0 < v[j].0,
        resident.contains_key(v[i].1) && resident[v[i].1] == v[i].0,
        resident.contains_key(c) ==> v.contains((resident[c], c)),
{
    assert(v[i].0 < v[j].0);
}

/// At the start all slots are free, and they are handed out from zero up.
pub proof fn slots_are_handed_out_from_zero(capacity: nat, i: int)
    requires
        0 <= i < capacity <= u32::MAX,
    ensures
        initial_free(capacity).len() == capacity,
        initial_free(capacity)[capacity - 1 - i] == i,
{
}

} // verus!
