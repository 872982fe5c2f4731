//! Probe slot allocator: chunks that hold probe payload.

use vstd::prelude::*;

use crate::cascade::V3_MAX_PROBE_SLOTS;
use crate::coord::ChunkCoord;
use crate::pool;
use crate::pool::SlotState;
use crate::slot_directory;
use crate::slot_directory::SlotDirectory;

verus! {

/// Errors returned when a probe slot cannot be allocated.
#[derive(Debug, Clone, Copy, PartialEq, Eq, Structural)]
pub enum ProbeAllocError {
    /// All slots are in use.
    PoolFull,
    /// The same chunk coordinate is already allocated to a slot.
    CoordAlreadyResident,
}

/// Errors returned when a probe slot cannot be deallocated.
#[derive(Debug, Clone, Copy, PartialEq, Eq, Structural)]
pub enum ProbeDeallocError {
    SlotNotAllocated,
    SlotOutOfRange,
}

/// Probe slot directory. A chunk has a chunk slot and may have a probe slot
/// besides; the two numbers are independent.
pub struct ProbeSlotAllocator {
    directory: SlotDirectory,
}

impl View for ProbeSlotAllocator {
    type V = SlotState;

    closed spec fn view(&self) -> SlotState {
        SlotState { free: self.directory.free(), resident: self.directory.resident() }
    }
}

/// What asking for a probe slot leads to.
pub open spec fn alloc_result(s: SlotState, coord: ChunkCoord) -> Result<u32, ProbeAllocError> {
    if s.resident.contains_key(coord) {
        Err(ProbeAllocError::CoordAlreadyResident)
    } else if s.free.len() == 0 {
        Err(ProbeAllocError::PoolFull)
    } else {
        Ok(s.free.last())
    }
}

/// The state after a chunk's probe slot, if it has one, was given back.
pub open spec fn after_evict(s: SlotState, coord: ChunkCoord) -> SlotState {
    if s.resident.contains_key(coord) {
        pool::after_dealloc(s, coord)
    } else {
        s
    }
}

impl ProbeSlotAllocator {
    pub closed spec fn wf(&self) -> bool {
        &&& self.directory.wf()
        &&& self.directory.capacity() == V3_MAX_PROBE_SLOTS
    }

    /// A well-formed allocator partitions its slots.
    pub proof fn wf_partitions(&self)
        requires
            self.wf(),
        ensures
            pool::slots_partitioned(V3_MAX_PROBE_SLOTS as int, self@),
    {
        self.directory.wf_inv();
    }

    /// Create a new allocator with all slots free.
    pub fn new() -> (a: Self)
        ensures
            a.wf(),
            a@ == pool::empty_slots(V3_MAX_PROBE_SLOTS as nat),
    {
        ProbeSlotAllocator { directory: SlotDirectory::new(V3_MAX_PROBE_SLOTS) }
    }

    /// Allocate a probe slot for the given chunk coordinate.
    pub fn alloc_slot(&mut self, coord: ChunkCoord) -> (r: Result<u32, ProbeAllocError>)
        requires
            old(self).wf(),
        ensures
            final(self).wf(),
            if old(self)@.resident.contains_key(coord) {
                r == Err::<u32, ProbeAllocError>(ProbeAllocError::CoordAlreadyResident) && final(
                    self)@ == old(self)@
            } else if old(self)@.free.len() == 0 {
                r == Err::<u32, ProbeAllocError>(ProbeAllocError::PoolFull) && final(self)@ == old(
                    self)@
            } else {
                r == Ok::<u32, ProbeAllocError>(old(self)@.free.last()) && final(self)@
                    == pool::after_alloc(old(self)@, coord)
            },
            r == alloc_result(old(self)@, coord),
    {
        if self.directory.contains(&coord) {
            return Err(ProbeAllocError::CoordAlreadyResident);
        }
        if self.directory.is_full() {
            return Err(ProbeAllocError::PoolFull);
        }
        Ok(self.directory.take(coord))
    }

    /// Deallocate a probe slot, returning the coordinate it held.
    pub fn dealloc(&mut self, slot: u32) -> (r: Result<ChunkCoord, ProbeDeallocError>)
        requires
            old(self).wf(),
        ensures
            final(self).wf(),
            match r {
                Ok(coord) => pool::holds(old(self)@, coord, slot) && final(self)@
                    == pool::after_dealloc(old(self)@, coord),
                Err(ProbeDeallocError::SlotOutOfRange) => slot >= V3_MAX_PROBE_SLOTS && final(
                    self)@ == old(self)@,
                Err(ProbeDeallocError::SlotNotAllocated) => old(self)@.free.contains(slot)
                    && final(self)@ == old(self)@,
            },
    {
        if slot >= V3_MAX_PROBE_SLOTS {
            return Err(ProbeDeallocError::SlotOutOfRange);
        }
        match self.directory.release(slot) {
            Some(coord) => Ok(coord),
            None => Err(ProbeDeallocError::SlotNotAllocated),
        }
    }

    /// Free the probe slot of a chunk that was evicted, if it has one.
    pub fn evict(&mut self, coord: &ChunkCoord)
        requires
            old(self).wf(),
        ensures
            final(self).wf(),
            final(self)@ == after_evict(old(self)@, *coord),
    {
        if let Some(slot) = self.lookup(coord) {
            proof {
                self.wf_partitions();
                pool::partition_facts(V3_MAX_PROBE_SLOTS as int, self@);
                assert(pool::holds(self@, *coord, slot));
            }
            let _ = self.dealloc(slot);
        }
    }

    /// Look up the probe slot for a chunk coordinate.
    pub fn lookup(&self, coord: &ChunkCoord) -> (r: Option<u32>)
        requires
            self.wf(),
        ensures
            r == (if self@.resident.contains_key(*coord) {
                Some(self@.resident[*coord])
            } else {
                None
            }),
    {
        self.directory.lookup(coord)
    }

    /// Number of currently allocated probe slots.
    pub fn allocated_count(&self) -> (n: u32)
        requires
            self.wf(),
        ensures
            n == self@.resident.dom().len(),
            n == V3_MAX_PROBE_SLOTS - self@.free.len(),
    {
        proof {
            self.directory.wf_inv();
        }
        self.directory.resident_count()
    }

    /// Whether the probe slot pool is full.
    pub fn is_full(&self) -> (b: bool)
        requires
            self.wf(),
        ensures
            b == (self@.free.len() == 0),
    {
        self.directory.is_full()
    }

    /// Reset the allocator to its initial empty state.
    pub fn clear(&mut self)
        requires
            old(self).wf(),
        ensures
            final(self).wf(),
            final(self)@ == pool::empty_slots(V3_MAX_PROBE_SLOTS as nat),
    {
        self.directory.clear();
    }

    /// All currently allocated (probe slot, chunk coordinate) pairs, in slot
    /// order.
    pub fn iter_allocated(&self) -> (v: Vec<(u32, ChunkCoord)>)
        requires
            self.wf(),
        ensures
            slot_directory::lists_resident(v@, self@.resident),
    {
        self.directory.allocated()
    }
}

impl Default for ProbeSlotAllocator {
    fn default() -> (a: Self)
        ensures
            a.wf(),
            a@ == pool::empty_slots(V3_MAX_PROBE_SLOTS as nat),
    {
        ProbeSlotAllocator::new()
    }
}

/// Evicting a chunk frees its probe slot, which is handed out next, and nothing else;
/// a chunk without one changes nothing.
pub proof fn eviction_frees_one_slot(s: SlotState, coord: ChunkCoord, d: ChunkCoord)
    ensures
        ({
            let t = after_evict(s, coord);
            &&& !t.resident.contains_key(coord)
            &&& d != coord ==> t.resident.contains_key(d) == s.resident.contains_key(d)
            &&& d != coord && s.resident.contains_key(d) ==> t.resident[d] == s.resident[d]
            &&& s.resident.contains_key(coord) ==> t.free.len() == s.free.len() + 1 && t.free.last()
                == s.resident[coord] && t.free.drop_last() == s.free
            &&& !s.resident.contains_key(coord) ==> t == s
        }),
{
    let t = after_evict(s, coord);
    if s.resident.contains_key(coord) {
        assert(t.free.drop_last() =~= s.free);
    }
}

/// A chunk with a probe slot is refused as such even if all are taken; if all are
/// taken everything else is refused; and otherwise a chunk gets a slot that was free.
pub proof fn probe_slots_are_refused_or_given(s: SlotState, coord: ChunkCoord)
    ensures
        s.resident.contains_key(coord) <==> alloc_result(s, coord) == Err::<u32, ProbeAllocError>(
            ProbeAllocError::CoordAlreadyResident,
        ),
        alloc_result(s, coord) == Err::<u32, ProbeAllocError>(ProbeAllocError::PoolFull)
            ==> s.free.len() == 0,
        alloc_result(s, coord) is Ok <==> !s.resident.contains_key(coord) && s.free.len() > 0,
        alloc_result(s, coord) is Ok ==> s.free.contains(alloc_result(s, coord)->Ok_0),
{
    if s.free.len() > 0 {
        assert(s.free[s.free.len() - 1] == s.free.last());
    }
}

} // verus!
