//! Access times of chunks, for eviction of the least recently used.

use vstd::prelude::*;

use crate::coord::ChunkCoord;

verus! {

/// What a tracker holds: the time of each tracked chunk's last access, and the
/// time of the last access of all.
#[verifier::ext_equal]
pub struct AccessTimes {
    pub times: Map<ChunkCoord, u64>,
    pub now: u64,
}

/// Tracks chunk access times with a counter that grows by one at each access.
pub struct LruTracker {
    /// Chunks and their access times, oldest first.
    entries: Vec<(ChunkCoord, u64)>,
    current_time: u64,
    times: Ghost<Map<ChunkCoord, u64>>,
}

/// `list` holds the pairs of a map, each once, by ascending time.
pub open spec fn lists_by_time(list: Seq<(ChunkCoord, u64)>, times: Map<ChunkCoord, u64>) -> bool {
    &&& forall|i: int, j: int| 0 <= i < j < list.len() ==> list[i].1 < list[j].1
    &&& forall|i: int|
        0 <= i < list.len() ==> times.contains_key((#[trigger] list[i]).0) && times[list[i].0]
            == list[i].1
    &&& forall|c: ChunkCoord| #[trigger] times.contains_key(c) ==> list.contains((c, times[c]))
}

impl View for LruTracker {
    type V = AccessTimes;

    closed spec fn view(&self) -> AccessTimes {
        AccessTimes { times: self.times@, now: self.current_time }
    }
}

/// An access at the next time.
pub open spec fn after_touch(s: AccessTimes, c: ChunkCoord) -> AccessTimes {
    AccessTimes { times: s.times.insert(c, (s.now + 1) as u64), now: (s.now + 1) as u64 }
}

/// No chunk was accessed later than now.
pub open spec fn times_are_past(s: AccessTimes) -> bool {
    forall|c: ChunkCoord| #[trigger] s.times.contains_key(c) ==> 1 <= s.times[c] <= s.now
}

impl LruTracker {
    pub closed spec fn wf(&self) -> bool {
        &&& lists_by_time(self.entries@, self.times@)
        &&& times_are_past(self@)
        &&& self.times@.dom().finite()
        &&& self.times@.dom().len() == self.entries@.len()
    }

    /// What a tracker keeps: no access lies in the future.
    pub proof fn wf_past(&self)
        requires
            self.wf(),
        ensures
            times_are_past(self@),
    {
    }

    /// A tracker holds finitely many chunks.
    pub proof fn domain_is_finite(&self)
        requires
            self.wf(),
        ensures
            self@.times.dom().finite(),
    {
    }

    /// Create a new empty tracker.
    pub fn new() -> (t: Self)
        ensures
            t.wf(),
            t@ == (AccessTimes { times: Map::empty(), now: 0 }),
    {
        LruTracker { entries: Vec::new(), current_time: 0, times: Ghost(Map::empty()) }
    }

    /// Place of a chunk in the list.
    fn position(&self, coord: &ChunkCoord) -> (r: Option<usize>)
        requires
            self.wf(),
        ensures
            match r {
                Some(i) => i < self.entries@.len() && self.entries@[i as int].0 == *coord
                    && self.times@.contains_key(*coord),
                None => !self.times@.contains_key(*coord),
            },
    {
        let mut i: usize = 0;
        while i < self.entries.len()
            invariant
                i <= self.entries@.len(),
                self.wf(),
                forall|k: int| 0 <= k < i ==> (#[trigger] self.entries@[k]).0 != *coord,
            decreases self.entries@.len() - i,
        {
            let c: ChunkCoord = self.entries[i].0;
            if c == *coord {
                assert(self.times@.contains_key(self.entries@[i as int].0));
                return Some(i);
            }
            i = i + 1;
        }
        proof {
            if self.times@.contains_key(*coord) {
                let e = (*coord, self.times@[*coord]);
                assert(self.entries@.contains(e));
                let k = choose|k: int| 0 <= k < self.entries@.len() && self.entries@[k] == e;
                assert(self.entries@[k].0 == *coord);
            }
        }
        None
    }

    /// Take a chunk off the list.
    fn forget(&mut self, coord: &ChunkCoord)
        requires
            old(self).wf(),
        ensures
            final(self).wf(),
            final(self)@ == (AccessTimes { times: old(self)@.times.remove(*coord), ..old(self)@ }),
    {
        match self.position(coord) {
            None => {
                assert(self.times@.remove(*coord) =~= self.times@);
            },
            Some(at) => {
                let ghost before = self.entries@;
                let ghost old_times = self.times@;
                let _ = self.entries.remove(at);
                self.times = Ghost(self.times@.remove(*coord));
                proof {
                    assert(self.entries@ =~= before.remove(at as int));
                    assert(times_are_past(self@)) by {
                        assert forall|c: ChunkCoord| #[trigger]
                            self@.times.contains_key(c) implies 1 <= self@.times[c]
                            <= self@.now by {
                            assert(old(self)@.times.contains_key(c));
                        }
                    }
                    assert forall|i: int, j: int|
                        0 <= i < j < self.entries@.len() implies self.entries@[i].1
                        < self.entries@[j].1 by {
                        let a = if i < at {
                            i
                        } else {
                            i + 1
                        };
                        let b = if j < at {
                            j
                        } else {
                            j + 1
                        };
                        assert(self.entries@[i] == before[a] && self.entries@[j] == before[b]);
                    }
                    assert forall|i: int|
                        0 <= i < self.entries@.len() implies self.times@.contains_key(
                        (#[trigger] self.entries@[i]).0,
                    ) && self.times@[self.entries@[i].0] == self.entries@[i].1 by {
                        let k = if i < at {
                            i
                        } else {
                            i + 1
                        };
                        assert(self.entries@[i] == before[k]);
                        assert(old_times.contains_key(before[k].0));
                        if before[k].0 == *coord {
                            assert(old_times[before[k].0] == before[k].1);
                            assert(old_times[before[at as int].0] == before[at as int].1);
                            if k < at {
                                assert(before[k].1 < before[at as int].1);
                            } else {
                                assert(before[at as int].1 < before[k].1);
                            }
                        }
                    }
                    assert forall|c: ChunkCoord| #[trigger]
                        self.times@.contains_key(c) implies self.entries@.contains(
                        (c, self.times@[c]),
                    ) by {
                        assert(old_times.contains_key(c));
                        assert(before.contains((c, old_times[c])));
                        let k = choose|k: int|
                            0 <= k < before.len() && before[k] == (c, old_times[c]);
                        let i = if k < at {
                            k
                        } else {
                            k - 1
                        };
                        assert(self.entries@[i] == (c, old_times[c]));
                    }
                }
            },
        }
    }

    /// Record an access to a chunk.
    pub fn touch(&mut self, coord: ChunkCoord)
        requires
            old(self).wf(),
            old(self)@.now < u64::MAX,
        ensures
            final(self).wf(),
            final(self)@ == after_touch(old(self)@, coord),
    {
        self.forget(&coord);
        let ghost before = self.entries@;
        let ghost old_times = self.times@;
        let time: u64 = self.current_time + 1;
        self.current_time = time;
        self.entries.push((coord, time));
        self.times = Ghost(self.times@.insert(coord, time));
        proof {
            let list = self.entries@;
            assert forall|i: int, j: int| 0 <= i < j < list.len() implies list[i].1 < list[j].1 by {
                if j == before.len() {
                    assert(before[i] == list[i]);
                    assert(old_times.contains_key(before[i].0));
                }
            }
            assert forall|i: int| 0 <= i < list.len() implies self.times@.contains_key(
                (#[trigger] list[i]).0,
            ) && self.times@[list[i].0] == list[i].1 by {
                if i < before.len() {
                    assert(before[i] == list[i]);
                    assert(old_times.contains_key(before[i].0));
                }
            }
            assert forall|c: ChunkCoord| #[trigger]
                self.times@.contains_key(c) implies list.contains((c, self.times@[c])) by {
                if c == coord {
                    assert(list[before.len() as int] == (c, time));
                } else {
                    assert(old_times.contains_key(c));
                    assert(before.contains((c, old_times[c])));
                    let k = choose|k: int| 0 <= k < before.len() && before[k] == (c, old_times[c]);
                    assert(list[k] == (c, old_times[c]));
                }
            }
            assert(self.times@ =~= old(self)@.times.insert(coord, time));
        }
    }

    /// The access time of a chunk, or `None` if it is not tracked.
    pub fn get_access_time(&self, coord: ChunkCoord) -> (r: Option<u64>)
        requires
            self.wf(),
        ensures
            r == (if self@.times.contains_key(coord) {
                Some(self@.times[coord])
            } else {
                None
            }),
    {
        match self.position(&coord) {
            Some(i) => {
                assert(self.times@[self.entries@[i as int].0] == self.entries@[i as int].1);
                Some(self.entries[i].1)
            },
            None => None,
        }
    }

    /// All tracked chunks by access time, oldest first.
    pub fn get_lru_sorted(&self) -> (v: Vec<(ChunkCoord, u64)>)
        requires
            self.wf(),
        ensures
            lists_by_time(v@, self@.times),
            v@.len() == self@.times.dom().len(),
    {
        let mut v: Vec<(ChunkCoord, u64)> = Vec::new();
        let mut i: usize = 0;
        while i < self.entries.len()
            invariant
                i <= self.entries@.len(),
                v@ =~= self.entries@.take(i as int),
            decreases self.entries@.len() - i,
        {
            v.push(self.entries[i]);
            i = i + 1;
        }
        assert(v@ =~= self.entries@);
        v
    }

    /// Stop tracking a chunk.
    pub fn remove(&mut self, coord: ChunkCoord)
        requires
            old(self).wf(),
        ensures
            final(self).wf(),
            final(self)@ == (AccessTimes { times: old(self)@.times.remove(coord), ..old(self)@ }),
    {
        self.forget(&coord);
    }

    /// Number of tracked chunks.
    pub fn len(&self) -> (n: usize)
        requires
            self.wf(),
        ensures
            n == self@.times.dom().len(),
    {
        self.entries.len()
    }

    /// Whether no chunk is tracked.
    pub fn is_empty(&self) -> (b: bool)
        requires
            self.wf(),
        ensures
            b == (self@.times.dom() == Set::<ChunkCoord>::empty()),
    {
        proof {
            if self.times@.dom().len() == 0 {
                assert(self.times@.dom() =~= Set::empty());
            }
        }
        self.entries.len() == 0
    }

    /// Forget everything, the time included.
    pub fn clear(&mut self)
        ensures
            final(self).wf(),
            final(self)@ == (AccessTimes { times: Map::empty(), now: 0 }),
    {
        *self = LruTracker::new();
    }
}

impl Default for LruTracker {
    fn default() -> (t: Self)
        ensures
            t.wf(),
            t@ == (AccessTimes { times: Map::empty(), now: 0 }),
    {
        LruTracker::new()
    }
}

/// The chunk that was touched last is the newest: every other tracked chunk is
/// older.
pub proof fn touched_chunk_is_newest(s: AccessTimes, c: ChunkCoord, d: ChunkCoord)
    requires
        times_are_past(s),
        s.now < u64::MAX,
        s.times.contains_key(d),
        c != d,
    ensures
        after_touch(s, c).times[d] < after_touch(s, c).times[c],
        after_touch(s, c).times[d] == s.times[d],
{
}

/// The first chunk of the sorted list is the least recently used one, so a
/// chunk that was touched since any other is never first.
pub proof fn first_is_oldest(list: Seq<(ChunkCoord, u64)>, s: AccessTimes, c: ChunkCoord)
    requires
        lists_by_time(list, s.times),
        s.times.contains_key(c),
    ensures
        list.len() > 0,
        list[0].1 <= s.times[c],
        c != list[0].0 ==> list[0].1 < s.times[c],
{
    assert(list.contains((c, s.times[c])));
    let k = choose|k: int| 0 <= k < list.len() && list[k] == (c, s.times[c]);
    if k > 0 {
        assert(list[0].1 < list[k].1);
    }
}

/// A touch moves the clock on by one, gives the chunk that time and leaves all other
/// chunks alone.
pub proof fn touch_moves_the_clock(s: AccessTimes, c: ChunkCoord, d: ChunkCoord)
    requires
        s.now < u64::MAX,
    ensures
        after_touch(s, c).now - s.now == 1,
        after_touch(s, c).times.contains_key(c),
        after_touch(s, c).times[c] == s.now + 1,
        d != c ==> after_touch(s, c).times.contains_key(d) == s.times.contains_key(d),
{
}

} // verus!
