use gestalt::coord::ChunkCoord;
use gestalt::lru::LruTracker;

#[test]
fn new_tracker_is_empty() {
    let tracker = LruTracker::new();
    assert!(tracker.is_empty());
    assert_eq!(tracker.len(), 0);
}

#[test]
fn touch_records_access() {
    let mut tracker = LruTracker::new();
    let coord = ChunkCoord::new(1, 2, 3);

    tracker.touch(coord);

    assert_eq!(tracker.len(), 1);
    assert!(tracker.get_access_time(coord).is_some());
}

#[test]
fn touch_increments_time() {
    let mut tracker = LruTracker::new();
    let a = ChunkCoord::new(0, 0, 0);
    let b = ChunkCoord::new(1, 0, 0);

    tracker.touch(a);
    tracker.touch(b);

    let time_a = tracker.get_access_time(a).unwrap();
    let time_b = tracker.get_access_time(b).unwrap();
    assert!(time_b > time_a);
}

#[test]
fn multiple_touches_update_time() {
    let mut tracker = LruTracker::new();
    let a = ChunkCoord::new(0, 0, 0);
    let b = ChunkCoord::new(1, 0, 0);

    tracker.touch(a); // time=1
    tracker.touch(b); // time=2
    tracker.touch(a); // time=3, a is now newer than b

    let time_a = tracker.get_access_time(a).unwrap();
    let time_b = tracker.get_access_time(b).unwrap();
    assert!(time_a > time_b);
}

#[test]
fn get_lru_sorted_oldest_first() {
    let mut tracker = LruTracker::new();
    let a = ChunkCoord::new(0, 0, 0);
    let b = ChunkCoord::new(1, 0, 0);
    let c = ChunkCoord::new(2, 0, 0);

    tracker.touch(c);
    tracker.touch(a);
    tracker.touch(b);

    let sorted = tracker.get_lru_sorted();
    assert_eq!(sorted.len(), 3);
    assert_eq!(sorted[0].0, c); // oldest
    assert_eq!(sorted[1].0, a);
    assert_eq!(sorted[2].0, b); // newest
}

#[test]
fn remove_clears_tracking() {
    let mut tracker = LruTracker::new();
    let coord = ChunkCoord::new(1, 2, 3);

    tracker.touch(coord);
    assert_eq!(tracker.len(), 1);

    tracker.remove(coord);
    assert_eq!(tracker.len(), 0);
    assert!(tracker.get_access_time(coord).is_none());
}

#[test]
fn clear_resets_everything() {
    let mut tracker = LruTracker::new();
    tracker.touch(ChunkCoord::new(0, 0, 0));
    tracker.touch(ChunkCoord::new(1, 0, 0));

    tracker.clear();

    assert!(tracker.is_empty());
}

#[test]
fn untracked_chunk_returns_none() {
    let tracker = LruTracker::new();
    assert!(tracker.get_access_time(ChunkCoord::zero()).is_none());
}
