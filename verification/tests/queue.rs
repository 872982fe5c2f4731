use gestalt::coord::ChunkCoord;
use gestalt::queue::{RebuildQueue, RebuildRequest};
use std::cmp::Ordering;

#[test]
fn new_queue_is_empty() {
    let queue = RebuildQueue::new();
    assert!(queue.is_empty());
    assert_eq!(queue.len(), 0);
}

#[test]
fn enqueue_and_pop() {
    let mut queue = RebuildQueue::new();

    queue.enqueue(ChunkCoord::new(1, 1, 1), 1.0f32.to_bits(), 0);
    queue.enqueue(ChunkCoord::new(2, 2, 2), 2.0f32.to_bits(), 0);
    queue.enqueue(ChunkCoord::new(3, 3, 3), 0.5f32.to_bits(), 0);

    assert_eq!(queue.len(), 3);

    // Should pop in priority order (highest first)
    let req = queue.pop().unwrap();
    assert_eq!(req.coord, ChunkCoord::new(2, 2, 2));
    assert_eq!(f32::from_bits(req.priority), 2.0);

    let req = queue.pop().unwrap();
    assert_eq!(req.coord, ChunkCoord::new(1, 1, 1));

    let req = queue.pop().unwrap();
    assert_eq!(req.coord, ChunkCoord::new(3, 3, 3));

    assert!(queue.pop().is_none());
}

#[test]
fn deduplication() {
    let mut queue = RebuildQueue::new();
    let coord = ChunkCoord::new(1, 1, 1);

    assert!(queue.enqueue(coord, 1.0f32.to_bits(), 0));
    assert!(!queue.enqueue(coord, 2.0f32.to_bits(), 0)); // Already in queue

    assert_eq!(queue.len(), 1);
}

#[test]
fn contains() {
    let mut queue = RebuildQueue::new();
    let coord = ChunkCoord::new(1, 1, 1);

    assert!(!queue.contains(coord));

    queue.enqueue(coord, 1.0f32.to_bits(), 0);
    assert!(queue.contains(coord));

    queue.pop();
    assert!(!queue.contains(coord));
}

#[test]
fn remove() {
    let mut queue = RebuildQueue::new();
    let coord = ChunkCoord::new(1, 1, 1);

    queue.enqueue(coord, 1.0f32.to_bits(), 0);
    assert!(queue.contains(coord));

    assert!(queue.remove(coord));
    assert!(!queue.contains(coord));
    assert_eq!(queue.len(), 0);

    // Remove non-existent
    assert!(!queue.remove(coord));
}

#[test]
fn clear() {
    let mut queue = RebuildQueue::new();

    queue.enqueue(ChunkCoord::new(1, 1, 1), 1.0f32.to_bits(), 0);
    queue.enqueue(ChunkCoord::new(2, 2, 2), 2.0f32.to_bits(), 0);

    queue.clear();

    assert!(queue.is_empty());
    assert_eq!(queue.len(), 0);
}

#[test]
fn peek_does_not_remove() {
    let mut queue = RebuildQueue::new();
    queue.enqueue(ChunkCoord::new(1, 1, 1), 1.0f32.to_bits(), 0);

    let peeked = queue.peek();
    assert!(peeked.is_some());
    assert_eq!(queue.len(), 1);

    let peeked_again = queue.peek();
    assert!(peeked_again.is_some());
    assert_eq!(queue.len(), 1);
}

#[test]
fn data_version_preserved() {
    let mut queue = RebuildQueue::new();
    queue.enqueue(ChunkCoord::new(1, 1, 1), 1.0f32.to_bits(), 42);

    let req = queue.pop().unwrap();
    assert_eq!(req.data_version, 42);
}

#[test]
fn unordered_priorities_are_kept() {
    let mut queue = RebuildQueue::new();
    assert!(queue.enqueue(ChunkCoord::new(1, 1, 1), f32::NAN.to_bits(), 7));
    assert!(queue.enqueue(ChunkCoord::new(2, 2, 2), 1.0f32.to_bits(), 8));

    assert_eq!(queue.len(), 2);
    let mut versions = [queue.pop().unwrap().data_version, queue.pop().unwrap().data_version];
    versions.sort();
    assert_eq!(versions, [7, 8]);
    assert!(queue.pop().is_none());
}

#[test]
fn requests_compare_by_chunk_and_order_by_priority() {
    let request = |x: i32, priority: f32, data_version: u64| RebuildRequest {
        coord: ChunkCoord::new(x, 0, 0),
        priority: priority.to_bits(),
        data_version,
    };
    assert!(request(1, 1.0, 2) == request(1, 5.0, 3));
    assert!(request(1, 1.0, 2) != request(2, 1.0, 2));
    assert!(request(1, 1.0, 0) < request(2, 1.5, 0));
    assert!(request(1, -1.0, 0) > request(1, -1.5, 0));
    let order = |a: f32, b: f32| request(1, a, 0).partial_cmp(&request(2, b, 0));
    assert_eq!(order(0.0, -0.0), Some(Ordering::Equal));
    assert_eq!(order(f32::NAN, 1.0), Some(Ordering::Equal));
    assert_eq!(order(1.0, f32::INFINITY), Some(Ordering::Less));
}
