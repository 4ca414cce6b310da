//! Tests for the ring buffer: ordered append, lossy overflow, discard
//! arithmetic, zero-copy access and order-preserving growth.

use sliding_spectrum::ring_buffer::RingBuffer;
use sliding_spectrum::source::SrcInfo;

fn read_all(rb: &RingBuffer) -> Vec<i32> {
    let (a, b) = rb.access();
    let mut out = Vec::new();
    out.extend_from_slice(a);
    out.extend_from_slice(b);
    out
}

#[test]
fn push_and_read_in_order() {
    let mut rb = RingBuffer::new(8);
    assert_eq!(rb.capacity(), 8);
    assert_eq!(rb.len(), 0);
    rb.push(&vec![1, 2, 3]);
    rb.push(&vec![4, 5]);
    assert_eq!(rb.len(), 5);
    assert_eq!(read_all(&rb), vec![1, 2, 3, 4, 5]);
}

#[test]
fn overflow_drops_oldest() {
    let mut rb = RingBuffer::new(4);
    rb.push(&vec![1, 2, 3, 4]);
    rb.push(&vec![5, 6]);
    assert_eq!(rb.len(), 4);
    assert_eq!(read_all(&rb), vec![3, 4, 5, 6]);
}

#[test]
fn oversized_push_keeps_newest() {
    let mut rb = RingBuffer::new(3);
    rb.push(&vec![1, 2, 3, 4, 5, 6, 7]);
    assert_eq!(rb.len(), 3);
    assert_eq!(read_all(&rb), vec![5, 6, 7]);
}

#[test]
fn discard_correctness() {
    // After discard(k) with k <= len, len decreases by exactly k and the
    // next access starts at former index k.
    let mut rb = RingBuffer::new(16);
    let data: Vec<i32> = (0..10).collect();
    rb.push(&data);
    rb.discard(4);
    assert_eq!(rb.len(), 6);
    assert_eq!(read_all(&rb), vec![4, 5, 6, 7, 8, 9]);
    rb.discard(6);
    assert_eq!(rb.len(), 0);
    assert_eq!(read_all(&rb), Vec::<i32>::new());
}

#[test]
fn access_splits_on_wraparound() {
    let mut rb = RingBuffer::new(4);
    rb.push(&vec![1, 2, 3, 4]);
    rb.discard(3);
    rb.push(&vec![5, 6]);
    let (a, b) = rb.access();
    // Read cursor sits near the end of storage: the occupied region wraps.
    assert_eq!(a.len() + b.len(), 3);
    assert!(!b.is_empty());
    assert_eq!(read_all(&rb), vec![4, 5, 6]);
}

#[test]
fn growth_preserves_order() {
    // Fill a small buffer until samples are dropped, then grow and check
    // that all unread samples survive in their original relative order
    // with no duplication.
    let mut rb = RingBuffer::new(4);
    rb.push(&vec![1, 2, 3, 4, 5, 6]);
    assert_eq!(read_all(&rb), vec![3, 4, 5, 6]);
    rb.grow(12);
    assert_eq!(rb.capacity(), 12);
    assert_eq!(rb.len(), 4);
    assert_eq!(read_all(&rb), vec![3, 4, 5, 6]);
    rb.push(&vec![7, 8]);
    assert_eq!(read_all(&rb), vec![3, 4, 5, 6, 7, 8]);
}

#[test]
fn delivery_beyond_free_capacity_grows() {
    // A delivery larger than the free capacity triggers growth instead of
    // dropping samples: afterwards everything unread is still there, in
    // order.
    let mut src = SrcInfo::new(4);
    src.push_callback_data(&vec![1, 2, 3], 4, 1_000);
    assert_eq!(src.sample_cons().capacity(), 4);
    // Free capacity is 1, the chunk has 4 samples: grow to 3 + 2*4 + 4.
    src.push_callback_data(&vec![4, 5, 6, 7], 4, 2_000);
    assert_eq!(src.sample_cons().capacity(), 15);
    assert_eq!(src.sample_cons().len(), 7);
    assert_eq!(read_all(src.sample_cons()), vec![1, 2, 3, 4, 5, 6, 7]);
}
