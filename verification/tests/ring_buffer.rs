use price_oracle::ring_buffer::RingBuffer;

fn contents(ring: &RingBuffer<u64>) -> Vec<u64> {
    ring.iter().into_iter().copied().collect()
}

#[test]
fn ring_new_is_empty() {
    let ring: RingBuffer<u64> = RingBuffer::new(4);
    assert!(ring.is_empty());
    assert_eq!(ring.len(), 0);
    assert_eq!(contents(&ring), Vec::<u64>::new());
}

#[test]
fn ring_push_below_capacity_keeps_all_in_order() {
    let mut ring: RingBuffer<u64> = RingBuffer::new(4);
    ring.push(10);
    ring.push(20);
    ring.push(30);
    assert!(!ring.is_empty());
    assert_eq!(ring.len(), 3);
    assert_eq!(contents(&ring), vec![10, 20, 30]);
}

#[test]
fn ring_push_exactly_capacity() {
    let mut ring: RingBuffer<u64> = RingBuffer::new(3);
    ring.push(1);
    ring.push(2);
    ring.push(3);
    assert_eq!(ring.len(), 3);
    assert_eq!(contents(&ring), vec![1, 2, 3]);
}

#[test]
fn ring_overflow_keeps_last_capacity_items() {
    let mut ring: RingBuffer<u64> = RingBuffer::new(3);
    for item in 1..=5u64 {
        ring.push(item);
    }
    assert_eq!(ring.len(), 3);
    assert_eq!(contents(&ring), vec![3, 4, 5]);
}

#[test]
fn ring_overflow_many_times_around() {
    let capacity: usize = 7;
    for extra in 0..30usize {
        let mut ring: RingBuffer<u64> = RingBuffer::new(capacity);
        let total = capacity + extra;
        for item in 0..total as u64 {
            ring.push(item);
        }
        let expected: Vec<u64> = ((total - capacity) as u64..total as u64).collect();
        assert_eq!(ring.len(), capacity);
        assert_eq!(contents(&ring), expected);
    }
}

#[test]
fn ring_of_capacity_one_keeps_newest() {
    let mut ring: RingBuffer<u64> = RingBuffer::new(1);
    ring.push(7);
    assert_eq!(contents(&ring), vec![7]);
    ring.push(8);
    assert_eq!(contents(&ring), vec![8]);
    assert_eq!(ring.len(), 1);
}

#[test]
fn ring_of_capacity_zero_drops_every_push() {
    let mut ring: RingBuffer<u64> = RingBuffer::new(0);
    ring.push(1);
    ring.push(2);
    assert!(ring.is_empty());
    assert_eq!(ring.len(), 0);
    assert_eq!(contents(&ring), Vec::<u64>::new());
}

#[test]
fn ring_iter_can_be_taken_again() {
    let mut ring: RingBuffer<u64> = RingBuffer::new(2);
    ring.push(1);
    ring.push(2);
    ring.push(3);
    let first = contents(&ring);
    let second = contents(&ring);
    assert_eq!(first, vec![2, 3]);
    assert_eq!(first, second);
}

#[test]
fn ring_holds_owned_values() {
    let mut ring: RingBuffer<String> = RingBuffer::new(2);
    ring.push("a".to_string());
    ring.push("b".to_string());
    ring.push("c".to_string());
    let held: Vec<String> = ring.iter().into_iter().cloned().collect();
    assert_eq!(held, vec!["b".to_string(), "c".to_string()]);
}

#[test]
fn ring_get_counts_from_the_oldest() {
    let mut ring: RingBuffer<u64> = RingBuffer::new(3);
    assert_eq!(ring.capacity(), 3);
    assert_eq!(ring.get(0), None);
    for item in 1..=4u64 {
        ring.push(item);
    }
    assert_eq!(ring.get(0), Some(&2));
    assert_eq!(ring.get(1), Some(&3));
    assert_eq!(ring.get(2), Some(&4));
    assert_eq!(ring.get(3), None);
    assert_eq!(ring.capacity(), 3);
}
