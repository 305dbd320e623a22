use autoterm::ring::RingBuffer;

#[test]
fn ring_overwrites_oldest_and_counts() {
    let mut ring = RingBuffer::new(3);
    for v in ["a", "b", "c"] {
        assert!(ring.push(v).is_none());
    }
    assert_eq!(ring.push("d"), Some("a"), "a full ring evicts the oldest");
    assert_eq!(ring.dropped(), 1);
    let drained: Vec<&str> = ring.take_all().into_iter().collect();
    assert_eq!(drained, vec!["b", "c", "d"], "the oldest entry a was evicted");
    assert!(ring.is_empty());
    assert_eq!(ring.dropped(), 1, "draining keeps the count");
}

#[test]
fn zero_capacity_holds_one() {
    let mut ring = RingBuffer::new(0);
    assert!(ring.push(1).is_none());
    assert_eq!(ring.push(2), Some(1));
    assert_eq!(ring.len(), 1);
    assert_eq!(ring.dropped(), 1);
}

#[test]
fn len_never_exceeds_capacity() {
    let mut ring = RingBuffer::new(4);
    for i in 0..10 {
        ring.push(i);
        assert!(ring.len() <= 4);
    }
    assert_eq!(ring.dropped(), 6);
    let left: Vec<i32> = ring.take_all().into_iter().collect();
    assert_eq!(left, vec![6, 7, 8, 9]);
}

#[test]
fn keeps_the_newest_entries_after_many_pushes() {
    for cap in [0usize, 1, 4] {
        for k in 0..10u32 {
            let mut ring = RingBuffer::new(cap);
            for v in 0..k {
                ring.push(v);
            }
            let kept = (k as usize).min(cap.max(1));
            assert_eq!(ring.len(), kept, "cap {} after {} pushes", cap, k);
            let drained: Vec<u32> = ring.take_all().into_iter().collect();
            let expected: Vec<u32> = (k - kept as u32..k).collect();
            assert_eq!(drained, expected);
        }
    }
}
