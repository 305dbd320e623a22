use autoterm::backlog::{Backlog, BACKLOG_CAP, READ_CHUNK, RING_CHUNKS};

#[test]
fn fresh_backlog_is_empty() {
    let b = Backlog::new();
    assert_eq!((b.pending_bytes(), b.overflow_dropped(), b.bytes_fed()), (0, 0, 0));
    assert!(!b.should_pause());
}

#[test]
fn drain_feeds_nonempty_chunks_in_order() {
    let mut b = Backlog::new();
    assert!(!b.on_chunk(vec![1u8; 10]));
    assert!(!b.on_chunk(Vec::new()));
    assert!(!b.on_chunk(vec![2u8; 5]));
    assert_eq!(b.pending_bytes(), 15);
    let fed = b.drain();
    assert_eq!(fed, vec![vec![1u8; 10], vec![2u8; 5]], "empty chunks are skipped");
    assert_eq!((b.pending_bytes(), b.bytes_fed()), (0, 15));
    assert!(b.drain().is_empty());
    assert_eq!(b.bytes_fed(), 15);
}

#[test]
fn evicted_chunks_are_deducted() {
    let mut b = Backlog::new();
    for i in 0..RING_CHUNKS {
        assert!(!b.on_chunk(vec![(i % 251) as u8; READ_CHUNK]));
    }
    assert_eq!(b.pending_bytes(), BACKLOG_CAP, "a full ring of full chunks is exactly the cap");
    assert!(b.on_chunk(vec![7u8; 3]), "the ring was full");
    assert_eq!(b.overflow_dropped(), 1);
    assert_eq!(b.pending_bytes(), BACKLOG_CAP - READ_CHUNK as u64 + 3);
    assert!(!b.should_pause(), "the count never passes the cap");
    let fed = b.drain();
    assert_eq!(fed.len(), RING_CHUNKS);
    assert_eq!(fed[0][0], 1, "the oldest chunk was the one evicted");
    assert_eq!(fed[RING_CHUNKS - 1], vec![7u8; 3]);
    assert_eq!((b.pending_bytes(), b.bytes_fed()), (0, BACKLOG_CAP - READ_CHUNK as u64 + 3));
    assert_eq!(b.overflow_dropped(), 1, "draining keeps the overflow count");
}
