use seamless::stream::{Deduplication, DrainTimerAction, Stream};

#[test]
fn test_new_deduplication() {
    let dedup = Deduplication::new(5);
    assert_eq!(dedup._len(), 0);
    assert!(dedup._capacity() >= 5);
}

#[test]
fn test_push_pop() {
    let mut dedup = Deduplication::new(2);
    // Test pushing elements
    dedup._push(1);
    dedup._push(2);
    dedup._push(3);
    assert_eq!(dedup._len(), 3);
    assert!(dedup._contains(1));
    assert!(dedup._contains(2));
    assert!(dedup._contains(3));

    // Test popping element
    assert!(dedup._pop());
    assert_eq!(dedup._len(), 2);
    assert!(!dedup._contains(1));
    assert!(dedup._contains(2));
    assert!(dedup._contains(3));
}

#[test]
fn test_capacity() {
    let mut dedup = Deduplication::new(3);
    assert_eq!(dedup._capacity(), 3);

    // Fill the deduplication set
    dedup.is_duplicate(1);
    dedup.is_duplicate(2);
    dedup.is_duplicate(3);

    // At capacity, new ID (4) should push out the oldest (1)
    dedup.is_duplicate(4);
    assert_eq!(dedup.is_duplicate(1), false);
    assert_eq!(dedup.is_duplicate(3), true);
    assert_eq!(dedup.is_duplicate(4), true);
}

#[test]
fn test_is_duplicate() {
    let mut dedup = Deduplication::new(5);

    // Initially, no ID is a duplicate
    assert_eq!(dedup.is_duplicate(1), false);
    assert_eq!(dedup.is_duplicate(2), false);

    // Same IDs should now be duplicates
    assert_eq!(dedup.is_duplicate(1), true);
    assert_eq!(dedup.is_duplicate(2), true);

    // New ID should not be a duplicate
    assert_eq!(dedup.is_duplicate(3), false);
}

#[test]
fn test_handle_rx_no_deduplication() {
    let mut stream = Stream::new(None, None);
    stream.insert_used_link("link1".to_string());
    let (out, _action) = stream.handle_rx(1, vec![0], true, false);
    assert_eq!(out, vec![vec![0u8]]);
    assert_eq!(stream.get_used_links(), vec!["link1".to_string()], "Used links should remain unchanged");
}

#[test]
fn test_handle_rx_deduplication_duplicate() {
    let mut stream = Stream::new(None, None);
    stream.insert_used_link("link1".to_string());
    let (first, _) = stream.handle_rx(1, vec![0], true, false);
    assert_eq!(first.len(), 1, "Expected the first packet to be forwarded");
    let (second, action) = stream.handle_rx(1, vec![0], true, false);
    assert!(second.is_empty(), "Expected the duplicate packet to be dropped");
    assert_eq!(action, DrainTimerAction::Keep);
    assert_eq!(stream.get_used_links(), vec!["link1".to_string()], "Used links should remain unchanged");
}

#[test]
fn test_handle_rx_deduplication_no_duplicate() {
    let mut stream = Stream::new(None, None);
    stream.insert_used_link("link1".to_string());
    let (first, _) = stream.handle_rx(1, vec![0], true, false);
    assert_eq!(first.len(), 1, "Expected the first packet to be forwarded");
    let (second, _) = stream.handle_rx(2, vec![0], true, false);
    assert_eq!(second, vec![vec![0u8]], "Expected the next packet to be forwarded");
    assert_eq!(stream.get_used_links(), vec!["link1".to_string()], "Used links should remain unchanged");
}

#[test]
fn stream_reorders_and_starts_drain_timer() {
    let mut stream = Stream::new(Some(8), None);
    let (out, _) = stream.handle_rx(1, vec![1], false, false);
    assert_eq!(out, vec![vec![1u8]]);
    // packet 3 arrives before 2: it is held back and the drain timer starts
    let (out, action) = stream.handle_rx(3, vec![3], false, false);
    assert!(out.is_empty());
    assert_eq!(action, DrainTimerAction::Start(100_000_000));
    // packet 2 completes the gap: both go out in order and the timer stops
    let (out, action) = stream.handle_rx(2, vec![2], false, false);
    assert_eq!(out, vec![vec![2u8], vec![3u8]]);
    assert_eq!(action, DrainTimerAction::Abort);
}

#[test]
fn stream_drain_on_timeout_hands_out_in_order() {
    let mut stream = Stream::new(Some(8), None);
    stream.handle_rx(1, vec![1], false, false);
    stream.handle_rx(5, vec![5], false, false);
    stream.handle_rx(3, vec![3], false, false);
    let out = stream.drain_on_timeout();
    assert_eq!(out, vec![vec![3u8], vec![5u8]]);
}

#[test]
fn stream_used_links_keep_first_use_order() {
    let mut stream = Stream::new(None, None);
    stream.insert_used_link("b".to_string());
    stream.insert_used_link("a".to_string());
    stream.insert_used_link("b".to_string());
    assert_eq!(stream.get_used_links(), vec!["b".to_string(), "a".to_string()]);
}

#[test]
fn stream_reorder_timeout_is_twice_the_rtt() {
    let mut stream = Stream::new(None, None);
    assert_eq!(stream.reorder_timeout(), 100_000_000);
    stream.set_reorder_timeout(30);
    assert_eq!(stream.reorder_timeout(), 60_000_000);
}

#[test]
fn deduplication_push_bounded_forgets_oldest() {
    let mut dedup = Deduplication::new(4);
    dedup.push_bounded(1, 2);
    dedup.push_bounded(2, 2);
    dedup.push_bounded(3, 2);
    assert!(!dedup._contains(1));
    assert!(dedup._contains(2));
    assert!(dedup._contains(3));
    assert_eq!(dedup._len(), 2);
}

#[test]
fn deduplication_holds_what_it_was_made_for() {
    let mut dedup = Deduplication::new(1000);
    assert!(dedup._capacity() >= 1000);
    for id in 0..1000u32 {
        assert_eq!(dedup.is_duplicate(id), false);
    }
    assert_eq!(dedup._len(), 1000);
    for id in 0..1000u32 {
        assert_eq!(dedup.is_duplicate(id), true);
    }
}

#[test]
fn stream_drops_a_remembered_duplicate_without_effect() {
    let mut stream = Stream::new(Some(4), None);
    let (first, _) = stream.handle_rx(1, vec![1], true, false);
    assert_eq!(first, vec![vec![1u8]]);
    let (ahead, action) = stream.handle_rx(3, vec![3], true, false);
    assert!(ahead.is_empty());
    assert_eq!(action, DrainTimerAction::Start(100_000_000));
    let (again, action) = stream.handle_rx(3, vec![9], true, true);
    assert!(again.is_empty());
    assert_eq!(action, DrainTimerAction::Keep);
    let (rest, action) = stream.handle_rx(2, vec![2], true, false);
    assert_eq!(rest, vec![vec![2u8], vec![3u8]]);
    assert_eq!(action, DrainTimerAction::Abort);
}
