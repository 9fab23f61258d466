use seamless::reorder::{ReorderBuffer, ReorderResults};

#[test]
fn first_packet_initializes() {
    let mut b = ReorderBuffer::new(4);
    let (r, out) = b.handle_packet(vec![10], 0);
    assert_eq!(r, ReorderResults::Initialized);
    assert_eq!(out, vec![vec![10u8]]);
}

#[test]
fn in_order_passes_through() {
    let mut b = ReorderBuffer::new(4);
    let (r, out) = b.handle_packet(vec![1], 1);
    assert_eq!(r, ReorderResults::InOrderPassthrough);
    assert_eq!(out, vec![vec![1u8]]);
    let (r, out) = b.handle_packet(vec![2], 2);
    assert_eq!(r, ReorderResults::InOrderPassthrough);
    assert_eq!(out, vec![vec![2u8]]);
}

#[test]
fn gap_is_held_and_released_in_order() {
    let mut b = ReorderBuffer::new(4);
    b.handle_packet(vec![1], 1);
    let (r, out) = b.handle_packet(vec![4], 4);
    assert_eq!(r, ReorderResults::Inserted);
    assert!(out.is_empty());
    let (r, out) = b.handle_packet(vec![3], 3);
    assert_eq!(r, ReorderResults::Inserted);
    assert!(out.is_empty());
    let (r, out) = b.handle_packet(vec![2], 2);
    assert_eq!(r, ReorderResults::ArrivalDrain);
    assert_eq!(out, vec![vec![2u8], vec![3u8], vec![4u8]]);
    assert!(b.buffer_is_empty());
    assert_eq!(b._sequence, 4);
}

#[test]
fn old_packet_passes_through() {
    let mut b = ReorderBuffer::new(4);
    b.handle_packet(vec![1], 1);
    b.handle_packet(vec![2], 2);
    let (r, out) = b.handle_packet(vec![9], 1);
    assert_eq!(r, ReorderResults::OutofOrderPassthrough);
    assert_eq!(out, vec![vec![9u8]]);
}

#[test]
fn full_buffer_drains() {
    let mut b = ReorderBuffer::new(2);
    b.handle_packet(vec![1], 1);
    let (r, _) = b.handle_packet(vec![5], 5);
    assert_eq!(r, ReorderResults::Inserted);
    let (r, out) = b.handle_packet(vec![4], 4);
    assert_eq!(r, ReorderResults::CapacityDrain);
    assert_eq!(out, vec![vec![4u8], vec![5u8]]);
    assert!(b.buffer_is_empty());
    assert_eq!(b._sequence, 5);
}

#[test]
fn drain_complete_buffer_is_ordered() {
    let mut b = ReorderBuffer::new(8);
    b.handle_packet(vec![1], 1);
    b.handle_packet(vec![9], 9);
    b.handle_packet(vec![6], 6);
    b.handle_packet(vec![8], 8);
    assert_eq!(b.min_sequence(), Some(6));
    let out = b.drain_complete_buffer();
    assert_eq!(out, vec![vec![6u8], vec![8u8], vec![9u8]]);
    assert!(b.buffer_is_empty());
    assert_eq!(b._sequence, 9);
}
