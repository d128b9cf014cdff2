use vad_pipeline::transfer::TransferBuffer;

#[test]
fn starts_empty_with_requested_capacity() {
    let tb = TransferBuffer::new(8);
    assert_eq!(tb.len(), 0);
    assert_eq!(tb.capacity(), 8);
}

#[test]
fn pop_returns_samples_in_push_order() {
    let mut tb = TransferBuffer::new(4);
    assert!(tb.push(1));
    assert!(tb.push(-2));
    assert!(tb.push(3));
    assert_eq!(tb.pop(), Some(1));
    assert_eq!(tb.pop(), Some(-2));
    assert_eq!(tb.pop(), Some(3));
    assert_eq!(tb.pop(), None);
}

#[test]
fn push_onto_full_ring_drops_the_new_sample() {
    let mut tb = TransferBuffer::new(2);
    assert!(tb.push(10));
    assert!(tb.push(11));
    assert!(!tb.push(12));
    assert_eq!(tb.len(), 2);
    assert_eq!(tb.pop(), Some(10));
    assert_eq!(tb.pop(), Some(11));
    assert_eq!(tb.pop(), None);
}

#[test]
fn overfilling_keeps_only_the_earliest_fitting_samples() {
    // more pushes than capacity: the ring holds at most its capacity,
    // and what it holds is the prefix that fit
    let mut tb = TransferBuffer::new(4);
    let samples: Vec<i16> = vec![1, 2, 3, 4, 5, 6];
    let accepted = tb.push_all(&samples);
    assert_eq!(accepted, 4);
    assert_eq!(tb.len(), 4);
    for expect in [1i16, 2, 3, 4] {
        assert_eq!(tb.pop(), Some(expect));
    }
    assert_eq!(tb.pop(), None);
}

#[test]
fn push_all_respects_room_already_used() {
    let mut tb = TransferBuffer::new(4);
    assert!(tb.push(9));
    let samples: Vec<i16> = vec![1, 2, 3, 4];
    let accepted = tb.push_all(&samples);
    assert_eq!(accepted, 3);
    assert_eq!(tb.pop(), Some(9));
    assert_eq!(tb.pop(), Some(1));
    assert_eq!(tb.pop(), Some(2));
    assert_eq!(tb.pop(), Some(3));
    assert_eq!(tb.pop(), None);
}

#[test]
fn preload_fills_with_zeros_up_to_capacity() {
    let mut tb = TransferBuffer::new(3);
    let accepted = tb.preload_silence(5);
    assert_eq!(accepted, 3);
    assert_eq!(tb.pop(), Some(0));
    assert_eq!(tb.pop(), Some(0));
    assert_eq!(tb.pop(), Some(0));
    assert_eq!(tb.pop(), None);
}

#[test]
fn ring_frees_space_as_samples_are_popped() {
    let mut tb = TransferBuffer::new(2);
    assert!(tb.push(1));
    assert!(tb.push(2));
    assert_eq!(tb.pop(), Some(1));
    assert!(tb.push(3));
    assert_eq!(tb.pop(), Some(2));
    assert_eq!(tb.pop(), Some(3));
}
