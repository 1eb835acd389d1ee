use common_audio_playback::{PacketQueue, RingBuffer};

#[test]
fn ring_length_never_exceeds_capacity() {
    let mut ring = RingBuffer::new(5);
    ring.refill_from(&vec![1, 2, 3]);
    assert_eq!(ring.available_len(), 3);
    ring.refill_from(&vec![4, 5, 6, 7]);
    assert_eq!(ring.available_len(), 5);
    ring.refill_from(&vec![8, 9, 10, 11, 12, 13, 14, 15]);
    assert_eq!(ring.available_len(), 5);
}

#[test]
fn ring_drops_oldest_first_on_overflow() {
    let mut ring = RingBuffer::new(5);
    ring.refill_from(&vec![1, 2, 3]);
    ring.refill_from(&vec![4, 5, 6, 7]);
    let front = ring.take_front(5);
    assert_eq!(front, vec![3, 4, 5, 6, 7]);
    assert_eq!(ring.available_len(), 0);
}

#[test]
fn take_front_returns_only_what_exists() {
    let mut ring = RingBuffer::new(10);
    ring.refill_from(&vec![9, 8, 7]);
    let got = ring.take_front(10);
    assert_eq!(got, vec![9, 8, 7]);
    assert_eq!(ring.available_len(), 0);
    let nothing = ring.take_front(4);
    assert_eq!(nothing.len(), 0);
}

#[test]
fn take_front_removes_from_the_front_in_order() {
    let mut ring = RingBuffer::new(10);
    ring.refill_from(&vec![1, 2, 3, 4]);
    assert_eq!(ring.take_front(2), vec![1, 2]);
    assert_eq!(ring.take_front(2), vec![3, 4]);
}

#[test]
fn queue_length_stays_capped_and_keeps_the_most_recent() {
    let mut queue = PacketQueue::new(3);
    for k in 0..5u8 {
        queue.enqueue(vec![k]);
        assert!(queue.len() <= 3);
    }
    assert_eq!(queue.len(), 3);
    let drained = queue.dequeue_all_available();
    // The two earliest packets are the ones missing from the final state.
    assert_eq!(drained, vec![vec![2u8], vec![3u8], vec![4u8]]);
    assert_eq!(queue.len(), 0);
}

#[test]
fn dequeue_all_available_returns_in_arrival_order_and_empties() {
    let mut queue = PacketQueue::new(10);
    queue.enqueue(vec![1, 2]);
    queue.enqueue(vec![3]);
    queue.enqueue(vec![]);
    let drained = queue.dequeue_all_available();
    assert_eq!(drained, vec![vec![1u8, 2u8], vec![3u8], vec![]]);
    assert!(queue.is_empty());
}

#[test]
fn try_dequeue_one_pops_the_oldest_or_reports_empty() {
    let mut queue = PacketQueue::new(4);
    assert_eq!(queue.try_dequeue_one(), None);
    queue.enqueue(vec![7]);
    queue.enqueue(vec![8]);
    assert_eq!(queue.try_dequeue_one(), Some(vec![7u8]));
    assert_eq!(queue.try_dequeue_one(), Some(vec![8u8]));
    assert_eq!(queue.try_dequeue_one(), None);
}
