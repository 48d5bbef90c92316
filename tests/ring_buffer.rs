use libtock_rx::frame::Frame;
use libtock_rx::ring::RxRingBuffer;

fn frame(seq: u8) -> Frame {
    let mut f = Frame::empty();
    f.header_len = 2;
    f.payload_len = 1;
    f.body[0] = seq;
    f
}

#[test]
fn new_buffer_is_empty_with_sentinel_slots() {
    let mut b = RxRingBuffer::<3>::new();
    assert!(!b.has_frame());
    assert_eq!(b.read_index(), 0);
    assert_eq!(b.write_index(), 0);
    // A write then a read shows the next slot still holds the sentinel after it.
    b.push_frame(frame(9));
    let f = b.next_frame();
    assert_eq!(f.body[0], 9);
    assert_eq!(f.header_len, 2);
    let e = Frame::empty();
    assert_eq!(e.header_len, 0);
    assert_eq!(e.payload_len, 0);
    assert_eq!(e.mic_len, 0);
    assert!(e.body.iter().all(|&x| x == 0));
}

#[test]
fn capacity_three_two_writes_pop_write_pop_twice() {
    let mut b = RxRingBuffer::<3>::new();
    b.push_frame(frame(1));
    b.push_frame(frame(2));
    assert_eq!(b.next_frame().body[0], 1);
    b.push_frame(frame(3));
    assert_eq!(b.next_frame().body[0], 2);
    assert_eq!(b.next_frame().body[0], 3);
    assert!(!b.has_frame());
    assert_eq!(b.read_index(), b.write_index());
}

#[test]
fn up_to_capacity_minus_one_writes_are_kept_in_order() {
    let mut b = RxRingBuffer::<5>::new();
    for s in 1..=4u8 {
        b.push_frame(frame(s));
    }
    for s in 1..=4u8 {
        assert!(b.has_frame());
        assert_eq!(b.next_frame().body[0], s);
    }
    assert!(!b.has_frame());
}

#[test]
fn interleaved_writes_and_pops_are_fifo() {
    let mut b = RxRingBuffer::<4>::new();
    let mut got = Vec::new();
    b.push_frame(frame(1));
    got.push(b.next_frame().body[0]);
    b.push_frame(frame(2));
    b.push_frame(frame(3));
    got.push(b.next_frame().body[0]);
    b.push_frame(frame(4));
    b.push_frame(frame(5));
    while b.has_frame() {
        got.push(b.next_frame().body[0]);
    }
    assert_eq!(got, vec![1, 2, 3, 4, 5]);
}

#[test]
fn capacity_writes_without_pop_overwrite_the_oldest() {
    let mut b = RxRingBuffer::<4>::new();
    for s in 1..=4u8 {
        b.push_frame(frame(s));
    }
    let mut got = Vec::new();
    while b.has_frame() {
        got.push(b.next_frame().body[0]);
    }
    // The sequence numbers show a gap: frame 1 was lost.
    assert_eq!(got, vec![2, 3, 4]);
}

#[test]
fn smallest_usable_capacity_holds_one_frame() {
    let mut b = RxRingBuffer::<2>::new();
    b.push_frame(frame(1));
    b.push_frame(frame(2));
    assert_eq!(b.next_frame().body[0], 2);
    assert!(!b.has_frame());
}

#[test]
fn indices_wrap_around() {
    let mut b = RxRingBuffer::<3>::new();
    for s in 1..=7u8 {
        b.push_frame(frame(s));
        assert_eq!(b.next_frame().body[0], s);
    }
    assert_eq!(b.read_index(), 7 % 3);
    assert_eq!(b.write_index(), 7 % 3);
}
