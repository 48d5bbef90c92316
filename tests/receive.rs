use libtock_rx::error::ErrorCode;
use libtock_rx::frame::Frame;
use libtock_rx::kernel::{Kernel, KernelEvent, Syscalls};
use libtock_rx::ring::RxRingBuffer;
use libtock_rx::rx::{
    AlarmFut, FrameNotificationFut, ReceivedFrameOrFut, RxBufferAlternatingOperator,
    RxOperator, RxSingleBufferOperator,
};
use libtock_rx::future::{SelectOutput, TockFuture};

fn frame(seq: u8) -> Frame {
    let mut f = Frame::empty();
    f.payload_len = 1;
    f.body[0] = seq;
    f
}

fn arrives(seq: u8) -> KernelEvent {
    KernelEvent::FrameReceived(frame(seq))
}

fn alternating(k: &mut Kernel<4>) -> RxBufferAlternatingOperator<4> {
    match RxBufferAlternatingOperator::new(k, RxRingBuffer::new(), RxRingBuffer::new()) {
        Ok(op) => op,
        Err(_) => panic!("sharing failed"),
    }
}

#[test]
fn alternating_returns_frames_written_before_the_call_in_order() {
    let mut k = Kernel::<4>::new(vec![]);
    let mut op = alternating(&mut k);
    k.deliver_frame(frame(1));
    k.deliver_frame(frame(2));
    assert_eq!(op.receive_frame(&mut k).unwrap().body[0], 1);
    assert_eq!(op.receive_frame(&mut k).unwrap().body[0], 2);
}

#[test]
fn alternating_waits_for_a_frame() {
    let mut k = Kernel::<4>::new(vec![KernelEvent::Tick, KernelEvent::Tick, arrives(5), arrives(6)]);
    let mut op = alternating(&mut k);
    assert_eq!(op.receive_frame(&mut k).unwrap().body[0], 5);
    assert_eq!(k.events_left(), 1);
    assert_eq!(k.now(), 2);
    assert_eq!(op.receive_frame(&mut k).unwrap().body[0], 6);
    assert_eq!(k.events_left(), 0);
}

#[test]
fn alternating_is_loss_free_across_reads() {
    // Writes land while the application reads its own buffer: none is lost,
    // none is repeated, and they come back in write order.
    let mut k = Kernel::<4>::new(vec![arrives(7), arrives(8)]);
    let mut op = alternating(&mut k);
    let mut got = Vec::new();
    k.deliver_frame(frame(1));
    k.deliver_frame(frame(2));
    got.push(op.receive_frame(&mut k).unwrap().body[0]);
    k.deliver_frame(frame(3));
    got.push(op.receive_frame(&mut k).unwrap().body[0]);
    k.deliver_frame(frame(4));
    k.deliver_frame(frame(5));
    got.push(op.receive_frame(&mut k).unwrap().body[0]);
    k.deliver_frame(frame(6));
    for _ in 0..3 {
        got.push(op.receive_frame(&mut k).unwrap().body[0]);
    }
    got.push(op.receive_frame(&mut k).unwrap().body[0]);
    got.push(op.receive_frame(&mut k).unwrap().body[0]);
    assert_eq!(got, vec![1, 2, 3, 4, 5, 6, 7, 8]);
}

#[test]
fn alternating_takes_a_frame_that_came_before_the_swap() {
    let mut k = Kernel::<4>::new(vec![]);
    let op = alternating(&mut k);
    k.deliver_frame(frame(1));
    match op.receive_frame_fut(&mut k) {
        Ok(ReceivedFrameOrFut::Frame(_, f)) => assert_eq!(f.body[0], 1),
        _ => panic!("expected a frame"),
    }
}

#[test]
fn alternating_future_finishes_the_receive() {
    let mut k = Kernel::<4>::new(vec![KernelEvent::Tick, arrives(3), arrives(4)]);
    let op = alternating(&mut k);
    let fut = match op.receive_frame_fut(&mut k) {
        Ok(ReceivedFrameOrFut::Fut(fut)) => fut,
        _ => panic!("expected a future"),
    };
    assert!(!fut.check_resolved(&k));
    let (mut op, r) = fut.await_completion(&mut k);
    assert_eq!(r.unwrap().body[0], 3);
    assert!(!k.is_notified());
    assert_eq!(k.events_left(), 1);
    assert_eq!(op.receive_frame(&mut k).unwrap().body[0], 4);
}

#[test]
fn alternating_future_reports_a_failed_swap_and_keeps_the_frame() {
    let mut k = Kernel::<4>::new(vec![arrives(6)]);
    let op = alternating(&mut k);
    let fut = match op.receive_frame_fut(&mut k) {
        Ok(ReceivedFrameOrFut::Fut(fut)) => fut,
        _ => panic!("expected a future"),
    };
    k.fail_next_allow(ErrorCode::Busy);
    let (mut op, r) = fut.await_completion(&mut k);
    assert_eq!(r.err(), Some(ErrorCode::Busy));
    assert_eq!(op.receive_frame(&mut k).unwrap().body[0], 6);
}

#[test]
fn alternating_future_can_be_cancelled() {
    let mut k = Kernel::<4>::new(vec![]);
    let op = alternating(&mut k);
    let fut = match op.receive_frame_fut(&mut k) {
        Ok(ReceivedFrameOrFut::Fut(fut)) => fut,
        _ => panic!("expected a future"),
    };
    let mut op = fut.cancel(&mut k);
    k.deliver_frame(frame(2));
    assert!(!k.is_notified());
    assert_eq!(op.receive_frame(&mut k).unwrap().body[0], 2);
}

#[test]
fn alternating_future_failure_gives_the_operator_back() {
    let mut k = Kernel::<4>::new(vec![]);
    let op = alternating(&mut k);
    k.fail_next_allow(ErrorCode::Invalid);
    match op.receive_frame_fut(&mut k) {
        Err((e, _)) => assert_eq!(e, ErrorCode::Invalid),
        Ok(_) => panic!("expected the swap to fail"),
    }
}

#[test]
fn single_buffer_loses_a_frame_written_while_not_lent() {
    let mut k = Kernel::<4>::new(vec![arrives(2)]);
    let mut op = RxSingleBufferOperator::new(RxRingBuffer::<4>::new());
    // Frame 1 comes while the application holds its only buffer: dropped.
    k.deliver_frame(frame(1));
    assert_eq!(op.receive_frame(&mut k).unwrap().body[0], 2);
    // The same race on the alternating operator keeps the frame.
    let mut k2 = Kernel::<4>::new(vec![arrives(2)]);
    let mut op2 = alternating(&mut k2);
    k2.deliver_frame(frame(1));
    assert_eq!(op2.receive_frame(&mut k2).unwrap().body[0], 1);
    assert_eq!(op2.receive_frame(&mut k2).unwrap().body[0], 2);
}

#[test]
fn single_buffer_reads_held_frames_then_waits() {
    let mut k = Kernel::<3>::new(vec![KernelEvent::Tick, arrives(4)]);
    let mut b = RxRingBuffer::<3>::new();
    b.push_frame(frame(1));
    let mut op = RxSingleBufferOperator::new(b);
    assert_eq!(op.receive_frame(&mut k).unwrap().body[0], 1);
    assert_eq!(k.events_left(), 2);
    assert_eq!(op.receive_frame(&mut k).unwrap().body[0], 4);
    assert_eq!(k.events_left(), 0);
    let b = op.into_buffer();
    assert!(!b.has_frame());
}

#[test]
fn single_buffer_without_driver_fails() {
    let mut k = Kernel::<3>::without_driver(vec![arrives(1)]);
    let mut op = RxSingleBufferOperator::new(RxRingBuffer::<3>::new());
    assert_eq!(op.receive_frame(&mut k).err(), Some(ErrorCode::NoDevice));
    assert_eq!(k.events_left(), 1);
}

#[test]
fn single_buffer_allow_failure_is_reported() {
    let mut k = Kernel::<3>::new(vec![arrives(1)]);
    k.fail_next_allow(ErrorCode::Busy);
    let mut op = RxSingleBufferOperator::new(RxRingBuffer::<3>::new());
    assert_eq!(op.receive_frame(&mut k).err(), Some(ErrorCode::Busy));
    assert_eq!(op.receive_frame(&mut k).unwrap().body[0], 1);
}

#[test]
fn alternating_without_driver_cannot_start() {
    let mut k = Kernel::<3>::without_driver(vec![]);
    match RxBufferAlternatingOperator::new(&mut k, RxRingBuffer::new(), RxRingBuffer::new()) {
        Err((e, _, _)) => assert_eq!(e, ErrorCode::NoDevice),
        Ok(_) => panic!("started without a driver"),
    }
}

#[test]
fn alternating_failed_swap_keeps_every_frame() {
    let mut k = Kernel::<4>::new(vec![]);
    let mut op = alternating(&mut k);
    k.deliver_frame(frame(1));
    k.fail_next_allow(ErrorCode::Invalid);
    assert_eq!(op.receive_frame(&mut k).err(), Some(ErrorCode::Invalid));
    assert!(!k.is_notified());
    assert_eq!(op.receive_frame(&mut k).unwrap().body[0], 1);
}

#[test]
fn alternating_timed_gets_a_frame_before_the_alarm() {
    let mut k = Kernel::<4>::new(vec![KernelEvent::Tick, arrives(9), KernelEvent::Tick]);
    let mut op = alternating(&mut k);
    let r = op.receive_frame_timed(&mut k, 5).unwrap();
    assert_eq!(r.unwrap().body[0], 9);
    assert_eq!(k.events_left(), 1);
}

#[test]
fn alternating_timed_times_out() {
    let mut k = Kernel::<4>::new(vec![KernelEvent::Tick, KernelEvent::Tick, KernelEvent::Tick, arrives(9)]);
    let mut op = alternating(&mut k);
    assert!(op.receive_frame_timed(&mut k, 2).unwrap().is_none());
    assert_eq!(k.now(), 2);
    assert_eq!(k.events_left(), 2);
    // The frame that comes later is still received.
    assert_eq!(op.receive_frame(&mut k).unwrap().body[0], 9);
}

#[test]
fn alternating_timed_with_no_time_returns_none_at_once() {
    let mut k = Kernel::<4>::new(vec![arrives(1)]);
    let mut op = alternating(&mut k);
    assert!(op.receive_frame_timed(&mut k, 0).unwrap().is_none());
    assert_eq!(k.events_left(), 1);
}

#[test]
fn alternating_timed_returns_held_frame_without_waiting() {
    let mut k = Kernel::<4>::new(vec![]);
    let mut op = alternating(&mut k);
    k.deliver_frame(frame(3));
    assert_eq!(op.receive_frame_timed(&mut k, 0).unwrap().unwrap().body[0], 3);
}

#[test]
fn single_timed_gets_a_frame_or_times_out() {
    let mut k = Kernel::<3>::new(vec![KernelEvent::Tick, arrives(2), KernelEvent::Tick, KernelEvent::Tick]);
    let mut op = RxSingleBufferOperator::new(RxRingBuffer::<3>::new());
    assert_eq!(op.receive_frame_timed(&mut k, 3).unwrap().unwrap().body[0], 2);
    assert!(op.receive_frame_timed(&mut k, 1).unwrap().is_none());
    assert_eq!(k.events_left(), 1);
}

#[test]
fn alarm_future_fires_after_its_ticks() {
    let mut k = Kernel::<3>::new(vec![KernelEvent::Tick, KernelEvent::Tick, KernelEvent::Tick]);
    let alarm = AlarmFut::sleep(&mut k, 2);
    assert!(!alarm.check_resolved(&k));
    alarm.await_completion(&mut k);
    assert!(k.alarm_fired());
    assert_eq!(k.now(), 2);
}

#[test]
fn select_between_frame_and_alarm_prefers_the_frame() {
    let mut k = Kernel::<4>::new(vec![arrives(1)]);
    let op = alternating(&mut k);
    let fut = match op.receive_frame_fut(&mut k) {
        Ok(ReceivedFrameOrFut::Fut(fut)) => fut,
        _ => panic!("expected a future"),
    };
    let alarm = AlarmFut::sleep(&mut k, 1);
    let sel = <FrameNotificationFut as TockFuture<Kernel<4>>>::select(FrameNotificationFut::new(), alarm);
    let out = sel.await_completion(&mut k);
    assert!(matches!(out, SelectOutput::Left(())));
    assert!(fut.check_resolved(&k));
    let (_, r) = fut.await_completion(&mut k);
    assert_eq!(r.unwrap().body[0], 1);
}

#[test]
fn released_buffers_come_back() {
    let mut k = Kernel::<4>::new(vec![]);
    let op = alternating(&mut k);
    k.deliver_frame(frame(1));
    let (ours, mut lent) = op.release(&mut k);
    assert!(!ours.has_frame());
    assert_eq!(lent.next_frame().body[0], 1);
    // Nothing is lent any more: a frame now is dropped.
    k.deliver_frame(frame(2));
    assert!(!k.is_notified());
}

#[test]
fn scoped_polling_hands_out_frames_in_order() {
    let mut k = Kernel::<4>::new(vec![arrives(1), KernelEvent::Tick, arrives(2), arrives(3)]);
    let mut op = alternating(&mut k);
    assert_eq!(op.start_scope(&mut k), Ok(()));
    assert!(k.is_receiving());
    let (none, r) = op.poll_frames(&mut k);
    assert!(none.is_empty());
    assert_eq!(r, Ok(()));
    let mut got = Vec::new();
    while k.events_left() > 0 {
        k.yield_wait();
        let (frames, r) = op.poll_frames(&mut k);
        assert_eq!(r, Ok(()));
        got.extend(frames.iter().map(|f| f.body[0]));
    }
    assert_eq!(got, vec![1, 2, 3]);
    let (ours, lent) = op.release(&mut k);
    assert!(!ours.has_frame());
    assert!(!lent.has_frame());
    assert!(!k.is_notified());
    assert!(!k.is_receiving());
}

#[test]
fn scoped_polling_keeps_frames_when_the_swap_fails() {
    let mut k = Kernel::<4>::new(vec![arrives(1), arrives(2)]);
    let mut op = alternating(&mut k);
    op.start_scope(&mut k).unwrap();
    k.yield_wait();
    k.fail_next_allow(ErrorCode::Busy);
    let (frames, r) = op.poll_frames(&mut k);
    assert!(frames.is_empty());
    assert_eq!(r, Err(ErrorCode::Busy));
    k.yield_wait();
    let (frames, r) = op.poll_frames(&mut k);
    assert_eq!(r, Ok(()));
    let got: Vec<u8> = frames.iter().map(|f| f.body[0]).collect();
    assert_eq!(got, vec![1, 2]);
}

#[test]
fn single_scope_polls_frames_and_ends_with_the_buffer() {
    let mut k = Kernel::<4>::new(vec![arrives(1), arrives(2), KernelEvent::Tick, arrives(3)]);
    let op = RxSingleBufferOperator::new(RxRingBuffer::<4>::new());
    let mut scope = match op.start_scope(&mut k) {
        Ok(s) => s,
        Err(_) => panic!("scope did not start"),
    };
    assert!(k.is_receiving());
    let (none, r) = scope.poll_frames(&mut k);
    assert!(none.is_empty());
    assert_eq!(r, Ok(()));
    let mut got = Vec::new();
    k.yield_wait();
    k.yield_wait();
    let (frames, r) = scope.poll_frames(&mut k);
    assert_eq!(r, Ok(()));
    got.extend(frames.iter().map(|f| f.body[0]));
    k.yield_wait();
    k.yield_wait();
    let op = scope.end_scope(&mut k);
    assert!(!k.is_receiving());
    let mut b = op.into_buffer();
    while b.has_frame() {
        got.push(b.next_frame().body[0]);
    }
    assert_eq!(got, vec![1, 2, 3]);
    assert!(!k.is_notified());
}

#[test]
fn single_scope_closes_after_a_failed_reshare() {
    let mut k = Kernel::<4>::new(vec![arrives(1), arrives(2)]);
    let op = RxSingleBufferOperator::new(RxRingBuffer::<4>::new());
    let mut scope = match op.start_scope(&mut k) {
        Ok(s) => s,
        Err(_) => panic!("scope did not start"),
    };
    k.yield_wait();
    k.fail_next_allow(ErrorCode::Fail);
    let (frames, r) = scope.poll_frames(&mut k);
    assert_eq!(frames.len(), 1);
    assert_eq!(frames[0].body[0], 1);
    assert_eq!(r, Err(ErrorCode::Fail));
    assert!(scope.is_closed());
    assert!(!k.is_receiving());
    // Closed: nothing is lent, so the next frame is lost.
    k.yield_wait();
    let (frames, r) = scope.poll_frames(&mut k);
    assert!(frames.is_empty());
    assert_eq!(r, Err(ErrorCode::Fail));
    let op = scope.end_scope(&mut k);
    assert!(!op.into_buffer().has_frame());
}

#[test]
fn single_scope_without_driver_gives_the_operator_back() {
    let mut k = Kernel::<4>::without_driver(vec![]);
    let mut b = RxRingBuffer::<4>::new();
    b.push_frame(frame(5));
    let op = RxSingleBufferOperator::new(b);
    match op.start_scope(&mut k) {
        Err((e, op)) => {
            assert_eq!(e, ErrorCode::NoDevice);
            let mut b = op.into_buffer();
            assert_eq!(b.next_frame().body[0], 5);
        },
        Ok(_) => panic!("scope started without a driver"),
    }
}
