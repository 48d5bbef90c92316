use libtock_rx::error::ErrorCode;
use libtock_rx::frame::Frame;
use libtock_rx::kernel::Kernel;
use libtock_rx::lending::{AllowedBuf, LendState, RxRingBufferInKernel};
use libtock_rx::ring::RxRingBuffer;

fn frame(seq: u8) -> Frame {
    let mut f = Frame::empty();
    f.payload_len = 1;
    f.body[0] = seq;
    f
}

fn shared(k: &mut Kernel<4>) -> AllowedBuf<4> {
    match AllowedBuf::share(k, RxRingBuffer::<4>::new()) {
        Ok(h) => h,
        Err(_) => panic!("share failed"),
    }
}

#[test]
fn inspect_then_kernel_write_lands_in_the_region() {
    let mut k = Kernel::<4>::new(vec![]);
    let mut h = shared(&mut k);
    k.deliver_frame(frame(1));
    let mut seen = 0u8;
    let r = h.inspect(&mut k, |mut b: RxRingBuffer<4>| {
        seen = b.next_frame().body[0];
        b
    });
    assert_eq!(r, Ok(()));
    assert_eq!(seen, 1);
    assert_eq!(h.lend_state(), LendState::LentInFlight);
    // Reshared: the next kernel write lands in the same region, after the
    // frame the inspection consumed.
    k.deliver_frame(frame(2));
    let mut b = h.release(&mut k);
    assert_eq!(b.read_index(), 1);
    assert_eq!(b.write_index(), 2);
    assert_eq!(b.next_frame().body[0], 2);
    assert!(!b.has_frame());
}

#[test]
fn failed_reshare_closes_the_handle() {
    let mut k = Kernel::<4>::new(vec![]);
    let mut h = shared(&mut k);
    k.fail_next_allow(ErrorCode::Fail);
    assert_eq!(h.inspect(&mut k, |b: RxRingBuffer<4>| b), Err(ErrorCode::Fail));
    assert_eq!(h.lend_state(), LendState::Closed);
    // Closed: further inspections fail without calling the closure.
    let mut called = false;
    let r = h.inspect(&mut k, |b: RxRingBuffer<4>| {
        called = true;
        b
    });
    assert_eq!(r, Err(ErrorCode::Fail));
    assert!(!called);
    // Nothing is lent: a kernel write is lost.
    k.deliver_frame(frame(1));
    let b = h.release(&mut k);
    assert!(!b.has_frame());
}

#[test]
fn share_without_driver_gives_the_buffer_back() {
    let mut k = Kernel::<4>::without_driver(vec![]);
    let mut b = RxRingBuffer::<4>::new();
    b.push_frame(frame(3));
    match AllowedBuf::share(&mut k, b) {
        Err((e, mut b)) => {
            assert_eq!(e, ErrorCode::NoDevice);
            assert_eq!(b.next_frame().body[0], 3);
        },
        Ok(_) => panic!("shared without a driver"),
    }
}

#[test]
fn revoke_and_reshare_move_through_the_states() {
    let mut k = Kernel::<4>::new(vec![]);
    let mut h = shared(&mut k);
    assert_eq!(h.len(), 2 + 4 * 130);
    h.revoke(&mut k);
    assert_eq!(h.lend_state(), LendState::Owned);
    // Revoked: a kernel write finds nothing lent.
    k.deliver_frame(frame(1));
    assert_eq!(h.reshare(&mut k), Ok(()));
    assert_eq!(h.lend_state(), LendState::LentInFlight);
    k.deliver_frame(frame(2));
    let mut b = h.release(&mut k);
    assert_eq!(b.next_frame().body[0], 2);
    assert!(!b.has_frame());
}

#[test]
fn ring_in_kernel_swaps_buffers() {
    let mut k = Kernel::<4>::new(vec![]);
    let mut lent = match RxRingBufferInKernel::share_initial(&mut k, RxRingBuffer::<4>::new()) {
        Ok(h) => h,
        Err(_) => panic!("share failed"),
    };
    k.deliver_frame(frame(1));
    let mut ours = RxRingBuffer::<4>::new();
    assert_eq!(lent.swap(&mut k, &mut ours), Ok(()));
    assert_eq!(ours.next_frame().body[0], 1);
    k.deliver_frame(frame(2));
    k.fail_next_allow(ErrorCode::Busy);
    assert_eq!(lent.swap(&mut k, &mut ours), Err(ErrorCode::Busy));
    assert!(!ours.has_frame());
    let mut back = lent.release(&mut k);
    assert_eq!(back.next_frame().body[0], 2);
    let _ = RxRingBufferInKernel::<4>::new();
}
