use libtock_rx::future::{Join, PendingFuture, ReadyFuture, Select, SelectOutput, TockFuture};
use libtock_rx::kernel::{Kernel, KernelEvent};

#[test]
fn select_ready_pending_resolves_left_at_once() {
    let mut k = Kernel::<3>::new(vec![KernelEvent::Tick]);
    let sel = <ReadyFuture<u32> as TockFuture<Kernel<3>>>::select(ReadyFuture::new(7u32), PendingFuture::<&str>::new());
    assert!(sel.check_resolved(&k));
    match sel.await_completion(&mut k) {
        SelectOutput::Left(x) => assert_eq!(x, 7),
        SelectOutput::Right(_) => panic!("right side won"),
    }
    assert_eq!(k.events_left(), 1);
}

#[test]
fn select_pending_ready_resolves_right_at_once() {
    let mut k = Kernel::<3>::new(vec![KernelEvent::Tick]);
    let sel = Select { fut1: PendingFuture::<u32>::new(), fut2: ReadyFuture::new("y") };
    match sel.await_completion(&mut k) {
        SelectOutput::Left(_) => panic!("left side won"),
        SelectOutput::Right(y) => assert_eq!(y, "y"),
    }
    assert_eq!(k.events_left(), 1);
}

#[test]
fn select_of_two_ready_prefers_left() {
    let mut k = Kernel::<3>::new(vec![]);
    let sel = <ReadyFuture<u8> as TockFuture<Kernel<3>>>::select(ReadyFuture::new(1u8), ReadyFuture::new(2u8));
    assert!(matches!(sel.await_completion(&mut k), SelectOutput::Left(1)));
}

#[test]
fn join_ready_ready_gives_pair_without_yield() {
    let mut k = Kernel::<3>::new(vec![KernelEvent::Tick, KernelEvent::Tick]);
    let join = <ReadyFuture<i32> as TockFuture<Kernel<3>>>::join(ReadyFuture::new(1), ReadyFuture::new("a"));
    assert!(join.check_resolved(&k));
    let (a, b) = join.await_completion(&mut k);
    assert_eq!((a, b), (1, "a"));
    assert_eq!(k.events_left(), 2);
    assert_eq!(k.now(), 0);
}

#[test]
fn join_with_pending_is_not_resolved() {
    let k = Kernel::<3>::new(vec![]);
    let join = Join { fut1: ReadyFuture::new(1), fut2: PendingFuture::<u8>::new() };
    assert!(!join.check_resolved(&k));
}

#[test]
fn pending_never_resolves() {
    let k = Kernel::<3>::new(vec![]);
    let p = PendingFuture::<u8>::new();
    assert!(!<PendingFuture<u8> as TockFuture<Kernel<3>>>::check_resolved(&p, &k));
}
