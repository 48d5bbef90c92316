use vstd::prelude::*;
use crate::error::ErrorCode;
use crate::frame::Frame;
use crate::future::{Select, SelectOutput, TockFuture};
use crate::kernel::{
    Kernel, KernelView, Syscalls, after_yields, alarm_deadline, can_yield, first_frame, frame_ahead,
    lemma_first_wake, lemma_first_wake_or_alarm, lemma_wakes, ticks_ahead, woken, yielded,
    yields_return,
};
use crate::lending::{AllowedBuf, LendState, RxRingBufferInKernel};
use crate::ring::{RxRingBuffer, after_write, written};

verus! {

/// What a wait ends on.
#[derive(Clone, Copy)]
enum Wake {
    /// The frame-received notification fired.
    Frame,
    /// The alarm fired.
    Alarm,
}

/// The wait for `w` is over in `v`.
spec fn wake_holds(w: Wake, v: KernelView) -> bool {
    match w {
        Wake::Frame => v.notified,
        Wake::Alarm => v.alarm_fired(),
    }
}

/// Yields until the wait for `w` is over, and stops at the first state where
/// it is.
fn wait_for<const N: usize>(w: Wake, s: &mut Kernel<N>)
    requires
        old(s).wf(),
        exists|j: nat| yields_return::<N>(old(s)@, j) && wake_holds(w, #[trigger] yielded::<N>(old(s)@, j)),
    ensures
        final(s).wf(),
        exists|j: nat|
            {
                &&& yields_return::<N>(old(s)@, j)
                &&& forall|i: nat| i < j ==> !wake_holds(w, #[trigger] yielded::<N>(old(s)@, i))
                &&& final(s)@ == #[trigger] yielded::<N>(old(s)@, j)
                &&& wake_holds(w, final(s)@)
            },
{
    let ghost v0 = s@;
    let ghost mut k: nat = 0;
    loop
        invariant
            v0 == old(s)@,
            s.wf(),
            s@ == yielded::<N>(v0, k),
            yields_return::<N>(v0, k),
            forall|i: nat| i < k ==> !wake_holds(w, #[trigger] yielded::<N>(v0, i)),
            exists|j: nat| k <= j && yields_return::<N>(v0, j) && wake_holds(w, #[trigger] yielded::<N>(v0, j)),
        decreases Kernel::<N>::yields_left(s@),
    {
        let done = match w {
            Wake::Frame => s.is_notified(),
            Wake::Alarm => s.alarm_fired(),
        };
        if done {
            return;
        }
        proof {
            let j = choose|j: nat| k <= j && yields_return::<N>(v0, j) && wake_holds(w, #[trigger] yielded::<N>(v0, j));
            assert(j != k);
            assert(Kernel::<N>::yields_left(after_yields::<Kernel<N>>(v0, k)) > 0);
        }
        s.yield_wait();
        proof {
            assert(yielded::<N>(v0, k + 1) == Kernel::<N>::after_yield(yielded::<N>(v0, k)));
            assert forall|i: nat| i < k + 1 implies Kernel::<N>::yields_left(
                #[trigger] after_yields::<Kernel<N>>(v0, i),
            ) > 0 by {
                if i < k {
                }
            }
            k = k + 1;
        }
    }
}

/// Waits for the frame-received notification; both operators await it while
/// a buffer is lent.
pub struct FrameNotificationFut {}

impl FrameNotificationFut {
    pub fn new() -> (r: Self) {
        FrameNotificationFut {}
    }
}

impl<const N: usize> TockFuture<Kernel<N>> for FrameNotificationFut {
    type Output = ();

    open spec fn resolved(&self, v: KernelView) -> bool {
        v.notified
    }

    open spec fn completable(&self, v: KernelView) -> bool {
        exists|j: nat| yields_return::<N>(v, j) && #[trigger] yielded::<N>(v, j).notified
    }

    /// Awaiting yields until the first state where the notification fired.
    open spec fn completes(&self, v0: KernelView, v1: KernelView, out: ()) -> bool {
        exists|j: nat|
            {
                &&& yields_return::<N>(v0, j)
                &&& forall|i: nat| i < j ==> !(#[trigger] yielded::<N>(v0, i)).notified
                &&& v1 == #[trigger] yielded::<N>(v0, j)
                &&& v1.notified
            }
    }

    proof fn lemma_resolved_completes(&self, v: KernelView) {
        assert(yielded::<N>(v, 0) == v);
        assert(yields_return::<N>(v, 0));
        assert forall|v1: KernelView, out: ()| #[trigger]
            <FrameNotificationFut as TockFuture<Kernel<N>>>::completes(self, v, v1, out) implies v1 == v by {
            let j = choose|j: nat|
                {
                    &&& yields_return::<N>(v, j)
                    &&& forall|i: nat| i < j ==> !(#[trigger] yielded::<N>(v, i)).notified
                    &&& v1 == #[trigger] yielded::<N>(v, j)
                    &&& v1.notified
                };
            if j > 0 {
                assert(!yielded::<N>(v, 0).notified);
            }
        }
    }

    fn check_resolved(&self, s: &Kernel<N>) -> (r: bool) {
        s.is_notified()
    }

    fn await_completion(self, s: &mut Kernel<N>) -> (out: ()) {
        wait_for(Wake::Frame, s)
    }
}

/// Waits for the alarm.
pub struct AlarmFut {}

impl AlarmFut {
    /// Sets the alarm `ticks` ticks from now and waits for it.
    pub fn sleep<const N: usize>(k: &mut Kernel<N>, ticks: usize) -> (r: Self)
        requires
            old(k).wf(),
        ensures
            final(k).wf(),
            final(k)@ == (KernelView {
                alarm: Some(alarm_deadline(old(k)@.now, ticks as nat)),
                ..old(k)@
            }),
    {
        k.set_alarm(ticks);
        AlarmFut {}
    }
}

impl<const N: usize> TockFuture<Kernel<N>> for AlarmFut {
    type Output = ();

    open spec fn resolved(&self, v: KernelView) -> bool {
        v.alarm_fired()
    }

    open spec fn completable(&self, v: KernelView) -> bool {
        exists|j: nat| yields_return::<N>(v, j) && #[trigger] yielded::<N>(v, j).alarm_fired()
    }

    /// Awaiting yields until the first state where the alarm fired.
    open spec fn completes(&self, v0: KernelView, v1: KernelView, out: ()) -> bool {
        exists|j: nat|
            {
                &&& yields_return::<N>(v0, j)
                &&& forall|i: nat| i < j ==> !(#[trigger] yielded::<N>(v0, i)).alarm_fired()
                &&& v1 == #[trigger] yielded::<N>(v0, j)
                &&& v1.alarm_fired()
            }
    }

    proof fn lemma_resolved_completes(&self, v: KernelView) {
        assert(yielded::<N>(v, 0) == v);
        assert(yields_return::<N>(v, 0));
        assert forall|v1: KernelView, out: ()| #[trigger]
            <AlarmFut as TockFuture<Kernel<N>>>::completes(self, v, v1, out) implies v1 == v by {
            let j = choose|j: nat|
                {
                    &&& yields_return::<N>(v, j)
                    &&& forall|i: nat| i < j ==> !(#[trigger] yielded::<N>(v, i)).alarm_fired()
                    &&& v1 == #[trigger] yielded::<N>(v, j)
                    &&& v1.alarm_fired()
                };
            if j > 0 {
                assert(!yielded::<N>(v, 0).alarm_fired());
            }
        }
    }

    fn check_resolved(&self, s: &Kernel<N>) -> (r: bool) {
        s.alarm_fired()
    }

    fn await_completion(self, s: &mut Kernel<N>) -> (out: ()) {
        wait_for(Wake::Alarm, s)
    }
}

/// Receiving frames, whichever buffering the operator uses.
///
/// `ready` is the operator being consistent with the kernel, `held` the frames
/// it can hand out without waiting, oldest first.
pub trait RxOperator<const N: usize> {
    spec fn ready(&self, k: KernelView) -> bool;

    spec fn held(&self, k: KernelView) -> Seq<Frame>;

    /// Receives the oldest frame, yielding until one comes when none is held.
    fn receive_frame(&mut self, k: &mut Kernel<N>) -> (r: Result<Frame, ErrorCode>)
        requires
            2 <= N,
            old(k).wf(),
            old(self).ready(old(k)@),
            old(self).held(old(k)@).len() > 0 || frame_ahead(old(k)@.events, old(k)@.next),
        ensures
            final(k).wf(),
            final(self).ready(final(k)@),
            old(self).held(old(k)@).len() > 0 && r is Ok ==> r == Ok::<Frame, ErrorCode>(
                old(self).held(old(k)@)[0],
            ) && final(self).held(final(k)@) == old(self).held(old(k)@).drop_first(),
            old(self).held(old(k)@).len() == 0 && r is Ok ==> final(self).held(final(k)@).len() == 0,
    ;

    /// Like `receive_frame`, but gives up with `None` once `ticks` ticks pass
    /// without a frame.
    fn receive_frame_timed(&mut self, k: &mut Kernel<N>, ticks: usize) -> (r: Result<
        Option<Frame>,
        ErrorCode,
    >)
        requires
            2 <= N,
            old(k).wf(),
            old(self).ready(old(k)@),
            old(self).held(old(k)@).len() > 0 || frame_ahead(old(k)@.events, old(k)@.next) || ticks
                <= ticks_ahead(old(k)@.events, old(k)@.next),
        ensures
            final(k).wf(),
            final(self).ready(final(k)@),
            old(self).held(old(k)@).len() > 0 && r is Ok ==> r == Ok::<Option<Frame>, ErrorCode>(
                Some(old(self).held(old(k)@)[0]),
            ) && final(self).held(final(k)@) == old(self).held(old(k)@).drop_first(),
            old(self).held(old(k)@).len() == 0 && r is Ok ==> final(self).held(final(k)@).len() == 0,
    ;
}

/// Receives frames from the kernel through a single ring buffer, lent to the
/// kernel only while waiting for a frame.
///
/// Lossy: a frame that the kernel receives while the buffer is not lent, as
/// while the application reads it, is dropped.
pub struct RxSingleBufferOperator<const N: usize> {
    /// Always present between calls.
    buf: Option<RxRingBuffer<N>>,
}

impl<const N: usize> RxSingleBufferOperator<N> {
    /// The buffer frames are read from.
    pub closed spec fn buffer(&self) -> RxRingBuffer<N> {
        self.buf->0
    }

    pub closed spec fn wf(&self) -> bool {
        &&& self.buf is Some
        &&& self.buf->0.wf()
    }

    /// Creates an operator that receives frames into `buf`.
    pub fn new(buf: RxRingBuffer<N>) -> (r: Self)
        requires
            buf.wf(),
        ensures
            r.wf(),
            r.buffer() == buf,
    {
        RxSingleBufferOperator { buf: Some(buf) }
    }

    /// Gives the buffer back.
    pub fn into_buffer(self) -> (r: RxRingBuffer<N>)
        requires
            self.wf(),
        ensures
            r == self.buffer(),
            r.wf(),
    {
        self.buf.unwrap()
    }

}

impl<const N: usize> RxSingleBufferOperator<N> {
    /// Starts a receive scope: lends the buffer to the kernel, subscribes to
    /// the frame-received notification and starts reception. On failure the
    /// operator comes back with the error.
    pub fn start_scope(self, k: &mut Kernel<N>) -> (r: Result<
        RxSingleBufferScope<N>,
        (ErrorCode, Self),
    >)
        requires
            self.wf(),
            old(k).wf(),
            old(k)@.lent is None,
            !old(k)@.receiving,
        ensures
            final(k).wf(),
            r is Ok <==> old(k)@.present && old(k)@.allow_error is None,
            r matches Ok(sc) ==> {
                &&& sc.inv(final(k)@)
                &&& sc.held(final(k)@) == self.buffer().pending()
                &&& final(k)@ == (KernelView {
                    lent: Some(self.buffer()@),
                    subscribed: true,
                    notified: false,
                    receiving: true,
                    ..old(k)@
                })
            },
            r matches Err((e, op)) ==> {
                &&& op.wf()
                &&& op.buffer() == self.buffer()
                &&& !old(k)@.present ==> e == ErrorCode::NoDevice && final(k)@ == old(k)@
                &&& old(k)@.present ==> old(k)@.allow_error == Some(e) && final(k)@ == (
                KernelView { allow_error: None, ..old(k)@ })
            },
    {
        let b = self.buf.unwrap();
        match AllowedBuf::share(k, b) {
            Err((e, b)) => Err((e, RxSingleBufferOperator { buf: Some(b) })),
            Ok(h) => {
                match k.subscribe() {
                    Err(e) => {
                        let b = h.release(k);
                        return Err((e, RxSingleBufferOperator { buf: Some(b) }));
                    },
                    Ok(()) => {},
                }
                match k.start_rx() {
                    Err(e) => {
                        k.unsubscribe();
                        let b = h.release(k);
                        return Err((e, RxSingleBufferOperator { buf: Some(b) }));
                    },
                    Ok(()) => {},
                }
                Ok(RxSingleBufferScope { handle: h })
            },
        }
    }
}

/// A receive scope of the single-buffer operator: the buffer stays lent and
/// subscribed between polls, and is taken back only for a moment when a poll
/// finds that the notification fired.
pub struct RxSingleBufferScope<const N: usize> {
    handle: AllowedBuf<N>,
}

impl<const N: usize> RxSingleBufferScope<N> {
    pub closed spec fn handle(&self) -> AllowedBuf<N> {
        self.handle
    }

    /// Consistent with the kernel `k`: the buffer is lent, or the scope was
    /// closed by a failed reshare and holds it, with reception stopped.
    pub open spec fn inv(&self, k: KernelView) -> bool {
        &&& self.handle().consistent(k)
        &&& self.handle().state() == LendState::LentInFlight || (self.handle().state()
            == LendState::Closed && k.lent is None && !k.receiving)
    }

    /// The unread frames, oldest first.
    pub open spec fn held(&self, k: KernelView) -> Seq<Frame> {
        if self.handle().state() == LendState::LentInFlight {
            k.lent->0.pending()
        } else {
            self.handle().held()->0.pending()
        }
    }

    /// Whether a failed reshare closed the scope.
    pub fn is_closed(&self) -> (r: bool)
        ensures
            r == (self.handle().state() == LendState::Closed),
    {
        self.handle.lend_state() == LendState::Closed
    }

    /// One turn of the scope's event loop. Until the frame-received
    /// notification fires, nothing happens. Once it has, reception is aborted,
    /// the buffer is taken back, every unread frame is handed out, oldest
    /// first, and the buffer is lent again with a new subscription and
    /// reception started anew. A closed scope fails with `Fail`; a failed
    /// reshare closes the scope, the frames still handed out.
    pub fn poll_frames(&mut self, k: &mut Kernel<N>) -> (r: (Vec<Frame>, Result<(), ErrorCode>))
        requires
            old(k).wf(),
            old(self).inv(old(k)@),
        ensures
            final(k).wf(),
            final(self).inv(final(k)@),
            old(self).handle().state() == LendState::Closed ==> r.0@.len() == 0 && r.1 == Err::<
                (),
                ErrorCode,
            >(ErrorCode::Fail) && *final(self) == *old(self) && final(k)@ == old(k)@,
            old(self).handle().state() != LendState::Closed && !old(k)@.notified ==> r.0@.len() == 0
                && r.1 is Ok && *final(self) == *old(self) && final(k)@ == old(k)@,
            old(self).handle().state() != LendState::Closed && old(k)@.notified ==> {
                &&& r.0@ == old(self).held(old(k)@)
                &&& final(self).held(final(k)@).len() == 0
                &&& r.1 is Ok <==> old(k)@.present && old(k)@.allow_error is None
                &&& r.1 is Ok ==> final(self).handle().state() == LendState::LentInFlight
                    && final(k)@.subscribed && !final(k)@.notified && final(k)@.receiving
                    && final(k)@.next == old(k)@.next
                &&& r.1 is Err ==> final(self).handle().state() == LendState::Closed && r.1 == Err::<
                    (),
                    ErrorCode,
                >(
                    if !old(k)@.present {
                        ErrorCode::NoDevice
                    } else {
                        old(k)@.allow_error->0
                    },
                )
            },
    {
        let mut out: Vec<Frame> = Vec::new();
        if self.handle.lend_state() == LendState::Closed {
            return (out, Err(ErrorCode::Fail));
        }
        if !k.is_notified() {
            return (out, Ok(()));
        }
        let _ = k.abort_rx();
        self.handle.revoke(k);
        self.handle.take_frames(&mut out);
        match self.handle.reshare(k) {
            Err(e) => (out, Err(e)),
            Ok(()) => {
                match k.subscribe() {
                    Err(e) => {
                        return (out, Err(e));
                    },
                    Ok(()) => {},
                }
                match k.start_rx() {
                    Err(e) => (out, Err(e)),
                    Ok(()) => (out, Ok(())),
                }
            },
        }
    }

    /// Ends the scope: aborts reception and drops the subscription first, so
    /// that the kernel writes no more, then takes the buffer back into a
    /// single-buffer operator.
    pub fn end_scope(self, k: &mut Kernel<N>) -> (r: RxSingleBufferOperator<N>)
        requires
            old(k).wf(),
            self.inv(old(k)@),
        ensures
            final(k).wf(),
            r.wf(),
            r.buffer().pending() == self.held(old(k)@),
            final(k)@ == (KernelView {
                lent: None,
                subscribed: false,
                notified: false,
                receiving: false,
                ..old(k)@
            }),
    {
        let _ = k.abort_rx();
        k.unsubscribe();
        let b = self.handle.release(k);
        RxSingleBufferOperator::new(b)
    }
}

/// Between receives the single-buffer operator lends nothing, and a frame the
/// kernel receives then is lost: the kernel state is as if it never came.
pub proof fn lemma_frame_lost_when_nothing_lent(v: KernelView, f: Frame)
    requires
        v.lent is None,
    ensures
        v.delivered(f) == v,
{
}

impl<const N: usize> RxOperator<N> for RxSingleBufferOperator<N> {
    /// The buffer is not lent between calls, and no reception is started.
    open spec fn ready(&self, k: KernelView) -> bool {
        self.wf() && k.lent is None && !k.receiving
    }

    open spec fn held(&self, k: KernelView) -> Seq<Frame> {
        self.buffer().pending()
    }

    /// Pops the oldest unread frame. When there is none, lends the buffer to the
    /// kernel, subscribes to the frame-received notification and yields until
    /// it fires, then takes the buffer back and pops the frame that came.
    fn receive_frame(&mut self, k: &mut Kernel<N>) -> (r: Result<Frame, ErrorCode>)
        ensures
            final(self).wf(),
            final(self).buffer().wf(),
            final(k).wf(),
            final(k)@.lent is None,
            old(self).buffer().pending().len() > 0 ==> {
                &&& r == Ok::<Frame, ErrorCode>(old(self).buffer().pending()[0])
                &&& final(self).buffer()@ == old(self).buffer()@.popped()
                &&& final(k)@ == old(k)@
            },
            old(self).buffer().pending().len() == 0 && !old(k)@.present ==> {
                &&& r == Err::<Frame, ErrorCode>(ErrorCode::NoDevice)
                &&& final(self).buffer() == old(self).buffer()
                &&& final(k)@ == old(k)@
            },
            old(self).buffer().pending().len() == 0 && old(k)@.present && old(k)@.allow_error is Some
                ==> {
                &&& r == Err::<Frame, ErrorCode>(old(k)@.allow_error->0)
                &&& final(self).buffer() == old(self).buffer()
                &&& final(k)@ == (KernelView { allow_error: None, ..old(k)@ })
            },
            old(self).buffer().pending().len() == 0 && old(k)@.present && old(k)@.allow_error is None
                ==> {
                let t = first_frame(old(k)@.events, old(k)@.next);
                let f = old(k)@.events[t as int]->FrameReceived_0;
                &&& r == Ok::<Frame, ErrorCode>(f)
                &&& final(self).buffer()@ == old(self).buffer()@.pushed(f).popped()
                &&& final(k)@ == (KernelView {
                    next: t + 1,
                    landed: old(k)@.landed.push(f),
                    now: (old(k)@.now + (t - old(k)@.next)) as nat,
                    subscribed: false,
                    notified: false,
                    ..old(k)@
                })
            },
    {
        let mut b = self.buf.take().unwrap();
        if b.has_frame() {
            let f = b.next_frame();
            self.buf = Some(b);
            return Ok(f);
        }
        let ghost before = b;
        match k.allow_rw(b) {
            Err((e, b)) => {
                self.buf = Some(b);
                return Err(e);
            },
            Ok(_) => {},
        }
        match k.subscribe() {
            Err(e) => {
                self.buf = k.unallow_rw();
                return Err(e);
            },
            Ok(()) => {},
        }
        let ghost v0 = k@;
        proof {
            lemma_wakes::<N>(v0, false);
        }
        let fut = FrameNotificationFut::new();
        fut.await_completion(k);
        proof {
            let j = choose|j: nat|
                {
                    &&& yields_return::<N>(v0, j)
                    &&& forall|i: nat| i < j ==> !(#[trigger] yielded::<N>(v0, i)).notified
                    &&& k@ == #[trigger] yielded::<N>(v0, j)
                    &&& k@.notified
                };
            lemma_first_wake::<N>(v0, j);
            before@.lemma_pushed(v0.events[first_frame(v0.events, v0.next) as int]->FrameReceived_0);
        }
        let mut b = k.unallow_rw().unwrap();
        k.unsubscribe();
        let f = b.next_frame();
        self.buf = Some(b);
        Ok(f)
    }

    /// Like `receive_frame`, but gives up with `None` when the alarm, set
    /// `ticks` ticks ahead, fires before a frame comes: the wait is a select
    /// between the frame notification and the alarm, the frame winning a tie.
    fn receive_frame_timed(&mut self, k: &mut Kernel<N>, ticks: usize) -> (r: Result<
        Option<Frame>,
        ErrorCode,
    >)
        ensures
            final(self).wf(),
            final(self).buffer().wf(),
            final(k).wf(),
            final(k)@.lent is None,
            old(self).buffer().pending().len() > 0 ==> {
                &&& r == Ok::<Option<Frame>, ErrorCode>(Some(old(self).buffer().pending()[0]))
                &&& final(self).buffer()@ == old(self).buffer()@.popped()
                &&& final(k)@ == old(k)@
            },
            old(self).buffer().pending().len() == 0 && !old(k)@.present ==> {
                &&& r == Err::<Option<Frame>, ErrorCode>(ErrorCode::NoDevice)
                &&& final(self).buffer() == old(self).buffer()
                &&& final(k)@ == old(k)@
            },
            old(self).buffer().pending().len() == 0 && old(k)@.present && old(k)@.allow_error is Some
                ==> {
                &&& r == Err::<Option<Frame>, ErrorCode>(old(k)@.allow_error->0)
                &&& final(self).buffer() == old(self).buffer()
                &&& final(k)@ == (KernelView { allow_error: None, ..old(k)@ })
            },
            old(self).buffer().pending().len() == 0 && old(k)@.present && old(k)@.allow_error is None
                ==> {
                let t = first_frame(old(k)@.events, old(k)@.next);
                let f = old(k)@.events[t as int]->FrameReceived_0;
                let d = alarm_deadline(old(k)@.now, ticks as nat);
                if t < old(k)@.events.len() && old(k)@.now + (t - old(k)@.next) < d {
                    &&& r == Ok::<Option<Frame>, ErrorCode>(Some(f))
                    &&& final(self).buffer()@ == old(self).buffer()@.pushed(f).popped()
                    &&& final(k)@ == (KernelView {
                        next: t + 1,
                        landed: old(k)@.landed.push(f),
                        now: (old(k)@.now + (t - old(k)@.next)) as nat,
                        subscribed: false,
                        notified: false,
                        alarm: Some(d),
                        ..old(k)@
                    })
                } else {
                    &&& r == Ok::<Option<Frame>, ErrorCode>(None)
                    &&& final(self).buffer()@ == old(self).buffer()@
                    &&& final(k)@ == (KernelView {
                        next: (old(k)@.next + (d - old(k)@.now)) as nat,
                        now: d,
                        subscribed: false,
                        notified: false,
                        alarm: Some(d),
                        ..old(k)@
                    })
                }
            },
    {
        let mut b = self.buf.take().unwrap();
        if b.has_frame() {
            let f = b.next_frame();
            self.buf = Some(b);
            return Ok(Some(f));
        }
        let ghost before = b;
        match k.allow_rw(b) {
            Err((e, b)) => {
                self.buf = Some(b);
                return Err(e);
            },
            Ok(_) => {},
        }
        match k.subscribe() {
            Err(e) => {
                self.buf = k.unallow_rw();
                return Err(e);
            },
            Ok(()) => {},
        }
        let alarm = AlarmFut::sleep(k, ticks);
        let ghost v0 = k@;
        let ghost d = alarm_deadline(v0.now, ticks as nat);
        let sel = Select { fut1: FrameNotificationFut::new(), fut2: alarm };
        proof {
            lemma_wakes::<N>(v0, true);
            let j = choose|j: nat|
                yields_return::<N>(v0, j) && (#[trigger] yielded::<N>(v0, j).notified || (true
                    && yielded::<N>(v0, j).alarm_fired()));
            assert(<Select<FrameNotificationFut, AlarmFut> as TockFuture<Kernel<N>>>::resolved(&sel, after_yields::<Kernel<N>>(v0, j)));
        }
        let ghost gsel = sel;
        let out = sel.await_completion(k);
        let ghost j = choose|j: nat|
            {
                &&& can_yield::<Kernel<N>>(v0, j)
                &&& forall|i: nat| i < j ==> !<Select<FrameNotificationFut, AlarmFut> as TockFuture<Kernel<N>>>::resolved(&gsel, #[trigger] after_yields::<Kernel<N>>(v0, i))
                &&& #[trigger] crate::future::select_completes_at::<Kernel<N>, FrameNotificationFut, AlarmFut>(gsel, after_yields::<Kernel<N>>(v0, j), k@, out)
            };
        proof {
            assert forall|i: nat| i < j implies !(#[trigger] yielded::<N>(v0, i)).notified
                && !yielded::<N>(v0, i).alarm_fired() by {
                assert(!<Select<FrameNotificationFut, AlarmFut> as TockFuture<Kernel<N>>>::resolved(&gsel, after_yields::<Kernel<N>>(v0, i)));
            }
        }
        match out {
            SelectOutput::Left(()) => {
                proof {
                    <FrameNotificationFut as TockFuture<Kernel<N>>>::lemma_resolved_completes(&gsel.fut1, yielded::<N>(v0, j));
                    lemma_first_wake_or_alarm::<N>(v0, j, d);
                    let t = first_frame(v0.events, v0.next);
                    before@.lemma_pushed(v0.events[t as int]->FrameReceived_0);
                }
                let mut b = k.unallow_rw().unwrap();
                k.unsubscribe();
                let f = b.next_frame();
                self.buf = Some(b);
                Ok(Some(f))
            },
            SelectOutput::Right(()) => {
                proof {
                    <AlarmFut as TockFuture<Kernel<N>>>::lemma_resolved_completes(&gsel.fut2, yielded::<N>(v0, j));
                    lemma_first_wake_or_alarm::<N>(v0, j, d);
                }
                let b = k.unallow_rw().unwrap();
                k.unsubscribe();
                self.buf = Some(b);
                Ok(None)
            },
        }
    }
}

/// How a receive starts: with a frame at hand, or waiting for one.
enum ReceiveStart {
    Frame(Frame),
    Wait,
}

/// The dual-buffer exchange loses nothing, repeats nothing and keeps write
/// order, whatever the interleaving of kernel writes and receives: for an
/// operator consistent with the kernel, as every one of its operations leaves
/// it, unless some write since the operator was made found the lent buffer
/// full, the frames its receives returned, in order, then the unread ones,
/// are the frames held at the start followed by every frame the kernel wrote
/// since, in write order.
pub proof fn lemma_alternating_loss_free<const N: usize>(
    op: RxBufferAlternatingOperator<N>,
    k: KernelView,
)
    requires
        op.inv(k),
        k.overflows == op.base_overflows(),
    ensures
        op.received() + op.queued(k) == op.initial() + k.landed.skip(op.base_landed() as int),
{
}

/// A frame the kernel writes into the lent buffer keeps the account: it joins
/// the unread frames at the end, unless the buffer was full, which the
/// overflow count records.
proof fn lemma_landing_accounted<const N: usize>(
    op: RxBufferAlternatingOperator<N>,
    v: KernelView,
    w: KernelView,
    f: Frame,
)
    requires
        op.accounted(v),
        v.lent matches Some(b) && b.wf(),
        w.lent == Some(v.lent->0.pushed(f)),
        w.landed == v.landed.push(f),
        w.overflows == (if v.lent->0.count() + 1 >= v.lent->0.slots.len() {
            v.overflows + 1
        } else {
            v.overflows
        }),
    ensures
        op.accounted(w),
{
    let b = v.lent->0;
    b.lemma_pushed(f);
    if w.overflows == op.base_overflows() {
        let q = b.pending();
        assert(after_write(q, f, b.slots.len()) == q.push(f));
        assert(v.landed.push(f).skip(op.base_landed() as int) =~= v.landed.skip(
            op.base_landed() as int,
        ).push(f));
        assert(op.received() + (op.ours().pending() + q.push(f)) =~= (op.received() + (
        op.ours().pending() + q)).push(f));
    }
}

/// Popping the oldest unread frame and handing it out keeps the account.
proof fn lemma_pop_accounted(received: Seq<Frame>, a: Seq<Frame>, b: Seq<Frame>)
    requires
        a.len() > 0,
    ensures
        received.push(a[0]) + (a.drop_first() + b) == received + (a + b),
{
    assert(received.push(a[0]) + (a.drop_first() + b) =~= received + (a + b));
}

/// What a receive that finds a frame does to the unread frames of the
/// application's buffer and of the lent one: the oldest frame comes from the
/// application's buffer, or else from the lent one, which is then swapped in.
/// Returns the frame and the two queues after.
pub open spec fn exchange_receive(ours: Seq<Frame>, lent: Seq<Frame>) -> (Frame, Seq<Frame>, Seq<
    Frame,
>) {
    if ours.len() > 0 {
        (ours[0], ours.drop_first(), lent)
    } else {
        (lent[0], lent.drop_first(), Seq::empty())
    }
}

/// Runs `steps` on the two queues of the exchange, both empty at first:
/// `Some(f)` is the kernel writing `f` into the lent buffer, `None` the
/// application receiving a frame if either buffer holds one. Gives the frames
/// received, in order, and the two queues after.
pub open spec fn run_exchange(steps: Seq<Option<Frame>>, cap: nat) -> (Seq<Frame>, Seq<Frame>, Seq<
    Frame,
>)
    decreases steps.len(),
{
    if steps.len() == 0 {
        (Seq::empty(), Seq::empty(), Seq::empty())
    } else {
        let (got, ours, lent) = run_exchange(steps.drop_last(), cap);
        match steps.last() {
            Some(f) => (got, ours, after_write(lent, f, cap)),
            None => if ours.len() + lent.len() > 0 {
                let (f, o2, l2) = exchange_receive(ours, lent);
                (got.push(f), o2, l2)
            } else {
                (got, ours, lent)
            },
        }
    }
}

/// No write of `steps` finds the lent buffer full.
pub open spec fn exchange_fits(steps: Seq<Option<Frame>>, cap: nat) -> bool
    decreases steps.len(),
{
    if steps.len() == 0 {
        true
    } else {
        &&& exchange_fits(steps.drop_last(), cap)
        &&& steps.last() is Some ==> run_exchange(steps.drop_last(), cap).2.len() + 1 < cap
    }
}

/// Whatever the interleaving of kernel writes and receives, as long as no
/// write finds the lent buffer full, every frame written is received exactly
/// once and in write order: the frames received, then those still unread in
/// the application's buffer, then those in the lent one, are exactly the frames
/// written.
pub proof fn lemma_exchange_loss_free(steps: Seq<Option<Frame>>, cap: nat)
    requires
        exchange_fits(steps, cap),
    ensures
        run_exchange(steps, cap).0 + run_exchange(steps, cap).1 + run_exchange(steps, cap).2
            == written(steps),
    decreases steps.len(),
{
    if steps.len() > 0 {
        let prev = steps.drop_last();
        lemma_exchange_loss_free(prev, cap);
        let (got, ours, lent) = run_exchange(prev, cap);
        match steps.last() {
            Some(f) => {
                assert(got + ours + lent.push(f) =~= (got + ours + lent).push(f));
            },
            None => {
                if ours.len() > 0 {
                    assert(got.push(ours[0]) + ours.drop_first() + lent =~= got + ours + lent);
                } else if lent.len() > 0 {
                    assert(got.push(lent[0]) + lent.drop_first() + Seq::<Frame>::empty() =~= got
                        + ours + lent);
                }
            },
        }
    }
}

/// Receives frames from the kernel through a pair of ring buffers: one is
/// always lent to the kernel while the application reads the other, so no
/// frame is lost while the application reads. The price is twice the memory.
pub struct RxBufferAlternatingOperator<const N: usize> {
    buf_ours: RxRingBuffer<N>,
    buf_kernels: RxRingBufferInKernel<N>,
    /// The frames handed out so far, oldest first.
    received: Ghost<Seq<Frame>>,
    /// The unread frames of both buffers when the operator was made.
    initial: Ghost<Seq<Frame>>,
    /// How many frames the kernel had written into lent buffers then.
    base_landed: Ghost<nat>,
    /// How many of those writes had found the lent buffer full then.
    base_overflows: Ghost<nat>,
}

impl<const N: usize> RxBufferAlternatingOperator<N> {
    /// The buffer the application reads.
    pub closed spec fn ours(&self) -> RxRingBuffer<N> {
        self.buf_ours
    }

    /// The frames handed out so far, oldest first.
    pub closed spec fn received(&self) -> Seq<Frame> {
        self.received@
    }

    /// The unread frames of both buffers when the operator was made.
    pub closed spec fn initial(&self) -> Seq<Frame> {
        self.initial@
    }

    /// How many frames the kernel had written into lent buffers when the
    /// operator was made.
    pub closed spec fn base_landed(&self) -> nat {
        self.base_landed@
    }

    /// How many writes had found the lent buffer full when the operator was
    /// made.
    pub closed spec fn base_overflows(&self) -> nat {
        self.base_overflows@
    }

    /// Nothing lost, nothing repeated, order kept: unless a write found the
    /// lent buffer full since the operator was made, the frames handed out,
    /// then the unread ones, are the frames held at the start followed by every
    /// frame the kernel wrote since, in write order.
    pub open spec fn accounted(&self, k: KernelView) -> bool {
        &&& self.base_landed() <= k.landed.len()
        &&& self.base_overflows() <= k.overflows
        &&& k.overflows == self.base_overflows() ==> self.received() + self.queued(k)
            == self.initial() + k.landed.skip(self.base_landed() as int)
    }

    /// Both operators started from the same frames and kernel history.
    pub open spec fn same_start(self, o: Self) -> bool {
        &&& self.initial() == o.initial()
        &&& self.base_landed() == o.base_landed()
        &&& self.base_overflows() == o.base_overflows()
    }

    /// Consistent with the kernel `k`, which holds the other buffer, with
    /// every frame accounted for.
    pub open spec fn inv(&self, k: KernelView) -> bool {
        &&& self.ours().wf()
        &&& k.lent is Some
        &&& self.accounted(k)
    }

    /// The unread frames of both buffers, oldest first.
    pub open spec fn queued(&self, k: KernelView) -> Seq<Frame> {
        self.ours().pending() + k.lent->0.pending()
    }

    /// Creates an operator that reads `buf1` first and lends `buf2` to the
    /// kernel. On failure both buffers come back with the error.
    pub fn new(k: &mut Kernel<N>, buf1: RxRingBuffer<N>, buf2: RxRingBuffer<N>) -> (r: Result<
        Self,
        (ErrorCode, RxRingBuffer<N>, RxRingBuffer<N>),
    >)
        requires
            old(k).wf(),
            old(k)@.lent is None,
            buf1.wf(),
            buf2.wf(),
        ensures
            final(k).wf(),
            r is Ok <==> old(k)@.present && old(k)@.allow_error is None,
            r matches Ok(op) ==> op.inv(final(k)@) && op.ours() == buf1 && final(k)@ == old(
                k,
            )@.with_lent(buf2@),
            r matches Err((e, b1, b2)) ==> {
                &&& b1 == buf1
                &&& b2 == buf2
                &&& !old(k)@.present ==> e == ErrorCode::NoDevice && final(k)@ == old(k)@
                &&& old(k)@.present ==> old(k)@.allow_error == Some(e) && final(k)@ == (
                KernelView { allow_error: None, ..old(k)@ })
            },
    {
        match RxRingBufferInKernel::share_initial(k, buf2) {
            Ok(h) => {
                let ghost q = buf1.pending() + buf2.pending();
                let ghost landed = k@.landed;
                let op = RxBufferAlternatingOperator {
                    buf_ours: buf1,
                    buf_kernels: h,
                    received: Ghost(Seq::empty()),
                    initial: Ghost(q),
                    base_landed: Ghost(k@.landed.len()),
                    base_overflows: Ghost(k@.overflows),
                };
                assert(landed.skip(landed.len() as int) =~= Seq::<Frame>::empty());
                assert(Seq::<Frame>::empty() + q =~= q + Seq::<Frame>::empty());
                Ok(op)
            },
            Err((e, b2)) => Err((e, buf1, b2)),
        }
    }

    /// Starts a receive scope: subscribes to the frame-received notification
    /// and starts reception into the lent buffer. Frames are then handed out
    /// by `poll_frames`, and `release` ends the scope.
    pub fn start_scope(&mut self, k: &mut Kernel<N>) -> (r: Result<(), ErrorCode>)
        requires
            old(k).wf(),
            old(self).inv(old(k)@),
        ensures
            final(k).wf(),
            final(self).inv(final(k)@),
            final(self).same_start(*old(self)),
            final(self).received() == old(self).received(),
            final(self).ours() == old(self).ours(),
            old(k)@.present ==> r is Ok && final(k)@ == (KernelView {
                subscribed: true,
                notified: false,
                receiving: true,
                ..old(k)@
            }),
            !old(k)@.present ==> r == Err::<(), ErrorCode>(ErrorCode::NoDevice) && final(k)@
                == old(k)@,
    {
        match k.subscribe() {
            Err(e) => {
                return Err(e);
            },
            Ok(()) => {},
        }
        k.start_rx()
    }

    /// Ends reception: aborts reception and drops the frame-received
    /// subscription first, so that the kernel writes no more, then takes the
    /// lent buffer back and gives both buffers back, the one read first.
    pub fn release(self, k: &mut Kernel<N>) -> (r: (RxRingBuffer<N>, RxRingBuffer<N>))
        requires
            old(k).wf(),
            self.inv(old(k)@),
        ensures
            final(k).wf(),
            r.0 == self.ours(),
            Some(r.1@) == old(k)@.lent,
            r.1.wf(),
            final(k)@ == (KernelView {
                lent: None,
                subscribed: false,
                notified: false,
                receiving: false,
                ..old(k)@
            }),
    {
        let _ = k.abort_rx();
        k.unsubscribe();
        let b = self.buf_kernels.release(k);
        (self.buf_ours, b)
    }

    /// One turn of a receive scope's event loop. Until the frame-received
    /// notification fires, nothing happens. Once it has, every held frame is
    /// handed out, oldest first: those of the application's buffer, then, after
    /// subscribing anew and swapping, those of the buffer taken back. Frames
    /// handed out before a failure come with the error; none is lost.
    pub fn poll_frames(&mut self, k: &mut Kernel<N>) -> (r: (Vec<Frame>, Result<(), ErrorCode>))
        requires
            old(k).wf(),
            old(self).inv(old(k)@),
        ensures
            final(k).wf(),
            final(self).inv(final(k)@),
            final(self).same_start(*old(self)),
            final(self).received() == old(self).received() + r.0@,
            !old(k)@.notified ==> r.0@.len() == 0 && r.1 is Ok && final(self).ours() == old(
                self,
            ).ours() && final(k)@ == old(k)@,
            old(k)@.notified ==> {
                &&& r.1 is Ok <==> old(k)@.present && old(k)@.allow_error is None
                &&& r.1 is Ok ==> r.0@ == old(self).queued(old(k)@) && final(self).queued(final(k)@).len()
                    == 0 && final(k)@.subscribed && !final(k)@.notified
                &&& r.1 is Err ==> r.0@ + final(self).queued(final(k)@) == old(self).queued(old(k)@)
                    && final(k)@.lent == old(k)@.lent
                &&& !old(k)@.present ==> r.1 == Err::<(), ErrorCode>(ErrorCode::NoDevice)
                &&& old(k)@.present && old(k)@.allow_error is Some ==> r.1 == Err::<(), ErrorCode>(
                    old(k)@.allow_error->0,
                )
            },
    {
        let mut out: Vec<Frame> = Vec::new();
        if !k.is_notified() {
            return (out, Ok(()));
        }
        let ghost r0 = self.received@;
        let ghost q0 = self.queued(k@);
        let ghost l0 = k@.lent->0.pending();
        self.buf_ours.drain_into(&mut out);
        proof {
            self.received@ = r0 + out@;
            assert(self.received@ + self.queued(k@) =~= r0 + q0);
        }
        match k.subscribe() {
            Err(e) => {
                return (out, Err(e));
            },
            Ok(()) => {},
        }
        match self.buf_kernels.swap(k, &mut self.buf_ours) {
            Err(e) => {
                return (out, Err(e));
            },
            Ok(()) => {},
        }
        let ghost mid = out@;
        self.buf_ours.drain_into(&mut out);
        proof {
            self.received@ = r0 + out@;
            assert(out@ =~= mid + l0);
            assert(self.received@ + self.queued(k@) =~= r0 + q0);
        }
        (out, Ok(()))
    }

    /// Pops the oldest frame when one is at hand. Otherwise subscribes to the
    /// frame-received notification before swapping the buffers, and pops from
    /// the buffer taken back if a frame came before the swap; if none did,
    /// the receive has to wait, with the subscription left in place.
    fn start_receive(&mut self, k: &mut Kernel<N>) -> (r: Result<ReceiveStart, ErrorCode>)
        requires
            old(k).wf(),
            old(self).inv(old(k)@),
        ensures
            final(k).wf(),
            final(self).inv(final(k)@),
            final(self).same_start(*old(self)),
            r matches Ok(ReceiveStart::Frame(f)) ==> final(self).received() == old(self).received().push(f),
            !(r matches Ok(ReceiveStart::Frame(_))) ==> final(self).received() == old(self).received(),
            old(self).ours().pending().len() > 0 ==> {
                &&& r matches Ok(ReceiveStart::Frame(f)) && f == old(self).ours().pending()[0]
                &&& final(self).ours()@ == old(self).ours()@.popped()
                &&& final(k)@ == old(k)@
            },
            old(self).ours().pending().len() == 0 && !old(k)@.present ==> {
                &&& r == Err::<ReceiveStart, ErrorCode>(ErrorCode::NoDevice)
                &&& final(self).ours() == old(self).ours()
                &&& final(k)@ == old(k)@
            },
            old(self).ours().pending().len() == 0 && old(k)@.present && old(k)@.allow_error is Some
                ==> {
                &&& r == Err::<ReceiveStart, ErrorCode>(old(k)@.allow_error->0)
                &&& final(self).ours() == old(self).ours()
                &&& final(k)@ == (KernelView {
                    allow_error: None,
                    subscribed: false,
                    notified: false,
                    ..old(k)@
                })
            },
            old(self).ours().pending().len() == 0 && old(k)@.present && old(k)@.allow_error is None
                && old(k)@.lent->0.pending().len() > 0 ==> {
                &&& r matches Ok(ReceiveStart::Frame(f)) && f == old(k)@.lent->0.pending()[0]
                &&& final(self).ours()@ == old(k)@.lent->0.popped()
                &&& final(k)@ == (KernelView {
                    lent: Some(old(self).ours()@),
                    subscribed: false,
                    notified: false,
                    ..old(k)@
                })
            },
            old(self).ours().pending().len() == 0 && old(k)@.present && old(k)@.allow_error is None
                && old(k)@.lent->0.pending().len() == 0 ==> {
                &&& r matches Ok(ReceiveStart::Wait)
                &&& Some(final(self).ours()@) == old(k)@.lent
                &&& final(k)@ == (KernelView {
                    lent: Some(old(self).ours()@),
                    subscribed: true,
                    notified: false,
                    ..old(k)@
                })
            },
    {
        if self.buf_ours.has_frame() {
            let ghost before = *self;
            let f = self.buf_ours.next_frame();
            proof {
                lemma_pop_accounted(self.received@, before.ours().pending(), k@.lent->0.pending());
                self.received@ = self.received@.push(f);
            }
            return Ok(ReceiveStart::Frame(f));
        }
        let ghost o = self.ours().pending();
        match k.subscribe() {
            Err(e) => {
                return Err(e);
            },
            Ok(()) => {},
        }
        match self.buf_kernels.swap(k, &mut self.buf_ours) {
            Err(e) => {
                k.unsubscribe();
                return Err(e);
            },
            Ok(()) => {},
        }
        proof {
            assert(o + self.ours().pending() =~= self.ours().pending() + o);
        }
        if self.buf_ours.has_frame() {
            k.unsubscribe();
            let ghost before = *self;
            let f = self.buf_ours.next_frame();
            proof {
                lemma_pop_accounted(self.received@, before.ours().pending(), k@.lent->0.pending());
                self.received@ = self.received@.push(f);
            }
            return Ok(ReceiveStart::Frame(f));
        }
        Ok(ReceiveStart::Wait)
    }

    /// Starts a receive that hands the operator over: a frame at hand comes
    /// back with the operator; otherwise, with the notification subscribed
    /// and the buffers swapped, a future that finishes the receive. On failure
    /// the operator comes back with the error.
    pub fn receive_frame_fut(self, k: &mut Kernel<N>) -> (r: Result<
        ReceivedFrameOrFut<N>,
        (ErrorCode, Self),
    >)
        requires
            old(k).wf(),
            self.inv(old(k)@),
        ensures
            final(k).wf(),
            r matches Ok(ReceivedFrameOrFut::Frame(op, f)) ==> op.same_start(self)
                && op.received() == self.received().push(f),
            r matches Ok(ReceivedFrameOrFut::Fut(fut)) ==> fut.operator().same_start(self)
                && fut.operator().received() == self.received(),
            r matches Err((_, op)) ==> op.same_start(self) && op.received() == self.received(),
            self.ours().pending().len() > 0 ==> {
                &&& r matches Ok(ReceivedFrameOrFut::Frame(op, f))
                &&& f == self.ours().pending()[0]
                &&& op.ours()@ == self.ours()@.popped()
                &&& op.inv(final(k)@)
                &&& final(k)@ == old(k)@
            },
            self.ours().pending().len() == 0 ==> {
                &&& r is Err <==> !old(k)@.present || old(k)@.allow_error is Some
                &&& r matches Err((e, op)) ==> op.ours() == self.ours() && op.inv(final(k)@) && e
                    == (if !old(k)@.present {
                    ErrorCode::NoDevice
                } else {
                    old(k)@.allow_error->0
                }) && final(k)@.lent == old(k)@.lent && final(k)@.next == old(k)@.next
                &&& r matches Ok(ReceivedFrameOrFut::Frame(op, f)) ==> {
                    &&& old(k)@.lent->0.pending().len() > 0
                    &&& f == old(k)@.lent->0.pending()[0]
                    &&& op.ours()@ == old(k)@.lent->0.popped()
                    &&& op.inv(final(k)@)
                    &&& final(k)@ == (KernelView {
                        lent: Some(self.ours()@),
                        subscribed: false,
                        notified: false,
                        ..old(k)@
                    })
                }
                &&& r matches Ok(ReceivedFrameOrFut::Fut(fut)) ==> {
                    &&& old(k)@.lent->0.pending().len() == 0
                    &&& fut.waiting(final(k)@)
                    &&& Some(fut.operator().ours()@) == old(k)@.lent
                    &&& final(k)@ == (KernelView {
                        lent: Some(self.ours()@),
                        subscribed: true,
                        notified: false,
                        ..old(k)@
                    })
                }
            },
    {
        let mut op = self;
        match op.start_receive(k) {
            Err(e) => Err((e, op)),
            Ok(ReceiveStart::Frame(f)) => Ok(ReceivedFrameOrFut::Frame(op, f)),
            Ok(ReceiveStart::Wait) => Ok(ReceivedFrameOrFut::Fut(AlternatingOperatorFrameFut { op })),
        }
    }

    /// Finishes a receive once the notification fired: swaps the buffers again
    /// and pops from the buffer taken back, dropping the subscription. When the
    /// swap fails nothing is popped.
    pub fn finish_receive(&mut self, k: &mut Kernel<N>) -> (r: Result<Frame, ErrorCode>)
        requires
            old(k).wf(),
            old(self).inv(old(k)@),
            old(self).ours().pending().len() == 0,
            old(k)@.lent->0.pending().len() > 0,
        ensures
            final(k).wf(),
            final(self).inv(final(k)@),
            final(self).same_start(*old(self)),
            r matches Ok(f) ==> final(self).received() == old(self).received().push(f),
            r is Err ==> final(self).received() == old(self).received(),
            r is Ok <==> old(k)@.present && old(k)@.allow_error is None,
            r is Ok ==> {
                &&& r == Ok::<Frame, ErrorCode>(old(k)@.lent->0.pending()[0])
                &&& final(self).ours()@ == old(k)@.lent->0.popped()
                &&& final(k)@ == (KernelView {
                    lent: Some(old(self).ours()@),
                    subscribed: false,
                    notified: false,
                    ..old(k)@
                })
            },
            !old(k)@.present ==> {
                &&& r == Err::<Frame, ErrorCode>(ErrorCode::NoDevice)
                &&& final(self).ours() == old(self).ours()
                &&& final(k)@ == (KernelView { subscribed: false, notified: false, ..old(k)@ })
            },
            old(k)@.present && old(k)@.allow_error is Some ==> {
                &&& r == Err::<Frame, ErrorCode>(old(k)@.allow_error->0)
                &&& final(self).ours() == old(self).ours()
                &&& final(k)@ == (KernelView {
                    allow_error: None,
                    subscribed: false,
                    notified: false,
                    ..old(k)@
                })
            },
    {
        let ghost o = self.ours().pending();
        let r = self.buf_kernels.swap(k, &mut self.buf_ours);
        k.unsubscribe();
        match r {
            Err(e) => Err(e),
            Ok(()) => {
                proof {
                    assert(self.ours().pending() + o =~= o + self.ours().pending());
                }
                let ghost before = *self;
                let f = self.buf_ours.next_frame();
                proof {
                    lemma_pop_accounted(self.received@, before.ours().pending(), k@.lent->0.pending());
                    self.received@ = self.received@.push(f);
                }
                Ok(f)
            },
        }
    }
}

/// A frame received at once, with the operator, or a future that finishes
/// the receive.
pub enum ReceivedFrameOrFut<const N: usize> {
    Frame(RxBufferAlternatingOperator<N>, Frame),
    Fut(AlternatingOperatorFrameFut<N>),
}

/// A receive of the alternating operator that waits for a frame: it owns the
/// operator, with the frame-received notification subscribed and both
/// buffers empty.
///
/// It is not a [`TockFuture`]: awaiting it swaps the buffers even when it is
/// resolved already, where awaiting a resolved `TockFuture` changes nothing.
/// Inside a select, [`FrameNotificationFut`] stands for its wait.
pub struct AlternatingOperatorFrameFut<const N: usize> {
    op: RxBufferAlternatingOperator<N>,
}

impl<const N: usize> AlternatingOperatorFrameFut<N> {
    /// The operator it will give back.
    pub closed spec fn operator(&self) -> RxBufferAlternatingOperator<N> {
        self.op
    }

    /// The receive is still waiting in `k`: the application's buffer is
    /// empty, the notification subscribed, and when it fired a frame sits in
    /// the lent buffer.
    pub open spec fn waiting(&self, k: KernelView) -> bool {
        &&& self.operator().inv(k)
        &&& self.operator().ours().pending().len() == 0
        &&& k.subscribed
        &&& k.notified ==> k.lent->0.pending().len() > 0
    }

    /// Whether the notification fired.
    pub fn check_resolved(&self, k: &Kernel<N>) -> (r: bool)
        ensures
            r == k@.notified,
    {
        k.is_notified()
    }

    /// Yields until the notification fires, then swaps the buffers again and
    /// pops the oldest frame of the buffer taken back. A failed swap comes back
    /// as the error, nothing popped. The operator comes back either way, its
    /// subscription dropped.
    pub fn await_completion(self, k: &mut Kernel<N>) -> (r: (
        RxBufferAlternatingOperator<N>,
        Result<Frame, ErrorCode>,
    ))
        requires
            2 <= N,
            old(k).wf(),
            self.waiting(old(k)@),
            old(k)@.notified || frame_ahead(old(k)@.events, old(k)@.next),
        ensures
            final(k).wf(),
            r.0.inv(final(k)@),
            r.0.same_start(self.operator()),
            r.1 matches Ok(f) ==> r.0.received() == self.operator().received().push(f),
            r.1 is Err ==> r.0.received() == self.operator().received(),
            ({
                let w = woken(old(k)@);
                &&& r.1 is Ok <==> old(k)@.present && old(k)@.allow_error is None
                &&& r.1 is Ok ==> {
                    &&& r.1 == Ok::<Frame, ErrorCode>(w.lent->0.pending()[0])
                    &&& r.0.ours()@ == w.lent->0.popped()
                    &&& final(k)@ == (KernelView {
                        lent: Some(self.operator().ours()@),
                        subscribed: false,
                        notified: false,
                        ..w
                    })
                }
                &&& !old(k)@.present ==> {
                    &&& r.1 == Err::<Frame, ErrorCode>(ErrorCode::NoDevice)
                    &&& r.0.ours() == self.operator().ours()
                    &&& final(k)@ == (KernelView { subscribed: false, notified: false, ..w })
                }
                &&& old(k)@.present && old(k)@.allow_error is Some ==> {
                    &&& r.1 == Err::<Frame, ErrorCode>(old(k)@.allow_error->0)
                    &&& r.0.ours() == self.operator().ours()
                    &&& final(k)@ == (KernelView {
                        allow_error: None,
                        subscribed: false,
                        notified: false,
                        ..w
                    })
                }
            }),
    {
        let mut op = self.op;
        let ghost v0 = k@;
        let wait = FrameNotificationFut::new();
        proof {
            if v0.notified {
                <FrameNotificationFut as TockFuture<Kernel<N>>>::lemma_resolved_completes(&wait, v0);
            } else {
                lemma_wakes::<N>(v0, false);
            }
        }
        wait.await_completion(k);
        proof {
            let j = choose|j: nat|
                {
                    &&& yields_return::<N>(v0, j)
                    &&& forall|i: nat| i < j ==> !(#[trigger] yielded::<N>(v0, i)).notified
                    &&& k@ == #[trigger] yielded::<N>(v0, j)
                    &&& k@.notified
                };
            lemma_first_wake::<N>(v0, j);
            if !v0.notified {
                let t = first_frame(v0.events, v0.next);
                let q = v0.lent->0.pending();
                lemma_landing_accounted(op, v0, k@, v0.events[t as int]->FrameReceived_0);
                v0.lent->0.lemma_pushed(v0.events[t as int]->FrameReceived_0);
                assert(after_write(q, v0.events[t as int]->FrameReceived_0, N as nat).len() > 0);
            }
        }
        let r = op.finish_receive(k);
        (op, r)
    }

    /// Gives up the receive: drops the subscription and gives the operator
    /// back, no frame lost.
    pub fn cancel(self, k: &mut Kernel<N>) -> (r: RxBufferAlternatingOperator<N>)
        requires
            old(k).wf(),
        ensures
            final(k).wf(),
            r == self.operator(),
            final(k)@ == (KernelView { subscribed: false, notified: false, ..old(k)@ }),
    {
        k.unsubscribe();
        self.op
    }
}

impl<const N: usize> RxOperator<N> for RxBufferAlternatingOperator<N> {
    open spec fn ready(&self, k: KernelView) -> bool {
        self.inv(k)
    }

    open spec fn held(&self, k: KernelView) -> Seq<Frame> {
        self.queued(k)
    }

    /// Receives the oldest unread frame, yielding until one comes when both
    /// buffers are empty.
    fn receive_frame(&mut self, k: &mut Kernel<N>) -> (r: Result<Frame, ErrorCode>)
        ensures
            final(k).wf(),
            final(self).inv(final(k)@),
            final(self).same_start(*old(self)),
            r matches Ok(f) ==> final(self).received() == old(self).received().push(f),
            r is Err ==> final(self).received() == old(self).received(),
            old(self).ours().pending().len() > 0 ==> {
                &&& r == Ok::<Frame, ErrorCode>(old(self).ours().pending()[0])
                &&& final(self).ours()@ == old(self).ours()@.popped()
                &&& final(k)@ == old(k)@
            },
            old(self).ours().pending().len() == 0 && old(k)@.present && old(k)@.allow_error is None
                && old(k)@.lent->0.pending().len() > 0 ==> {
                &&& r == Ok::<Frame, ErrorCode>(old(k)@.lent->0.pending()[0])
                &&& final(self).ours()@ == old(k)@.lent->0.popped()
                &&& final(k)@ == (KernelView {
                    lent: Some(old(self).ours()@),
                    subscribed: false,
                    notified: false,
                    ..old(k)@
                })
            },
            r is Err && !old(k)@.present ==> final(k)@ == old(k)@,
            r is Err && old(k)@.present ==> final(k)@ == (KernelView {
                allow_error: None,
                subscribed: false,
                notified: false,
                ..old(k)@
            }),
            r is Err <==> old(self).ours().pending().len() == 0 && (!old(k)@.present
                || old(k)@.allow_error is Some),
            r is Err ==> {
                &&& r == Err::<Frame, ErrorCode>(
                    if !old(k)@.present {
                        ErrorCode::NoDevice
                    } else {
                        old(k)@.allow_error->0
                    },
                )
                &&& final(self).ours() == old(self).ours()
                &&& final(k)@.lent == old(k)@.lent
            },
            old(self).queued(old(k)@).len() > 0 && r is Ok ==> (
            r->Ok_0,
            final(self).ours().pending(),
            final(k)@.lent->0.pending(),
            ) == exchange_receive(old(self).ours().pending(), old(k)@.lent->0.pending()),
            old(self).queued(old(k)@).len() > 0 ==> final(k)@.next == old(k)@.next,
            old(self).queued(old(k)@).len() == 0 && old(k)@.present && old(k)@.allow_error is None
                ==> {
                let t = first_frame(old(k)@.events, old(k)@.next);
                let f = old(k)@.events[t as int]->FrameReceived_0;
                &&& r == Ok::<Frame, ErrorCode>(f)
                &&& (f, final(self).ours().pending(), final(k)@.lent->0.pending()) == exchange_receive(
                    old(self).ours().pending(),
                    after_write(old(k)@.lent->0.pending(), f, N as nat),
                )
                &&& final(self).ours()@ == old(self).ours()@.pushed(f).popped()
                &&& final(k)@ == (KernelView {
                    next: t + 1,
                    landed: old(k)@.landed.push(f),
                    now: (old(k)@.now + (t - old(k)@.next)) as nat,
                    subscribed: false,
                    notified: false,
                    ..old(k)@
                })
            },
    {
        let ghost o = self.ours();
        let ghost l = k@.lent->0;
        proof {
            if o.pending().len() > 0 {
                o@.lemma_popped();
            } else if l.pending().len() > 0 {
                l.lemma_popped();
            }
        }
        match self.start_receive(k) {
            Err(e) => Err(e),
            Ok(ReceiveStart::Frame(f)) => Ok(f),
            Ok(ReceiveStart::Wait) => {
                let fut = FrameNotificationFut::new();
                let ghost v0 = k@;
                proof {
                    lemma_wakes::<N>(v0, false);
                }
                fut.await_completion(k);
                proof {
                    let j = choose|j: nat|
                        {
                            &&& yields_return::<N>(v0, j)
                            &&& forall|i: nat| i < j ==> !(#[trigger] yielded::<N>(v0, i)).notified
                            &&& k@ == #[trigger] yielded::<N>(v0, j)
                            &&& k@.notified
                        };
                    lemma_first_wake::<N>(v0, j);
                    let f = v0.events[first_frame(v0.events, v0.next) as int]->FrameReceived_0;
                    lemma_landing_accounted(*self, v0, k@, f);
                    o@.lemma_pushed(f);
                    o@.pushed(f).lemma_popped();
                    assert(after_write(o.pending(), f, N as nat) =~= seq![f]);
                    assert(after_write(l.pending(), f, N as nat) =~= seq![f]);
                }
                self.finish_receive(k)
            },
        }
    }

    /// Like `receive_frame`, but gives up with `None` when the alarm, set
    /// `ticks` ticks ahead, fires before a frame comes: the wait is a select
    /// between the frame notification and the alarm, the frame winning a tie.
    fn receive_frame_timed(&mut self, k: &mut Kernel<N>, ticks: usize) -> (r: Result<
        Option<Frame>,
        ErrorCode,
    >)
        ensures
            final(k).wf(),
            final(self).inv(final(k)@),
            final(self).same_start(*old(self)),
            r matches Ok(Some(f)) ==> final(self).received() == old(self).received().push(f),
            !(r matches Ok(Some(_))) ==> final(self).received() == old(self).received(),
            old(self).ours().pending().len() > 0 ==> {
                &&& r == Ok::<Option<Frame>, ErrorCode>(Some(old(self).ours().pending()[0]))
                &&& final(self).ours()@ == old(self).ours()@.popped()
                &&& final(k)@ == old(k)@
            },
            old(self).ours().pending().len() == 0 && old(k)@.present && old(k)@.allow_error is None
                && old(k)@.lent->0.pending().len() > 0 ==> {
                &&& r == Ok::<Option<Frame>, ErrorCode>(Some(old(k)@.lent->0.pending()[0]))
                &&& final(self).ours()@ == old(k)@.lent->0.popped()
                &&& final(k)@ == (KernelView {
                    lent: Some(old(self).ours()@),
                    subscribed: false,
                    notified: false,
                    ..old(k)@
                })
            },
            r is Err && !old(k)@.present ==> final(k)@ == old(k)@,
            r is Err && old(k)@.present ==> final(k)@ == (KernelView {
                allow_error: None,
                subscribed: false,
                notified: false,
                ..old(k)@
            }),
            r is Err <==> old(self).ours().pending().len() == 0 && (!old(k)@.present
                || old(k)@.allow_error is Some),
            r is Err ==> {
                &&& r == Err::<Option<Frame>, ErrorCode>(
                    if !old(k)@.present {
                        ErrorCode::NoDevice
                    } else {
                        old(k)@.allow_error->0
                    },
                )
                &&& final(self).ours() == old(self).ours()
                &&& final(k)@.lent == old(k)@.lent
            },
            old(self).queued(old(k)@).len() > 0 && r is Ok ==> r->Ok_0 is Some && (
            r->Ok_0->0,
            final(self).ours().pending(),
            final(k)@.lent->0.pending(),
            ) == exchange_receive(old(self).ours().pending(), old(k)@.lent->0.pending())
                && final(k)@.next == old(k)@.next,
            old(self).queued(old(k)@).len() == 0 && old(k)@.present && old(k)@.allow_error is None
                ==> {
                let t = first_frame(old(k)@.events, old(k)@.next);
                let f = old(k)@.events[t as int]->FrameReceived_0;
                let d = alarm_deadline(old(k)@.now, ticks as nat);
                if t < old(k)@.events.len() && old(k)@.now + (t - old(k)@.next) < d {
                    &&& r == Ok::<Option<Frame>, ErrorCode>(Some(f))
                    &&& final(self).ours()@ == old(self).ours()@.pushed(f).popped()
                    &&& final(k)@ == (KernelView {
                        next: t + 1,
                        landed: old(k)@.landed.push(f),
                        now: (old(k)@.now + (t - old(k)@.next)) as nat,
                        subscribed: false,
                        notified: false,
                        alarm: Some(d),
                        ..old(k)@
                    })
                } else {
                    &&& r == Ok::<Option<Frame>, ErrorCode>(None)
                    &&& Some(final(self).ours()@) == old(k)@.lent
                    &&& final(k)@ == (KernelView {
                        lent: Some(old(self).ours()@),
                        next: (old(k)@.next + (d - old(k)@.now)) as nat,
                        now: d,
                        subscribed: false,
                        notified: false,
                        alarm: Some(d),
                        ..old(k)@
                    })
                }
            },
    {
        let ghost o = self.ours();
        let ghost l = k@.lent->0;
        proof {
            if o.pending().len() > 0 {
                o@.lemma_popped();
            } else if l.pending().len() > 0 {
                l.lemma_popped();
            }
        }
        match self.start_receive(k) {
            Err(e) => Err(e),
            Ok(ReceiveStart::Frame(f)) => Ok(Some(f)),
            Ok(ReceiveStart::Wait) => {
                let fut = FrameNotificationFut::new();
                let alarm = AlarmFut::sleep(k, ticks);
                let ghost v0 = k@;
                let ghost d = alarm_deadline(v0.now, ticks as nat);
                let sel = Select { fut1: fut, fut2: alarm };
                proof {
                    lemma_wakes::<N>(v0, true);
                    let j = choose|j: nat|
                        yields_return::<N>(v0, j) && (#[trigger] yielded::<N>(v0, j).notified || (true
                            && yielded::<N>(v0, j).alarm_fired()));
                    assert(<Select<FrameNotificationFut, AlarmFut> as TockFuture<Kernel<N>>>::resolved(&sel, after_yields::<Kernel<N>>(v0, j)));
                }
                let ghost gsel = sel;
                let out = sel.await_completion(k);
                let ghost j = choose|j: nat|
                    {
                        &&& can_yield::<Kernel<N>>(v0, j)
                        &&& forall|i: nat| i < j ==> !<Select<FrameNotificationFut, AlarmFut> as TockFuture<Kernel<N>>>::resolved(&gsel, #[trigger] after_yields::<Kernel<N>>(v0, i))
                        &&& #[trigger] crate::future::select_completes_at::<Kernel<N>, FrameNotificationFut, AlarmFut>(gsel, after_yields::<Kernel<N>>(v0, j), k@, out)
                    };
                proof {
                    assert forall|i: nat| i < j implies !(#[trigger] yielded::<N>(v0, i)).notified
                        && !yielded::<N>(v0, i).alarm_fired() by {
                        assert(!<Select<FrameNotificationFut, AlarmFut> as TockFuture<Kernel<N>>>::resolved(&gsel, after_yields::<Kernel<N>>(v0, i)));
                    }
                }
                match out {
                    SelectOutput::Left(()) => {
                        proof {
                            <FrameNotificationFut as TockFuture<Kernel<N>>>::lemma_resolved_completes(&gsel.fut1, yielded::<N>(v0, j));
                            lemma_first_wake_or_alarm::<N>(v0, j, d);
                            let t = first_frame(v0.events, v0.next);
                            let f = v0.events[t as int]->FrameReceived_0;
                            lemma_landing_accounted(*self, v0, k@, f);
                            o@.lemma_pushed(f);
                            o@.pushed(f).lemma_popped();
                        }
                        match self.finish_receive(k) {
                            Ok(f) => Ok(Some(f)),
                            Err(e) => Err(e),
                        }
                    },
                    SelectOutput::Right(()) => {
                        proof {
                            <AlarmFut as TockFuture<Kernel<N>>>::lemma_resolved_completes(&gsel.fut2, yielded::<N>(v0, j));
                            lemma_first_wake_or_alarm::<N>(v0, j, d);
                        }
                        k.unsubscribe();
                        Ok(None)
                    },
                }
            },
        }
    }
}

} // verus!
