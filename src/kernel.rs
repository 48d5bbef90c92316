use vstd::prelude::*;
use crate::error::ErrorCode;
use crate::frame::Frame;
use crate::ring::{RingView, RxRingBuffer};

verus! {

/// The one cooperative suspension point of the application: yielding lets the
/// kernel run and deliver notifications.
///
/// Its state is read through its view: `after_yield` is what one yield does to
/// it, and `yields_left` bounds how many more yields can return.
pub trait Syscalls: Sized + View {
    /// The state is consistent.
    spec fn sys_wf(v: Self::V) -> bool;

    /// How many more yields return.
    spec fn yields_left(v: Self::V) -> nat;

    /// The state after one yield.
    spec fn after_yield(v: Self::V) -> Self::V;

    /// Suspends until the kernel has handled one event.
    fn yield_wait(&mut self)
        requires
            Self::sys_wf(old(self)@),
            Self::yields_left(old(self)@) > 0,
        ensures
            Self::sys_wf(final(self)@),
            final(self)@ == Self::after_yield(old(self)@),
            Self::yields_left(final(self)@) < Self::yields_left(old(self)@),
    ;
}

/// The state after `j` yields from `v`.
pub open spec fn after_yields<S: Syscalls>(v: S::V, j: nat) -> S::V
    decreases j,
{
    if j == 0 {
        v
    } else {
        S::after_yield(after_yields::<S>(v, (j - 1) as nat))
    }
}

/// Each of the first `j` yields from `v` returns.
pub open spec fn can_yield<S: Syscalls>(v: S::V, j: nat) -> bool {
    forall|i: nat| i < j ==> S::yields_left(#[trigger] after_yields::<S>(v, i)) > 0
}

/// One yield more at the front is one yield more at the back.
pub proof fn lemma_after_yields_shift<S: Syscalls>(v: S::V, j: nat)
    ensures
        after_yields::<S>(v, j + 1) == after_yields::<S>(S::after_yield(v), j),
    decreases j,
{
    assert(after_yields::<S>(v, 1) == S::after_yield(after_yields::<S>(v, 0)));
    if j > 0 {
        lemma_after_yields_shift::<S>(v, (j - 1) as nat);
        assert(after_yields::<S>(v, j + 1) == S::after_yield(after_yields::<S>(v, j)));
        assert(after_yields::<S>(S::after_yield(v), j) == S::after_yield(
            after_yields::<S>(S::after_yield(v), (j - 1) as nat),
        ));
    }
}

/// What happens in the kernel while the application yields.
#[derive(Clone, Copy, Debug)]
pub enum KernelEvent {
    /// The radio receives a frame.
    FrameReceived(Frame),
    /// One tick of the alarm clock passes.
    Tick,
}

/// The abstract state of the kernel side of the radio and alarm drivers.
pub ghost struct KernelView {
    /// The radio driver is present.
    pub present: bool,
    /// The error that the next allow fails with, if any.
    pub allow_error: Option<ErrorCode>,
    /// The ring buffer lent to the kernel for reception.
    pub lent: Option<RingView>,
    /// The frame-received notification is subscribed.
    pub subscribed: bool,
    /// Continuous reception into the lent buffer was started and not aborted.
    pub receiving: bool,
    /// The frame-received notification fired since the subscription.
    pub notified: bool,
    /// The events the kernel handles, one per yield.
    pub events: Seq<KernelEvent>,
    /// How many of them were handled.
    pub next: nat,
    /// The alarm clock, in ticks.
    pub now: nat,
    /// The tick at which the alarm fires.
    pub alarm: Option<nat>,
    /// Every frame written into a lent buffer, in write order.
    pub landed: Seq<Frame>,
    /// How many of those writes found the lent buffer full and dropped its
    /// oldest frame.
    pub overflows: nat,
}

impl KernelView {
    /// The kernel receives `f`: it lands in the lent buffer, if any, and fires
    /// the notification if subscribed. Without a lent buffer the frame is lost.
    pub open spec fn delivered(self, f: Frame) -> KernelView {
        match self.lent {
            Some(b) => KernelView {
                lent: Some(b.pushed(f)),
                notified: self.notified || self.subscribed,
                landed: self.landed.push(f),
                overflows: if b.count() + 1 >= b.slots.len() {
                    self.overflows + 1
                } else {
                    self.overflows
                },
                ..self
            },
            None => self,
        }
    }

    /// The kernel handles the next event, if there is one.
    pub open spec fn stepped(self) -> KernelView {
        if self.next < self.events.len() {
            let s = KernelView { next: self.next + 1, ..self };
            match self.events[self.next as int] {
                KernelEvent::FrameReceived(f) => s.delivered(f),
                KernelEvent::Tick => KernelView { now: self.now + 1, ..s },
            }
        } else {
            self
        }
    }

    /// The alarm was set and its tick has come.
    pub open spec fn alarm_fired(self) -> bool {
        match self.alarm {
            Some(d) => self.now >= d,
            None => false,
        }
    }

    /// The alarm is set, and enough ticks lie ahead for it to fire.
    pub open spec fn alarm_due(self) -> bool {
        match self.alarm {
            Some(d) => d <= self.now + ticks_ahead(self.events, self.next),
            None => false,
        }
    }

    /// The same state with nothing lent.
    pub open spec fn without_lent(self) -> KernelView {
        KernelView { lent: None, ..self }
    }

    /// The same state with `b` lent.
    pub open spec fn with_lent(self, b: RingView) -> KernelView {
        KernelView { lent: Some(b), ..self }
    }
}

/// A frame event lies in `events` at or after `from`.
pub open spec fn frame_ahead(events: Seq<KernelEvent>, from: nat) -> bool
    decreases events.len() - from,
{
    if from >= events.len() {
        false
    } else {
        events[from as int] is FrameReceived || frame_ahead(events, from + 1)
    }
}

/// The index of the first frame event in `events` at or after `from`, or the
/// length when there is none.
pub open spec fn first_frame(events: Seq<KernelEvent>, from: nat) -> nat
    decreases events.len() - from,
{
    if from >= events.len() {
        events.len()
    } else if events[from as int] is FrameReceived {
        from
    } else {
        first_frame(events, from + 1)
    }
}

/// The first frame event does not lie before where the search starts.
proof fn lemma_first_frame_bound(events: Seq<KernelEvent>, from: nat)
    requires
        from <= events.len(),
    ensures
        first_frame(events, from) >= from,
    decreases events.len() - from,
{
    if from < events.len() && !(events[from as int] is FrameReceived) {
        lemma_first_frame_bound(events, from + 1);
    }
}

/// A run of ticks holds no frame event.
pub proof fn lemma_first_frame_after_ticks(events: Seq<KernelEvent>, from: nat, j: nat)
    requires
        from + j <= events.len(),
        forall|i: nat| i < j ==> (#[trigger] events[from + i as int]) is Tick,
    ensures
        first_frame(events, from) >= from + j,
    decreases j,
{
    if j > 0 {
        assert(events[from + 0nat as int] is Tick);
        assert(first_frame(events, from) == first_frame(events, from + 1));
        assert forall|i: nat| i < (j - 1) as nat implies (#[trigger] events[(from + 1) + i as int]) is Tick by {
            assert(events[from + (i + 1) as nat as int] is Tick);
        }
        lemma_first_frame_after_ticks(events, from + 1, (j - 1) as nat);
        assert(first_frame(events, from + 1) >= from + 1 + (j - 1) as nat);
    } else {
        lemma_first_frame_bound(events, from);
    }
}

/// The tick at which an alarm set `ticks` ticks after `now` fires: the last
/// tick there is, if that lies further.
pub open spec fn alarm_deadline(now: nat, ticks: nat) -> nat {
    if now + ticks > usize::MAX {
        usize::MAX as nat
    } else {
        now + ticks
    }
}

/// After a run of ticks, the first frame event is the one that ends it.
pub proof fn lemma_first_frame(events: Seq<KernelEvent>, from: nat, t: nat)
    requires
        from <= t < events.len(),
        events[t as int] is FrameReceived,
        forall|i: nat| from <= i < t ==> (#[trigger] events[i as int]) is Tick,
    ensures
        first_frame(events, from) == t,
    decreases t - from,
{
    if from < t {
        lemma_first_frame(events, from + 1, t);
    }
}

/// The number of ticks in `events` at or after `from`.
pub open spec fn ticks_ahead(events: Seq<KernelEvent>, from: nat) -> nat
    decreases events.len() - from,
{
    if from >= events.len() {
        0
    } else {
        (if events[from as int] is Tick {
            1nat
        } else {
            0nat
        }) + ticks_ahead(events, from + 1)
    }
}

/// The state after `j` yields from `v`.
pub open spec fn yielded<const N: usize>(v: KernelView, j: nat) -> KernelView {
    after_yields::<Kernel<N>>(v, j)
}

/// Whether `j` yields from `v` all return.
pub open spec fn yields_return<const N: usize>(v: KernelView, j: nat) -> bool {
    can_yield::<Kernel<N>>(v, j)
}

/// While a receiver waits with a buffer lent and the notification subscribed,
/// it is woken by the next frame event, or by the alarm when `with_alarm` holds
/// and enough ticks lie ahead.
pub proof fn lemma_wakes<const N: usize>(v: KernelView, with_alarm: bool)
    requires
        v.next <= v.events.len(),
        v.subscribed,
        v.lent is Some,
        frame_ahead(v.events, v.next) || (with_alarm && v.alarm_due()),
    ensures
        exists|j: nat|
            yields_return::<N>(v, j) && (#[trigger] yielded::<N>(v, j).notified || (with_alarm
                && yielded::<N>(v, j).alarm_fired())),
    decreases v.events.len() - v.next,
{
    assert(yielded::<N>(v, 0) == v);
    if v.notified || (with_alarm && v.alarm_fired()) {
        assert(yields_return::<N>(v, 0));
        assert(yielded::<N>(v, 0).notified || (with_alarm && yielded::<N>(v, 0).alarm_fired()));
        assert(exists|j: nat|
            yields_return::<N>(v, j) && (#[trigger] yielded::<N>(v, j).notified || (with_alarm
                && yielded::<N>(v, j).alarm_fired())));
    } else {
        let w = v.stepped();
        assert(v.next < v.events.len());
        assert(Kernel::<N>::after_yield(v) == w);
        lemma_after_yields_shift::<Kernel<N>>(v, 0);
        if v.events[v.next as int] is FrameReceived {
            assert(yielded::<N>(v, 1) == w);
            assert(yields_return::<N>(v, 1));
            assert(yielded::<N>(v, 1).notified);
            assert(yielded::<N>(v, 1).notified || (with_alarm && yielded::<N>(v, 1).alarm_fired()));
            assert(exists|j: nat|
            yields_return::<N>(v, j) && (#[trigger] yielded::<N>(v, j).notified || (with_alarm
                && yielded::<N>(v, j).alarm_fired())));
        } else {
            lemma_wakes::<N>(w, with_alarm);
            let j = choose|j: nat|
                yields_return::<N>(w, j) && (#[trigger] yielded::<N>(w, j).notified || (with_alarm
                    && yielded::<N>(w, j).alarm_fired()));
            lemma_after_yields_shift::<Kernel<N>>(v, j);
            assert forall|i: nat| i < j + 1 implies Kernel::<N>::yields_left(
                #[trigger] after_yields::<Kernel<N>>(v, i),
            ) > 0 by {
                if i > 0 {
                    lemma_after_yields_shift::<Kernel<N>>(v, (i - 1) as nat);
                    assert(after_yields::<Kernel<N>>(w, (i - 1) as nat) == after_yields::<Kernel<N>>(v, i));
                    assert(Kernel::<N>::yields_left(after_yields::<Kernel<N>>(w, (i - 1) as nat)) > 0);
                } else {
                    assert(after_yields::<Kernel<N>>(v, 0) == v);
                }
            }
            assert(yields_return::<N>(v, j + 1));
            assert(yielded::<N>(v, j + 1) == yielded::<N>(w, j));
            assert(yielded::<N>(v, j + 1).notified || (with_alarm && yielded::<N>(v, j + 1).alarm_fired()));
            assert(exists|j: nat|
            yields_return::<N>(v, j) && (#[trigger] yielded::<N>(v, j).notified || (with_alarm
                && yielded::<N>(v, j).alarm_fired())));
        }
    }
}

/// While no notification has fired, with a buffer lent and the notification
/// subscribed, every event handled was a tick.
pub proof fn lemma_quiet<const N: usize>(v: KernelView, j: nat)
    requires
        v.subscribed,
        v.lent is Some,
        yields_return::<N>(v, j),
        forall|i: nat| i <= j ==> !(#[trigger] yielded::<N>(v, i)).notified,
    ensures
        yielded::<N>(v, j) == (KernelView { next: v.next + j, now: v.now + j, ..v }),
        forall|i: nat| i < j ==> (#[trigger] v.events[v.next + i as int]) is Tick,
    decreases j,
{
    if j > 0 {
        let p = (j - 1) as nat;
        assert(yielded::<N>(v, p) == after_yields::<Kernel<N>>(v, p));
        assert forall|i: nat| i < p implies Kernel::<N>::yields_left(
            #[trigger] after_yields::<Kernel<N>>(v, i),
        ) > 0 by {
            assert(i < j);
        }
        assert forall|i: nat| i <= p implies !(#[trigger] yielded::<N>(v, i)).notified by {
            assert(i <= j);
        }
        lemma_quiet::<N>(v, p);
        assert(Kernel::<N>::yields_left(after_yields::<Kernel<N>>(v, p)) > 0);
        let w = yielded::<N>(v, p);
        assert(yielded::<N>(v, j) == w.stepped());
        assert(!yielded::<N>(v, j).notified);
        assert(w.next < w.events.len());
        let s1 = KernelView { next: w.next + 1, ..w };
        match w.events[w.next as int] {
            KernelEvent::FrameReceived(f) => {
                assert(w.stepped() == s1.delivered(f));
                assert(s1.delivered(f).notified);
            },
            KernelEvent::Tick => {},
        }
        assert(w.events[w.next as int] is Tick);
        assert forall|i: nat| i < j implies (#[trigger] v.events[v.next + i as int]) is Tick by {
            if i == p {
                assert(v.next + i == w.next);
            }
        }
    }
}

/// The first notification while waiting, with a buffer lent and the
/// notification subscribed, comes from the frame of the last event handled,
/// all earlier ones being ticks.
pub proof fn lemma_woken<const N: usize>(v: KernelView, j: nat)
    requires
        v.subscribed,
        v.lent is Some,
        j > 0,
        yields_return::<N>(v, j),
        forall|i: nat| i < j ==> !(#[trigger] yielded::<N>(v, i)).notified,
        yielded::<N>(v, j).notified,
    ensures
        v.next + j <= v.events.len(),
        v.events[v.next + j - 1] is FrameReceived,
        yielded::<N>(v, j) == (KernelView {
            next: v.next + j,
            now: (v.now + j - 1) as nat,
            notified: true,
            lent: Some(v.lent->0.pushed(v.events[v.next + j - 1]->FrameReceived_0)),
            landed: v.landed.push(v.events[v.next + j - 1]->FrameReceived_0),
            overflows: if v.lent->0.count() + 1 >= v.lent->0.slots.len() {
                v.overflows + 1
            } else {
                v.overflows
            },
            ..v
        }),
        forall|i: nat| i < j - 1 ==> (#[trigger] v.events[v.next + i as int]) is Tick,
{
    let p = (j - 1) as nat;
    assert forall|i: nat| i < p implies Kernel::<N>::yields_left(
        #[trigger] after_yields::<Kernel<N>>(v, i),
    ) > 0 by {
        assert(i < j);
    }
    lemma_quiet::<N>(v, p);
    assert(Kernel::<N>::yields_left(after_yields::<Kernel<N>>(v, p)) > 0);
    let w = yielded::<N>(v, p);
    assert(yielded::<N>(v, j) == w.stepped());
}

/// The state in which a receiver that waits from `v`, with a buffer lent and
/// the notification subscribed, is woken: at once if the notification already
/// fired, else right after the first frame event, all events before it being
/// ticks.
pub open spec fn woken(v: KernelView) -> KernelView {
    if v.notified {
        v
    } else {
        let t = first_frame(v.events, v.next);
        KernelView {
            next: t + 1,
            now: (v.now + (t - v.next)) as nat,
            notified: true,
            lent: Some(v.lent->0.pushed(v.events[t as int]->FrameReceived_0)),
            landed: v.landed.push(v.events[t as int]->FrameReceived_0),
            overflows: if v.lent->0.count() + 1 >= v.lent->0.slots.len() {
                v.overflows + 1
            } else {
                v.overflows
            },
            ..v
        }
    }
}

/// The first state with the notification fired, while waiting with a buffer
/// lent and the notification subscribed, is the woken state.
pub proof fn lemma_first_wake<const N: usize>(v: KernelView, j: nat)
    requires
        v.subscribed,
        v.lent is Some,
        yields_return::<N>(v, j),
        forall|i: nat| i < j ==> !(#[trigger] yielded::<N>(v, i)).notified,
        yielded::<N>(v, j).notified,
    ensures
        yielded::<N>(v, j) == woken(v),
        !v.notified ==> first_frame(v.events, v.next) < v.events.len(),
{
    assert(yielded::<N>(v, 0) == v);
    if v.notified {
        if j > 0 {
            assert(!yielded::<N>(v, 0).notified);
        }
    } else {
        lemma_woken::<N>(v, j);
        let t = (v.next + j - 1) as nat;
        assert forall|i: nat| v.next <= i < t implies (#[trigger] v.events[i as int]) is Tick by {
            assert(v.events[v.next + (i - v.next) as nat as int] is Tick);
        }
        lemma_first_frame(v.events, v.next, t);
    }
}

/// Waiting from `v` with a buffer lent, the notification subscribed and the
/// alarm at `d`, the first state where the notification or the alarm fired is
/// the woken state when the first frame event comes before the alarm's tick,
/// and otherwise the state at the alarm's tick, all events before it ticks.
pub proof fn lemma_first_wake_or_alarm<const N: usize>(v: KernelView, j: nat, d: nat)
    requires
        v.subscribed,
        v.lent is Some,
        !v.notified,
        v.alarm == Some(d),
        v.now <= d,
        v.next <= v.events.len(),
        yields_return::<N>(v, j),
        forall|i: nat|
            i < j ==> !(#[trigger] yielded::<N>(v, i)).notified && !yielded::<N>(v, i).alarm_fired(),
        yielded::<N>(v, j).notified || yielded::<N>(v, j).alarm_fired(),
    ensures
        ({
            let t = first_frame(v.events, v.next);
            if t < v.events.len() && v.now + (t - v.next) < d {
                yielded::<N>(v, j).notified && yielded::<N>(v, j) == woken(v)
            } else {
                !yielded::<N>(v, j).notified && yielded::<N>(v, j) == (KernelView {
                    next: (v.next + (d - v.now)) as nat,
                    now: d,
                    ..v
                })
            }
        }),
{
    assert(yielded::<N>(v, 0) == v);
    if yielded::<N>(v, j).notified {
        lemma_first_wake::<N>(v, j);
        lemma_woken::<N>(v, j);
        let p = (j - 1) as nat;
        assert forall|i: nat| i < p implies Kernel::<N>::yields_left(
            #[trigger] after_yields::<Kernel<N>>(v, i),
        ) > 0 by {
            assert(i < j);
        }
        assert forall|i: nat| i <= p implies !(#[trigger] yielded::<N>(v, i)).notified by {
            assert(i < j);
        }
        lemma_quiet::<N>(v, p);
        assert(!yielded::<N>(v, p).alarm_fired());
        let t = (v.next + j - 1) as nat;
        assert forall|i: nat| v.next <= i < t implies (#[trigger] v.events[i as int]) is Tick by {
            assert(v.events[v.next + (i - v.next) as nat as int] is Tick);
        }
        lemma_first_frame(v.events, v.next, t);
    } else {
        assert forall|i: nat| i <= j implies !(#[trigger] yielded::<N>(v, i)).notified by {}
        lemma_quiet::<N>(v, j);
        if j > 0 {
            let p = (j - 1) as nat;
            assert forall|i: nat| i < p implies Kernel::<N>::yields_left(
                #[trigger] after_yields::<Kernel<N>>(v, i),
            ) > 0 by {
                assert(i < j);
            }
            assert forall|i: nat| i <= p implies !(#[trigger] yielded::<N>(v, i)).notified by {
                assert(i < j);
            }
            lemma_quiet::<N>(v, p);
            assert(!yielded::<N>(v, p).alarm_fired());
            assert(Kernel::<N>::yields_left(after_yields::<Kernel<N>>(v, p)) > 0);
        }
        assert(j == d - v.now);
        lemma_first_frame_after_ticks(v.events, v.next, j);
    }
}

/// The kernel side of the call interface, as an explicit state machine: the
/// radio driver's receive buffer slot and notification, the alarm, and the
/// events that it handles while the application yields.
pub struct Kernel<const N: usize> {
    present: bool,
    allow_error: Option<ErrorCode>,
    rx_slot: Option<RxRingBuffer<N>>,
    subscribed: bool,
    rx_active: bool,
    notified: bool,
    events: Vec<KernelEvent>,
    next: usize,
    now: usize,
    alarm: Option<usize>,
    landed: Ghost<Seq<Frame>>,
    overflows: Ghost<nat>,
}

/// The view of a lent buffer.
pub open spec fn lent_view<const N: usize>(b: Option<RxRingBuffer<N>>) -> Option<RingView> {
    match b {
        Some(b) => Some(b@),
        None => None,
    }
}

impl<const N: usize> View for Kernel<N> {
    type V = KernelView;

    closed spec fn view(&self) -> KernelView {
        KernelView {
            present: self.present,
            allow_error: self.allow_error,
            lent: lent_view(self.rx_slot),
            subscribed: self.subscribed,
            receiving: self.rx_active,
            notified: self.notified,
            events: self.events@,
            next: self.next as nat,
            now: self.now as nat,
            alarm: match self.alarm {
                Some(d) => Some(d as nat),
                None => None,
            },
            landed: self.landed@,
            overflows: self.overflows@,
        }
    }
}

/// The kernel state is consistent for buffers of capacity `N`.
pub open spec fn kernel_wf<const N: usize>(v: KernelView) -> bool {
    &&& 1 <= N <= 255
    &&& v.now <= v.next <= v.events.len() <= usize::MAX
    &&& !v.present ==> !v.receiving
    &&& match v.lent {
        Some(b) => b.wf() && b.slots.len() == N,
        None => true,
    }
    &&& match v.alarm {
        Some(d) => d <= usize::MAX,
        None => true,
    }
}

impl<const N: usize> Kernel<N> {
    pub open spec fn wf(&self) -> bool {
        kernel_wf::<N>(self@)
    }


    /// A kernel whose radio driver is present, with nothing lent or subscribed,
    /// that handles `events` while the application yields.
    pub fn new(events: Vec<KernelEvent>) -> (k: Self)
        requires
            1 <= N <= 255,
        ensures
            k.wf(),
            k@ == (KernelView {
                present: true,
                allow_error: None,
                lent: None,
                subscribed: false,
                receiving: false,
                notified: false,
                events: events@,
                next: 0,
                now: 0,
                alarm: None,
                landed: Seq::empty(),
                overflows: 0,
            }),
    {
        proof {
            assert(events@.len() == events.len());
        }
        Kernel {
            present: true,
            allow_error: None,
            rx_slot: None,
            subscribed: false,
            rx_active: false,
            notified: false,
            events,
            next: 0,
            now: 0,
            alarm: None,
            landed: Ghost(Seq::empty()),
            overflows: Ghost(0),
        }
    }

    /// A kernel without the radio driver: every radio call fails.
    pub fn without_driver(events: Vec<KernelEvent>) -> (k: Self)
        requires
            1 <= N <= 255,
        ensures
            k.wf(),
            k@ == (KernelView {
                present: false,
                allow_error: None,
                lent: None,
                subscribed: false,
                receiving: false,
                notified: false,
                events: events@,
                next: 0,
                now: 0,
                alarm: None,
                landed: Seq::empty(),
                overflows: 0,
            }),
    {
        proof {
            assert(events@.len() == events.len());
        }
        Kernel {
            present: false,
            allow_error: None,
            rx_slot: None,
            subscribed: false,
            rx_active: false,
            notified: false,
            events,
            next: 0,
            now: 0,
            alarm: None,
            landed: Ghost(Seq::empty()),
            overflows: Ghost(0),
        }
    }

    /// Makes the next allow fail with `e`.
    pub fn fail_next_allow(&mut self, e: ErrorCode)
        requires
            old(self).wf(),
        ensures
            final(self).wf(),
            final(self)@ == (KernelView { allow_error: Some(e), ..old(self)@ }),
    {
        self.allow_error = Some(e);
    }

    /// Lends `buf` to the kernel at the receive slot, giving back the buffer
    /// lent there before. On failure nothing changes but the injected error
    /// being used up, and `buf` comes back with the error.
    pub fn allow_rw(&mut self, buf: RxRingBuffer<N>) -> (r: Result<
        Option<RxRingBuffer<N>>,
        (ErrorCode, RxRingBuffer<N>),
    >)
        requires
            old(self).wf(),
            buf.wf(),
        ensures
            final(self).wf(),
            !old(self)@.present ==> r == Err::<Option<RxRingBuffer<N>>, _>((ErrorCode::NoDevice, buf))
                && final(self)@ == old(self)@,
            old(self)@.present && old(self)@.allow_error is Some ==> r == Err::<
                Option<RxRingBuffer<N>>,
                _,
            >((old(self)@.allow_error->0, buf)) && final(self)@ == (KernelView {
                allow_error: None,
                ..old(self)@
            }),
            old(self)@.present && old(self)@.allow_error is None ==> r is Ok && lent_view(r->Ok_0)
                == old(self)@.lent && final(self)@ == old(self)@.with_lent(buf@),
            r matches Ok(Some(p)) ==> p.wf(),
    {
        if !self.present {
            return Err((ErrorCode::NoDevice, buf));
        }
        match self.allow_error {
            Some(e) => {
                self.allow_error = None;
                Err((e, buf))
            },
            None => {
                let prev = self.rx_slot.take();
                self.rx_slot = Some(buf);
                Ok(prev)
            },
        }
    }

    /// Lends `buf` at the receive slot in place of the buffer lent there, which
    /// comes back in `buf`. On failure nothing changes but the injected error
    /// being used up.
    pub fn exchange_rw(&mut self, buf: &mut RxRingBuffer<N>) -> (r: Result<(), ErrorCode>)
        requires
            old(self).wf(),
            old(buf).wf(),
            old(self)@.lent is Some,
        ensures
            final(self).wf(),
            final(buf).wf(),
            !old(self)@.present ==> r == Err::<(), ErrorCode>(ErrorCode::NoDevice) && final(self)@
                == old(self)@ && *final(buf) == *old(buf),
            old(self)@.present && old(self)@.allow_error is Some ==> r == Err::<(), ErrorCode>(
                old(self)@.allow_error->0,
            ) && final(self)@ == (KernelView { allow_error: None, ..old(self)@ }) && *final(buf)
                == *old(buf),
            old(self)@.present && old(self)@.allow_error is None ==> r is Ok && Some(final(buf)@)
                == old(self)@.lent && final(self)@ == old(self)@.with_lent(old(buf)@),
    {
        if !self.present {
            return Err(ErrorCode::NoDevice);
        }
        match self.allow_error {
            Some(e) => {
                self.allow_error = None;
                Err(e)
            },
            None => {
                match self.rx_slot.take() {
                    Some(mut b) => {
                        core::mem::swap(&mut b, buf);
                        self.rx_slot = Some(b);
                    },
                    None => {},
                }
                Ok(())
            },
        }
    }

    /// Revokes the lending at the receive slot and gives the buffer back.
    /// Reception must be stopped first, or the kernel could go on writing
    /// into memory the application has taken back.
    pub fn unallow_rw(&mut self) -> (r: Option<RxRingBuffer<N>>)
        requires
            old(self).wf(),
            !old(self)@.receiving,
        ensures
            final(self).wf(),
            lent_view(r) == old(self)@.lent,
            final(self)@ == old(self)@.without_lent(),
            r matches Some(p) ==> p.wf(),
    {
        self.rx_slot.take()
    }

    /// Subscribes to the frame-received notification, with none fired yet.
    pub fn subscribe(&mut self) -> (r: Result<(), ErrorCode>)
        requires
            old(self).wf(),
        ensures
            final(self).wf(),
            old(self)@.present ==> r is Ok && final(self)@ == (KernelView {
                subscribed: true,
                notified: false,
                ..old(self)@
            }),
            !old(self)@.present ==> r == Err::<(), ErrorCode>(ErrorCode::NoDevice) && final(self)@
                == old(self)@,
    {
        if !self.present {
            return Err(ErrorCode::NoDevice);
        }
        self.subscribed = true;
        self.notified = false;
        Ok(())
    }

    /// Starts continuous reception into the lent buffer.
    pub fn start_rx(&mut self) -> (r: Result<(), ErrorCode>)
        requires
            old(self).wf(),
        ensures
            final(self).wf(),
            old(self)@.present ==> r is Ok && final(self)@ == (KernelView {
                receiving: true,
                ..old(self)@
            }),
            !old(self)@.present ==> r == Err::<(), ErrorCode>(ErrorCode::NoDevice) && final(self)@
                == old(self)@,
    {
        if !self.present {
            return Err(ErrorCode::NoDevice);
        }
        self.rx_active = true;
        Ok(())
    }

    /// Aborts reception: the kernel stops writing into the lent buffer.
    pub fn abort_rx(&mut self) -> (r: Result<(), ErrorCode>)
        requires
            old(self).wf(),
        ensures
            final(self).wf(),
            final(self)@ == (KernelView { receiving: false, ..old(self)@ }),
            r is Ok <==> old(self)@.present,
            r is Err ==> r == Err::<(), ErrorCode>(ErrorCode::NoDevice),
    {
        if !self.present {
            return Err(ErrorCode::NoDevice);
        }
        self.rx_active = false;
        Ok(())
    }

    /// Whether reception is started.
    pub fn is_receiving(&self) -> (r: bool)
        ensures
            r == self@.receiving,
    {
        self.rx_active
    }

    /// Drops the frame-received subscription.
    pub fn unsubscribe(&mut self)
        requires
            old(self).wf(),
        ensures
            final(self).wf(),
            final(self)@ == (KernelView { subscribed: false, notified: false, ..old(self)@ }),
    {
        self.subscribed = false;
        self.notified = false;
    }

    /// Whether the frame-received notification fired since the subscription.
    pub fn is_notified(&self) -> (r: bool)
        ensures
            r == self@.notified,
    {
        self.notified
    }

    /// The kernel receives `f` from the radio.
    pub fn deliver_frame(&mut self, f: Frame)
        requires
            old(self).wf(),
        ensures
            final(self).wf(),
            final(self)@ == old(self)@.delivered(f),
    {
        match self.rx_slot.take() {
            Some(mut b) => {
                proof {
                    self.landed@ = self.landed@.push(f);
                    if b@.count() + 1 >= N {
                        self.overflows@ = self.overflows@ + 1;
                    }
                }
                b.push_frame(f);
                self.rx_slot = Some(b);
                if self.subscribed {
                    self.notified = true;
                }
            },
            None => {},
        }
    }

    /// Sets the alarm to fire `ticks` ticks from now (at the last tick there is,
    /// if that lies further).
    pub fn set_alarm(&mut self, ticks: usize)
        requires
            old(self).wf(),
        ensures
            final(self).wf(),
            final(self)@ == (KernelView {
                alarm: Some(alarm_deadline(old(self)@.now, ticks as nat)),
                ..old(self)@
            }),
    {
        self.alarm = Some(self.now.saturating_add(ticks));
    }

    /// Whether the alarm fired.
    pub fn alarm_fired(&self) -> (r: bool)
        ensures
            r == self@.alarm_fired(),
    {
        match self.alarm {
            Some(d) => self.now >= d,
            None => false,
        }
    }

    /// The alarm clock, in ticks.
    pub fn now(&self) -> (r: usize)
        ensures
            r == self@.now,
    {
        self.now
    }

    /// How many events are left for the kernel to handle.
    pub fn events_left(&self) -> (r: usize)
        requires
            self.wf(),
        ensures
            r == self@.events.len() - self@.next,
    {
        self.events.len() - self.next
    }
}

impl<const N: usize> Syscalls for Kernel<N> {
    open spec fn sys_wf(v: KernelView) -> bool {
        kernel_wf::<N>(v)
    }

    open spec fn yields_left(v: KernelView) -> nat {
        if v.next < v.events.len() {
            (v.events.len() - v.next) as nat
        } else {
            0
        }
    }

    open spec fn after_yield(v: KernelView) -> KernelView {
        v.stepped()
    }

    /// Handles the next event.
    fn yield_wait(&mut self) {
        let len = self.events.len();
        assert(self.next < len);
        let ev = self.events[self.next];
        self.next = self.next + 1;
        match ev {
            KernelEvent::FrameReceived(f) => self.deliver_frame(f),
            KernelEvent::Tick => {
                self.now = self.now + 1;
            },
        }
    }
}

} // verus!
