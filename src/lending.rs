use vstd::prelude::*;
use crate::error::ErrorCode;
use crate::frame::{FRAME_WIRE_SIZE, Frame};
use crate::kernel::{Kernel, KernelView, lent_view};
use crate::ring::RxRingBuffer;

verus! {

/// Where a lent buffer stands.
#[derive(Clone, Copy, Debug, PartialEq, Eq, Structural)]
pub enum LendState {
    /// The application holds the buffer and may read and write it.
    Owned,
    /// The kernel may write the buffer; the application must not touch it.
    LentInFlight,
    /// Released after a failed reshare: every further operation fails.
    Closed,
}

/// A ring buffer shared with the kernel at the receive slot, which the
/// application can take back for a moment to inspect it.
pub struct AllowedBuf<const N: usize> {
    state: LendState,
    /// The buffer, while the application holds it.
    held: Option<RxRingBuffer<N>>,
}

impl<const N: usize> AllowedBuf<N> {
    pub closed spec fn state(&self) -> LendState {
        self.state
    }

    /// The buffer the application holds, if any.
    pub closed spec fn held(&self) -> Option<RxRingBuffer<N>> {
        self.held
    }

    /// Consistent with the kernel `k`: a buffer lent in flight sits in the
    /// kernel's slot; otherwise the handle holds it.
    pub open spec fn consistent(&self, k: KernelView) -> bool {
        match self.state() {
            LendState::LentInFlight => k.lent is Some && self.held() is None,
            _ => self.held() matches Some(b) && b.wf(),
        }
    }

    /// Where the buffer stands.
    pub fn lend_state(&self) -> (r: LendState)
        ensures
            r == self.state(),
    {
        self.state
    }

    /// Shares `buf` with the kernel. On failure `buf` comes back with the error.
    pub fn share(k: &mut Kernel<N>, buf: RxRingBuffer<N>) -> (r: Result<
        Self,
        (ErrorCode, RxRingBuffer<N>),
    >)
        requires
            old(k).wf(),
            old(k)@.lent is None,
            buf.wf(),
        ensures
            final(k).wf(),
            match r {
                Ok(h) => {
                    &&& h.state() == LendState::LentInFlight
                    &&& h.consistent(final(k)@)
                    &&& final(k)@ == old(k)@.with_lent(buf@)
                    &&& old(k)@.present && old(k)@.allow_error is None
                },
                Err((e, b)) => {
                    &&& b == buf
                    &&& !old(k)@.present ==> e == ErrorCode::NoDevice && final(k)@ == old(k)@
                    &&& old(k)@.present ==> old(k)@.allow_error == Some(e) && final(k)@ == (
                    KernelView { allow_error: None, ..old(k)@ })
                },
            },
    {
        match k.allow_rw(buf) {
            Ok(_) => Ok(AllowedBuf { state: LendState::LentInFlight, held: None }),
            Err(e) => Err(e),
        }
    }

    /// Size in bytes of the shared region: the two indices and `N` frame slots.
    pub fn len(&self) -> (r: usize)
        requires
            1 <= N <= 255,
        ensures
            r == 2 + N * FRAME_WIRE_SIZE,
    {
        2 + N * FRAME_WIRE_SIZE
    }

    /// Takes the buffer back from the kernel, whose reception must be stopped.
    pub fn revoke(&mut self, k: &mut Kernel<N>)
        requires
            old(k).wf(),
            !old(k)@.receiving,
            old(self).consistent(old(k)@),
            old(self).state() == LendState::LentInFlight,
        ensures
            final(k).wf(),
            final(self).state() == LendState::Owned,
            final(self).consistent(final(k)@),
            lent_view(final(self).held()) == old(k)@.lent,
            final(k)@ == old(k)@.without_lent(),
    {
        let b = k.unallow_rw();
        self.held = b;
        self.state = LendState::Owned;
    }

    /// Shares the held buffer with the kernel again. If that fails the handle
    /// is closed, keeping the buffer.
    pub fn reshare(&mut self, k: &mut Kernel<N>) -> (r: Result<(), ErrorCode>)
        requires
            old(k).wf(),
            old(k)@.lent is None,
            old(self).consistent(old(k)@),
            old(self).state() == LendState::Owned,
        ensures
            final(k).wf(),
            final(self).consistent(final(k)@),
            r is Ok <==> old(k)@.present && old(k)@.allow_error is None,
            r is Ok ==> final(self).state() == LendState::LentInFlight && final(k)@ == old(
                k,
            )@.with_lent(old(self).held()->0@),
            r is Err ==> final(self).state() == LendState::Closed && final(self).held() == old(
                self,
            ).held(),
            !old(k)@.present ==> r == Err::<(), ErrorCode>(ErrorCode::NoDevice) && final(k)@ == old(
                k,
            )@,
            old(k)@.present && old(k)@.allow_error is Some ==> r == Err::<(), ErrorCode>(
                old(k)@.allow_error->0,
            ) && final(k)@ == (KernelView { allow_error: None, ..old(k)@ }),
    {
        let b = self.held.take().unwrap();
        match k.allow_rw(b) {
            Ok(_) => {
                self.state = LendState::LentInFlight;
                Ok(())
            },
            Err((e, b)) => {
                self.held = Some(b);
                self.state = LendState::Closed;
                Err(e)
            },
        }
    }

    /// Hands out every unread frame of the held buffer, oldest first, at the
    /// end of `out`.
    pub fn take_frames(&mut self, out: &mut Vec<Frame>)
        requires
            old(self).state() == LendState::Owned,
            old(self).held() matches Some(b) && b.wf(),
        ensures
            final(self).state() == LendState::Owned,
            final(self).held() matches Some(b) && b.wf() && b.pending().len() == 0,
            final(out)@ == old(out)@ + old(self).held()->0.pending(),
    {
        let mut b = self.held.take().unwrap();
        b.drain_into(out);
        self.held = Some(b);
    }

    /// Takes the buffer back, lets `f` work on it with exclusive access, and
    /// shares what `f` returns again at once. A closed handle fails with
    /// `Fail` and calls nothing; a failed reshare closes the handle.
    pub fn inspect<F: FnOnce(RxRingBuffer<N>) -> RxRingBuffer<N>>(
        &mut self,
        k: &mut Kernel<N>,
        f: F,
    ) -> (r: Result<(), ErrorCode>)
        requires
            old(k).wf(),
            old(self).consistent(old(k)@),
            old(self).state() != LendState::LentInFlight ==> old(k)@.lent is None,
            !old(k)@.receiving,
            forall|b: RxRingBuffer<N>| b.wf() ==> #[trigger] f.requires((b,)),
            forall|b: RxRingBuffer<N>, c: RxRingBuffer<N>| #[trigger] f.ensures((b,), c) ==> c.wf(),
        ensures
            final(k).wf(),
            final(self).consistent(final(k)@),
            old(self).state() == LendState::Closed ==> r == Err::<(), ErrorCode>(ErrorCode::Fail)
                && *final(self) == *old(self) && final(k)@ == old(k)@,
            old(self).state() != LendState::Closed ==> {
                &&& r is Ok <==> old(k)@.present && old(k)@.allow_error is None
                &&& exists|b: RxRingBuffer<N>, c: RxRingBuffer<N>|
                    {
                        &&& #[trigger] f.ensures((b,), c)
                        &&& old(self).state() == LendState::LentInFlight ==> old(k)@.lent == Some(b@)
                        &&& old(self).state() == LendState::Owned ==> old(self).held() == Some(b)
                        &&& r is Ok ==> final(self).state() == LendState::LentInFlight
                            && final(k)@ == old(k)@.with_lent(c@)
                        &&& r is Err ==> final(self).state() == LendState::Closed
                            && final(self).held() == Some(c)
                    }
                &&& !old(k)@.present ==> r == Err::<(), ErrorCode>(ErrorCode::NoDevice)
                    && final(k)@ == old(k)@.without_lent()
                &&& old(k)@.present && old(k)@.allow_error is Some ==> r == Err::<(), ErrorCode>(
                    old(k)@.allow_error->0,
                ) && final(k)@ == (KernelView { allow_error: None, ..old(k)@.without_lent() })
            },
    {
        if self.state == LendState::Closed {
            return Err(ErrorCode::Fail);
        }
        if self.state == LendState::LentInFlight {
            self.revoke(k);
        }
        let b = self.held.take().unwrap();
        let ghost before = b;
        let c = f(b);
        self.held = Some(c);
        let r = self.reshare(k);
        assert(f.ensures((before,), c));
        r
    }

    /// Revokes the sharing whatever the state and gives the buffer back.
    /// Reception must be stopped first.
    pub fn release(self, k: &mut Kernel<N>) -> (r: RxRingBuffer<N>)
        requires
            old(k).wf(),
            !old(k)@.receiving,
            self.consistent(old(k)@),
        ensures
            final(k).wf(),
            r.wf(),
            self.state() == LendState::LentInFlight ==> Some(r@) == old(k)@.lent && final(k)@
                == old(k)@.without_lent(),
            self.state() != LendState::LentInFlight ==> Some(r) == self.held() && final(k)@
                == old(k)@,
    {
        match self.held {
            Some(b) => b,
            None => k.unallow_rw().unwrap(),
        }
    }
}

/// The lent half of a pair of alternating ring buffers: the buffer sits in the
/// kernel's receive slot for as long as this handle lives.
pub struct RxRingBufferInKernel<const N: usize> {}

impl<const N: usize> RxRingBufferInKernel<N> {
    /// A handle for the buffer in the kernel's receive slot.
    pub fn new() -> (r: Self) {
        RxRingBufferInKernel {}
    }

    /// Shares `buf` with the kernel as the first lent buffer. On failure `buf`
    /// comes back with the error.
    pub fn share_initial(k: &mut Kernel<N>, buf: RxRingBuffer<N>) -> (r: Result<
        Self,
        (ErrorCode, RxRingBuffer<N>),
    >)
        requires
            old(k).wf(),
            old(k)@.lent is None,
            buf.wf(),
        ensures
            final(k).wf(),
            match r {
                Ok(_) => {
                    &&& final(k)@ == old(k)@.with_lent(buf@)
                    &&& old(k)@.present && old(k)@.allow_error is None
                },
                Err((e, b)) => {
                    &&& b == buf
                    &&& !old(k)@.present ==> e == ErrorCode::NoDevice && final(k)@ == old(k)@
                    &&& old(k)@.present ==> old(k)@.allow_error == Some(e) && final(k)@ == (
                    KernelView { allow_error: None, ..old(k)@ })
                },
            },
    {
        match k.allow_rw(buf) {
            Ok(_) => Ok(RxRingBufferInKernel::new()),
            Err(e) => Err(e),
        }
    }

    /// Lends `buf` to the kernel and takes back the buffer it held, in `buf`.
    /// On failure nothing changes but the injected error being used up.
    pub fn swap(&mut self, k: &mut Kernel<N>, buf: &mut RxRingBuffer<N>) -> (r: Result<
        (),
        ErrorCode,
    >)
        requires
            old(k).wf(),
            old(buf).wf(),
            old(k)@.lent is Some,
        ensures
            final(k).wf(),
            final(buf).wf(),
            r is Ok <==> old(k)@.present && old(k)@.allow_error is None,
            r is Ok ==> Some(final(buf)@) == old(k)@.lent && final(k)@ == old(k)@.with_lent(
                old(buf)@,
            ),
            !old(k)@.present ==> r == Err::<(), ErrorCode>(ErrorCode::NoDevice) && final(k)@ == old(
                k,
            )@ && *final(buf) == *old(buf),
            old(k)@.present && old(k)@.allow_error is Some ==> r == Err::<(), ErrorCode>(
                old(k)@.allow_error->0,
            ) && final(k)@ == (KernelView { allow_error: None, ..old(k)@ }) && *final(buf) == *old(
                buf,
            ),
    {
        k.exchange_rw(buf)
    }

    /// Revokes the sharing and gives the buffer back. Reception must be
    /// stopped first.
    pub fn release(self, k: &mut Kernel<N>) -> (r: RxRingBuffer<N>)
        requires
            old(k).wf(),
            !old(k)@.receiving,
            old(k)@.lent is Some,
        ensures
            final(k).wf(),
            r.wf(),
            Some(r@) == old(k)@.lent,
            final(k)@ == old(k)@.without_lent(),
    {
        k.unallow_rw().unwrap()
    }
}

} // verus!
