use vstd::prelude::*;
use core::marker::PhantomData;
use crate::kernel::{Syscalls, after_yields, can_yield};

verus! {

/// A value that is pending or resolved, awaited over the cooperative yield of `S`.
///
/// `resolved` is what `check_resolved` answers in a state, `completable` the
/// states from which awaiting returns, and `completes` relates the states before
/// and after awaiting to the output.
pub trait TockFuture<S: Syscalls>: Sized {
    type Output;

    spec fn resolved(&self, v: S::V) -> bool;

    spec fn completable(&self, v: S::V) -> bool;

    spec fn completes(&self, v0: S::V, v1: S::V, out: Self::Output) -> bool;

    /// A resolved value can be awaited, and awaiting it takes no yield and
    /// changes nothing.
    proof fn lemma_resolved_completes(&self, v: S::V)
        requires
            self.resolved(v),
        ensures
            self.completable(v),
            forall|v1: S::V, out: Self::Output| #[trigger] self.completes(v, v1, out) ==> v1 == v,
    ;

    /// Polls without blocking.
    fn check_resolved(&self, s: &S) -> (r: bool)
        ensures
            r == self.resolved(s@),
    ;

    /// Yields until resolved and returns the output.
    fn await_completion(self, s: &mut S) -> (out: Self::Output)
        requires
            S::sys_wf(old(s)@),
            self.completable(old(s)@),
        ensures
            S::sys_wf(final(s)@),
            self.completes(old(s)@, final(s)@, out),
    ;

    /// Resolves when either `self` or `other` does, `self` first on a tie.
    fn select<Other>(self, other: Other) -> (r: Select<Self, Other>)
        ensures
            r.fut1 == self,
            r.fut2 == other,
    {
        Select { fut1: self, fut2: other }
    }

    /// Resolves when both `self` and `other` do, with both outputs.
    fn join<Other>(self, other: Other) -> (r: Join<Self, Other>)
        ensures
            r.fut1 == self,
            r.fut2 == other,
    {
        Join { fut1: self, fut2: other }
    }
}

/// The output of a [`Select`]: which side resolved first, with its output.
#[derive(Debug)]
pub enum SelectOutput<Output1, Output2> {
    Left(Output1),
    Right(Output2),
}

/// Waits for the first of two futures.
pub struct Select<Fut1, Fut2> {
    pub fut1: Fut1,
    pub fut2: Fut2,
}

impl<S: Syscalls, Fut1: TockFuture<S>, Fut2: TockFuture<S>> TockFuture<S> for Select<Fut1, Fut2> {
    type Output = SelectOutput<Fut1::Output, Fut2::Output>;

    open spec fn resolved(&self, v: S::V) -> bool {
        self.fut1.resolved(v) || self.fut2.resolved(v)
    }

    /// Some number of yields that all return leads to a state where one side
    /// is resolved.
    open spec fn completable(&self, v: S::V) -> bool {
        exists|j: nat|
            can_yield::<S>(v, j) && #[trigger] self.resolved(after_yields::<S>(v, j))
    }

    /// After `j` yields, the first state where a side is resolved, the left side
    /// is awaited if it is resolved, else the right one.
    open spec fn completes(&self, v0: S::V, v1: S::V, out: Self::Output) -> bool {
        exists|j: nat|
            {
                &&& can_yield::<S>(v0, j)
                &&& forall|i: nat| i < j ==> !self.resolved(#[trigger] after_yields::<S>(v0, i))
                &&& #[trigger] select_completes_at::<S, Fut1, Fut2>(*self, after_yields::<S>(v0, j), v1, out)
            }
    }

    proof fn lemma_resolved_completes(&self, v: S::V) {
        assert(after_yields::<S>(v, 0) == v);
        assert(self.resolved(after_yields::<S>(v, 0)));
        assert forall|v1: S::V, out: Self::Output| #[trigger] self.completes(v, v1, out) implies v1 == v by {
            let j = choose|j: nat|
                {
                    &&& can_yield::<S>(v, j)
                    &&& forall|i: nat| i < j ==> !self.resolved(#[trigger] after_yields::<S>(v, i))
                    &&& #[trigger] select_completes_at::<S, Fut1, Fut2>(*self, after_yields::<S>(v, j), v1, out)
                };
            if j > 0 {
                assert(!self.resolved(after_yields::<S>(v, 0)));
            }
            match out {
                SelectOutput::Left(o) => self.fut1.lemma_resolved_completes(v),
                SelectOutput::Right(o) => self.fut2.lemma_resolved_completes(v),
            }
        }
    }

    fn check_resolved(&self, s: &S) -> (r: bool) {
        self.fut1.check_resolved(s) || self.fut2.check_resolved(s)
    }

    /// Each cycle polls the left side, then the right one, then yields.
    fn await_completion(self, s: &mut S) -> (out: Self::Output) {
        let ghost v0 = s@;
        let ghost this = self;
        let ghost mut k: nat = 0;
        loop
            invariant
                this == self,
                v0 == old(s)@,
                S::sys_wf(s@),
                s@ == after_yields::<S>(v0, k),
                can_yield::<S>(v0, k),
                forall|i: nat| i < k ==> !self.resolved(#[trigger] after_yields::<S>(v0, i)),
                exists|j: nat|
                    k <= j && can_yield::<S>(v0, j) && #[trigger] self.resolved(
                        after_yields::<S>(v0, j),
                    ),
            decreases S::yields_left(s@),
        {
            if self.fut1.check_resolved(s) {
                proof {
                    self.fut1.lemma_resolved_completes(s@);
                }
                let o = self.fut1.await_completion(s);
                assert(select_completes_at::<S, Fut1, Fut2>(this, after_yields::<S>(v0, k), s@, SelectOutput::Left(o)));
                assert(this.completes(v0, s@, SelectOutput::Left(o)));
                let out = SelectOutput::Left(o);
                assert(this.completes(v0, s@, out));
                return out;
            } else if self.fut2.check_resolved(s) {
                proof {
                    self.fut2.lemma_resolved_completes(s@);
                }
                let o = self.fut2.await_completion(s);
                assert(select_completes_at::<S, Fut1, Fut2>(this, after_yields::<S>(v0, k), s@, SelectOutput::Right(o)));
                let out = SelectOutput::Right(o);
                assert(this.completes(v0, s@, out));
                return out;
            }
            proof {
                let j = choose|j: nat|
                    k <= j && can_yield::<S>(v0, j) && #[trigger] self.resolved(
                        after_yields::<S>(v0, j),
                    );
                assert(j != k);
                assert(S::yields_left(after_yields::<S>(v0, k)) > 0);
            }
            s.yield_wait();
            proof {
                assert(after_yields::<S>(v0, k + 1) == S::after_yield(after_yields::<S>(v0, k)));
                assert forall|i: nat| i < k + 1 implies S::yields_left(
                    #[trigger] after_yields::<S>(v0, i),
                ) > 0 by {
                    if i < k {
                    }
                }
                k = k + 1;
            }
        }
    }
}

/// Awaiting `sel` from `v`, a state where a side is resolved, ends in `v1`
/// with `out`: the left side wins when it is resolved.
pub open spec fn select_completes_at<S: Syscalls, Fut1: TockFuture<S>, Fut2: TockFuture<S>>(
    sel: Select<Fut1, Fut2>,
    v: S::V,
    v1: S::V,
    out: SelectOutput<Fut1::Output, Fut2::Output>,
) -> bool {
    match out {
        SelectOutput::Left(o) => sel.fut1.resolved(v) && sel.fut1.completes(v, v1, o),
        SelectOutput::Right(o) => !sel.fut1.resolved(v) && sel.fut2.resolved(v)
            && sel.fut2.completes(v, v1, o),
    }
}

/// Waits for two futures, the first one first.
pub struct Join<Fut1, Fut2> {
    pub fut1: Fut1,
    pub fut2: Fut2,
}

impl<S: Syscalls, Fut1: TockFuture<S>, Fut2: TockFuture<S>> TockFuture<S> for Join<Fut1, Fut2> {
    type Output = (Fut1::Output, Fut2::Output);

    open spec fn resolved(&self, v: S::V) -> bool {
        self.fut1.resolved(v) && self.fut2.resolved(v)
    }

    /// The first side can be awaited, and so can the second one wherever that ends.
    open spec fn completable(&self, v: S::V) -> bool {
        &&& self.fut1.completable(v)
        &&& forall|vm: S::V, o1: Fut1::Output|
            S::sys_wf(vm) && #[trigger] self.fut1.completes(v, vm, o1) ==> self.fut2.completable(vm)
    }

    open spec fn completes(&self, v0: S::V, v1: S::V, out: Self::Output) -> bool {
        exists|vm: S::V|
            #[trigger] self.fut1.completes(v0, vm, out.0) && self.fut2.completes(vm, v1, out.1)
    }

    proof fn lemma_resolved_completes(&self, v: S::V) {
        self.fut1.lemma_resolved_completes(v);
        self.fut2.lemma_resolved_completes(v);
    }

    fn check_resolved(&self, s: &S) -> (r: bool) {
        self.fut1.check_resolved(s) && self.fut2.check_resolved(s)
    }

    /// Awaits the first side, then the second one.
    fn await_completion(self, s: &mut S) -> (out: Self::Output) {
        let ghost v0 = s@;
        let o1 = self.fut1.await_completion(s);
        let ghost vm = s@;
        let o2 = self.fut2.await_completion(s);
        assert(self.fut1.completes(v0, vm, (o1, o2).0));
        (o1, o2)
    }
}

/// A future that is resolved from the start.
pub struct ReadyFuture<T>(T);

impl<T> ReadyFuture<T> {
    /// The value it resolves to.
    pub closed spec fn value(&self) -> T {
        self.0
    }

    pub fn new(t: T) -> (r: Self)
        ensures
            r.value() == t,
    {
        ReadyFuture(t)
    }
}

impl<S: Syscalls, T> TockFuture<S> for ReadyFuture<T> {
    type Output = T;

    open spec fn resolved(&self, v: S::V) -> bool {
        true
    }

    open spec fn completable(&self, v: S::V) -> bool {
        true
    }

    /// The value, with no yield.
    open spec fn completes(&self, v0: S::V, v1: S::V, out: T) -> bool {
        v1 == v0 && out == self.value()
    }

    proof fn lemma_resolved_completes(&self, v: S::V) {
    }

    fn check_resolved(&self, s: &S) -> (r: bool) {
        true
    }

    fn await_completion(self, s: &mut S) -> (out: T) {
        self.0
    }
}

/// A future that never resolves: only ever the losing side of a [`Select`].
pub struct PendingFuture<T>(PhantomData<T>);

impl<T> PendingFuture<T> {
    pub fn new() -> (r: Self) {
        PendingFuture(PhantomData)
    }
}

impl<S: Syscalls, T> TockFuture<S> for PendingFuture<T> {
    type Output = T;

    open spec fn resolved(&self, v: S::V) -> bool {
        false
    }

    /// Awaiting it would never return.
    open spec fn completable(&self, v: S::V) -> bool {
        false
    }

    open spec fn completes(&self, v0: S::V, v1: S::V, out: T) -> bool {
        false
    }

    proof fn lemma_resolved_completes(&self, v: S::V) {
    }

    fn check_resolved(&self, s: &S) -> (r: bool) {
        false
    }

    fn await_completion(self, s: &mut S) -> (out: T) {
        vstd::pervasive::unreached()
    }
}

/// Selecting between a resolved future and one that never resolves can be
/// awaited, takes no yield, and gives the left side's value.
pub proof fn lemma_select_ready_pending<S: Syscalls, T, U>(
    sel: Select<ReadyFuture<T>, PendingFuture<U>>,
    v0: S::V,
    v1: S::V,
    out: SelectOutput<T, U>,
)
    ensures
        <Select<ReadyFuture<T>, PendingFuture<U>> as TockFuture<S>>::completable(&sel, v0),
        <Select<ReadyFuture<T>, PendingFuture<U>> as TockFuture<S>>::completes(&sel, v0, v1, out)
            ==> v1 == v0 && out == SelectOutput::<T, U>::Left(sel.fut1.value()),
{
    <Select<ReadyFuture<T>, PendingFuture<U>> as TockFuture<S>>::lemma_resolved_completes(&sel, v0);
    if <Select<ReadyFuture<T>, PendingFuture<U>> as TockFuture<S>>::completes(&sel, v0, v1, out) {
        let j = choose|j: nat|
            {
                &&& can_yield::<S>(v0, j)
                &&& forall|i: nat| i < j ==> !<Select<ReadyFuture<T>, PendingFuture<U>> as TockFuture<S>>::resolved(&sel, #[trigger] after_yields::<S>(v0, i))
                &&& #[trigger] select_completes_at::<S, ReadyFuture<T>, PendingFuture<U>>(sel, after_yields::<S>(v0, j), v1, out)
            };
        assert(after_yields::<S>(v0, 0) == v0);
    }
}

/// Selecting between a future that never resolves and a resolved one can be
/// awaited, takes no yield, and gives the right side's value.
pub proof fn lemma_select_pending_ready<S: Syscalls, T, U>(
    sel: Select<PendingFuture<T>, ReadyFuture<U>>,
    v0: S::V,
    v1: S::V,
    out: SelectOutput<T, U>,
)
    ensures
        <Select<PendingFuture<T>, ReadyFuture<U>> as TockFuture<S>>::completable(&sel, v0),
        <Select<PendingFuture<T>, ReadyFuture<U>> as TockFuture<S>>::completes(&sel, v0, v1, out)
            ==> v1 == v0 && out == SelectOutput::<T, U>::Right(sel.fut2.value()),
{
    <Select<PendingFuture<T>, ReadyFuture<U>> as TockFuture<S>>::lemma_resolved_completes(&sel, v0);
    if <Select<PendingFuture<T>, ReadyFuture<U>> as TockFuture<S>>::completes(&sel, v0, v1, out) {
        let j = choose|j: nat|
            {
                &&& can_yield::<S>(v0, j)
                &&& forall|i: nat| i < j ==> !<Select<PendingFuture<T>, ReadyFuture<U>> as TockFuture<S>>::resolved(&sel, #[trigger] after_yields::<S>(v0, i))
                &&& #[trigger] select_completes_at::<S, PendingFuture<T>, ReadyFuture<U>>(sel, after_yields::<S>(v0, j), v1, out)
            };
        assert(after_yields::<S>(v0, 0) == v0);
    }
}

/// Joining two resolved futures can be awaited, takes no yield, and gives the
/// pair of their values.
pub proof fn lemma_join_ready<S: Syscalls, T, U>(
    join: Join<ReadyFuture<T>, ReadyFuture<U>>,
    v0: S::V,
    v1: S::V,
    out: (T, U),
)
    ensures
        <Join<ReadyFuture<T>, ReadyFuture<U>> as TockFuture<S>>::completable(&join, v0),
        <Join<ReadyFuture<T>, ReadyFuture<U>> as TockFuture<S>>::completes(&join, v0, v1, out)
            ==> v1 == v0 && out == (join.fut1.value(), join.fut2.value()),
{
}

} // verus!
