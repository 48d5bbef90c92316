use vstd::prelude::*;
use crate::frame::{FRAME_WIRE_SIZE, Frame, MAX_MTU};

verus! {

/// The queue of frames that results from the kernel writing `f` into a ring
/// buffer of capacity `cap` whose unread frames are `q`.
///
/// Empty and full cannot be told apart by the two indices, so at most `cap - 1`
/// frames are ever held: a write into a buffer holding `cap - 1` frames
/// overwrites the oldest one.
pub open spec fn after_write(q: Seq<Frame>, f: Frame, cap: nat) -> Seq<Frame> {
    if q.len() + 1 < cap {
        q.push(f)
    } else {
        q.push(f).drop_first()
    }
}

/// The queue that results from the kernel writing the frames `fs`, in order,
/// with no read in between.
pub open spec fn after_writes(q: Seq<Frame>, fs: Seq<Frame>, cap: nat) -> Seq<Frame>
    decreases fs.len(),
{
    if fs.len() == 0 {
        q
    } else {
        after_write(after_writes(q, fs.drop_last(), cap), fs.last(), cap)
    }
}

/// The frames written by a sequence of steps: `Some(f)` is the kernel writing
/// `f`, `None` the application popping one frame if there is one.
pub open spec fn written(steps: Seq<Option<Frame>>) -> Seq<Frame>
    decreases steps.len(),
{
    if steps.len() == 0 {
        Seq::empty()
    } else {
        match steps.last() {
            Some(f) => written(steps.drop_last()).push(f),
            None => written(steps.drop_last()),
        }
    }
}

/// Runs `steps` on an empty ring buffer of capacity `cap`: the frames the
/// application popped, in order, and the frames left unread.
pub open spec fn run_steps(steps: Seq<Option<Frame>>, cap: nat) -> (Seq<Frame>, Seq<Frame>)
    decreases steps.len(),
{
    if steps.len() == 0 {
        (Seq::empty(), Seq::empty())
    } else {
        let (popped, q) = run_steps(steps.drop_last(), cap);
        match steps.last() {
            Some(f) => (popped, after_write(q, f, cap)),
            None => if q.len() > 0 {
                (popped.push(q[0]), q.drop_first())
            } else {
                (popped, q)
            },
        }
    }
}

/// Any interleaving of at most `cap - 1` kernel writes with application pops
/// loses nothing and duplicates nothing: the frames popped, followed by those
/// still unread, are exactly the frames written, in write order.
pub proof fn lemma_fifo_within_capacity(steps: Seq<Option<Frame>>, cap: nat)
    requires
        cap >= 2,
        written(steps).len() <= cap - 1,
    ensures
        run_steps(steps, cap).0 + run_steps(steps, cap).1 == written(steps),
    decreases steps.len(),
{
    lemma_queue_bounded(steps, cap);
    if steps.len() > 0 {
        let prev = steps.drop_last();
        assert(written(prev).len() <= written(steps).len());
        lemma_fifo_within_capacity(prev, cap);
        lemma_queue_bounded(prev, cap);
        let (popped, q) = run_steps(prev, cap);
        match steps.last() {
            Some(f) => {
                assert(popped + q.push(f) =~= (popped + q).push(f));
            },
            None => {
                if q.len() > 0 {
                    assert(popped.push(q[0]) + q.drop_first() =~= popped + q);
                }
            },
        }
    }
}

/// The unread frames never outnumber the frames written.
proof fn lemma_queue_bounded(steps: Seq<Option<Frame>>, cap: nat)
    ensures
        run_steps(steps, cap).1.len() <= written(steps).len(),
    decreases steps.len(),
{
    if steps.len() > 0 {
        lemma_queue_bounded(steps.drop_last(), cap);
    }
}

/// `cap` writes into an empty buffer of capacity `cap` with no pop in between
/// silently lose the oldest frame: what is left is every frame but the first.
pub proof fn lemma_overwrite_when_full(fs: Seq<Frame>, cap: nat)
    requires
        cap >= 2,
        fs.len() == cap,
    ensures
        after_writes(Seq::empty(), fs, cap) == fs.drop_first(),
        after_writes(Seq::empty(), fs, cap).len() == cap - 1,
{
    lemma_writes_within_capacity(fs.drop_last(), cap);
    assert(fs.drop_last().push(fs.last()) =~= fs);
}

/// Fewer than `cap` writes into an empty buffer with no pop keep every frame.
pub proof fn lemma_writes_within_capacity(fs: Seq<Frame>, cap: nat)
    requires
        fs.len() < cap,
    ensures
        after_writes(Seq::empty(), fs, cap) == fs,
    decreases fs.len(),
{
    if fs.len() > 0 {
        lemma_writes_within_capacity(fs.drop_last(), cap);
        assert(fs.drop_last().push(fs.last()) =~= fs);
    }
}

/// The abstract state of a ring buffer: both indices and the slots, whose
/// number is the capacity.
pub ghost struct RingView {
    pub read: nat,
    pub write: nat,
    pub slots: Seq<Frame>,
}

/// Advances a ring index by one modulo `cap`.
pub open spec fn advance(i: nat, cap: nat) -> nat {
    if i + 1 == cap {
        0
    } else {
        i + 1
    }
}

impl RingView {
    /// The capacity fits the one-byte indices and both indices lie inside the slots.
    pub open spec fn wf(self) -> bool {
        &&& 1 <= self.slots.len() <= 255
        &&& self.read < self.slots.len()
        &&& self.write < self.slots.len()
    }

    /// Number of unread frames.
    pub open spec fn count(self) -> nat {
        if self.write >= self.read {
            (self.write - self.read) as nat
        } else {
            (self.write + self.slots.len() - self.read) as nat
        }
    }

    /// The slot that holds the `i`-th unread frame.
    pub open spec fn slot_of(self, i: int) -> int {
        if self.read + i < self.slots.len() {
            self.read + i
        } else {
            self.read + i - self.slots.len()
        }
    }

    /// The unread frames, oldest first.
    pub open spec fn pending(self) -> Seq<Frame> {
        Seq::new(self.count(), |i: int| self.slots[self.slot_of(i)])
    }

    /// The state after the application pops one frame.
    pub open spec fn popped(self) -> RingView {
        RingView { read: advance(self.read, self.slots.len()), ..self }
    }

    /// The state after the kernel writes `f`: it fills the slot at the write
    /// index and advances that index; when it meets the read index the buffer was
    /// full, and the read index moves on too, dropping the oldest frame.
    pub open spec fn pushed(self, f: Frame) -> RingView {
        let cap = self.slots.len();
        let w = advance(self.write, cap);
        RingView {
            read: if w == self.read { advance(self.read, cap) } else { self.read },
            write: w,
            slots: self.slots.update(self.write as int, f),
        }
    }

    pub proof fn lemma_popped(self)
        requires
            self.wf(),
            self.count() > 0,
        ensures
            self.popped().wf(),
            self.popped().pending() == self.pending().drop_first(),
            self.pending()[0] == self.slots[self.read as int],
    {
        assert(self.popped().pending() =~= self.pending().drop_first());
    }

    pub proof fn lemma_pushed(self, f: Frame)
        requires
            self.wf(),
        ensures
            self.pushed(f).wf(),
            self.pushed(f).pending() == after_write(self.pending(), f, self.slots.len()),
    {
        let q = self.pending();
        let after = self.pushed(f);
        let w = self.write as int;
        assert(self.slot_of(self.count() as int) == self.write);
        if q.len() + 1 < self.slots.len() {
            assert forall|i: int| 0 <= i < q.len() implies after.pending()[i] == q[i] by {
                assert(self.slot_of(i) != w);
            }
            assert(after.pending() =~= q.push(f));
        } else {
            assert forall|i: int| 0 <= i < q.len() implies after.pending()[i] == q.push(f)[i + 1] by {
                assert(after.slot_of(i) == self.slot_of(i + 1) || i + 1 == q.len());
            }
            assert(after.pending() =~= q.push(f).drop_first());
        }
    }
}

/// The bytes of a sequence of frame slots on the wire, one after the other.
pub open spec fn slots_wire(slots: Seq<Frame>) -> Seq<u8> {
    slots.map_values(|f: Frame| f.wire()).flatten()
}

/// The bytes of a ring buffer on the wire, as the kernel reads and writes
/// them: the read index, the write index, then every slot in order.
pub open spec fn ring_wire(v: RingView) -> Seq<u8> {
    seq![v.read as u8, v.write as u8] + slots_wire(v.slots)
}

/// The ring buffer shared with the kernel: the kernel produces frames, the
/// application consumes them.
///
/// `N` is the capacity in frames. Because an empty buffer cannot be told apart
/// from a full one, at most `N - 1` slots hold unread frames; size `N` as the
/// largest expected burst plus one.
#[derive(Debug)]
pub struct RxRingBuffer<const N: usize> {
    /// Where the next frame will be read by the application.
    read_index: u8,
    /// Where the next frame will be written by the kernel.
    write_index: u8,
    /// Slots for received frames.
    frames: [Frame; N],
}

impl<const N: usize> View for RxRingBuffer<N> {
    type V = RingView;

    closed spec fn view(&self) -> RingView {
        RingView { read: self.read_index as nat, write: self.write_index as nat, slots: self.frames@ }
    }
}

impl<const N: usize> RxRingBuffer<N> {
    /// The indices are consistent and the slots number `N`.
    pub open spec fn wf(&self) -> bool {
        &&& self@.wf()
        &&& self@.slots.len() == N
    }

    /// The unread frames, oldest first.
    pub open spec fn pending(&self) -> Seq<Frame> {
        self@.pending()
    }

    /// Creates an empty ring buffer whose slots all hold the empty sentinel frame.
    pub fn new() -> (r: Self)
        requires
            1 <= N <= 255,
        ensures
            r.wf(),
            r@.read == 0,
            r@.write == 0,
            r.pending() == Seq::<Frame>::empty(),
            forall|i: int| 0 <= i < N ==> (#[trigger] r@.slots[i]).is_empty_sentinel(),
    {
        let r = RxRingBuffer { read_index: 0, write_index: 0, frames: [Frame::empty(); N] };
        assert(r.pending() =~= Seq::<Frame>::empty());
        r
    }

    /// Where the next frame will be read.
    pub fn read_index(&self) -> (r: u8)
        ensures
            r as nat == self@.read,
    {
        self.read_index
    }

    /// Where the next frame will be written.
    pub fn write_index(&self) -> (r: u8)
        ensures
            r as nat == self@.write,
    {
        self.write_index
    }

    /// The buffer's bytes in the layout it has on the wire: two index bytes,
    /// then `N` slots of `FRAME_WIRE_SIZE` bytes each.
    pub fn to_bytes(&self) -> (r: Vec<u8>)
        requires
            self.wf(),
        ensures
            r@ == ring_wire(self@),
            r@.len() == 2 + N * FRAME_WIRE_SIZE,
    {
        let mut out: Vec<u8> = Vec::new();
        out.push(self.read_index);
        out.push(self.write_index);
        let mut s: usize = 0;
        while s < N
            invariant
                self.wf(),
                s <= N,
                out@ == seq![self.read_index, self.write_index] + slots_wire(self@.slots.take(s as int)),
                out@.len() == 2 + s * FRAME_WIRE_SIZE,
            decreases N - s,
        {
            let f = self.frames[s];
            let ghost before = out@;
            out.push(f.header_len);
            out.push(f.payload_len);
            out.push(f.mic_len);
            let mut i: usize = 0;
            while i < MAX_MTU
                invariant
                    i <= MAX_MTU,
                    out@ == before + seq![f.header_len, f.payload_len, f.mic_len] + f.body@.take(i as int),
                decreases MAX_MTU - i,
            {
                out.push(f.body[i]);
                i = i + 1;
                assert(f.body@.take(i as int) =~= f.body@.take((i - 1) as int).push(f.body@[i - 1]));
            }
            proof {
                let ws = self@.slots.take(s as int).map_values(|g: Frame| g.wire());
                assert(self@.slots.take(s as int + 1).map_values(|g: Frame| g.wire()) =~= ws.push(f.wire()));
                ws.lemma_flatten_push(f.wire());
                assert(f.body@.take(MAX_MTU as int) =~= f.body@);
                assert(out@ =~= seq![self.read_index, self.write_index] + (slots_wire(self@.slots.take(s as int)) + f.wire()));
                assert((s + 1) * FRAME_WIRE_SIZE == s * FRAME_WIRE_SIZE + FRAME_WIRE_SIZE) by (nonlinear_arith);
            }
            s = s + 1;
        }
        assert(self@.slots.take(N as int) =~= self@.slots);
        out
    }

    /// Whether an unread frame is present.
    pub fn has_frame(&self) -> (r: bool)
        requires
            self.wf(),
        ensures
            r == (self.pending().len() > 0),
    {
        self.read_index != self.write_index
    }

    /// Pops the oldest unread frame, advancing the read index modulo `N`.
    pub fn next_frame(&mut self) -> (r: Frame)
        requires
            old(self).wf(),
            old(self).pending().len() > 0,
        ensures
            final(self).wf(),
            final(self)@ == old(self)@.popped(),
            r == old(self).pending()[0],
            final(self).pending() == old(self).pending().drop_first(),
    {
        proof {
            self@.lemma_popped();
        }
        let r = self.frames[self.read_index as usize];
        let n = N as u8;
        self.read_index = if self.read_index + 1 == n { 0 } else { self.read_index + 1 };
        r
    }

    /// Moves every unread frame, oldest first, to the end of `out`.
    pub fn drain_into(&mut self, out: &mut Vec<Frame>)
        requires
            old(self).wf(),
        ensures
            final(self).wf(),
            final(self).pending().len() == 0,
            final(out)@ == old(out)@ + old(self).pending(),
    {
        while self.has_frame()
            invariant
                self.wf(),
                out@ + self.pending() == old(out)@ + old(self).pending(),
            decreases self.pending().len(),
        {
            let ghost before = self.pending();
            let f = self.next_frame();
            out.push(f);
            assert(out@ + self.pending() =~= old(out)@ + old(self).pending()) by {
                assert(before =~= seq![f] + before.drop_first());
            }
        }
        assert(self.pending() =~= Seq::<Frame>::empty());
        assert(out@ =~= old(out)@ + old(self).pending());
    }

    /// The kernel's side of the protocol: stores `f` at the write index and
    /// advances it modulo `N`; when the buffer was full the read index moves on
    /// too and the oldest frame is silently lost.
    pub fn push_frame(&mut self, f: Frame)
        requires
            old(self).wf(),
        ensures
            final(self).wf(),
            final(self)@ == old(self)@.pushed(f),
            final(self).pending() == after_write(old(self).pending(), f, N as nat),
    {
        proof {
            self@.lemma_pushed(f);
        }
        let w = self.write_index as usize;
        self.frames[w] = f;
        let n = N as u8;
        let nw: u8 = if self.write_index + 1 == n { 0 } else { self.write_index + 1 };
        if nw == self.read_index {
            self.read_index = if self.read_index + 1 == n { 0 } else { self.read_index + 1 };
        }
        self.write_index = nw;
    }
}

} // verus!
