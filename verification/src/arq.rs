//! Selective-repeat ARQ, one window per over.
//!
//! Three pieces share the work:
//! - [`SendWindow`] keeps what the peer has not acknowledged and hands out the
//!   frames of the current over, so that a retransmission carries only the gaps.
//! - [`RecvBuffer`] drops duplicates, buffers what arrives out of order and delivers
//!   strictly in order; its state is the acknowledgement to send back.
//! - [`Reassembler`] joins the delivered fragments into whole host messages.
//!
//! Sequence numbers start at [`FIRST_SEQ`]; an `ack_through` of zero acknowledges
//! nothing.
use std::collections::BTreeMap;
use vstd::prelude::*;

verus! {

broadcast use {
    vstd::std_specs::btree::group_btree_axioms,
    vstd::laws_cmp::group_laws_cmp,
};

/// Default selective-repeat window, in frames per over.
pub const DEFAULT_WINDOW: u32 = 8;

/// First sequence number of a connection.
pub const FIRST_SEQ: u32 = 1;

/// Width of the selective-acknowledgement bitmap.
pub const SACK_BITS: u32 = 32;

/// What a [`SendWindow`] holds.
#[verifier::ext_equal]
pub struct SendModel {
    /// Lowest sequence number that the current over may carry.
    pub base: u32,
    /// Sequence number of the next payload to be enqueued.
    pub next_seq: u32,
    /// Frames in flight per over.
    pub window: u32,
    /// Unacknowledged payloads by sequence number.
    pub frames: Map<u32, Seq<u8>>,
}

/// Whether bit `i` of a selective-acknowledgement bitmap is set.
pub open spec fn sack_bit(sack: u32, i: u32) -> bool {
    sack & (1u32 << i) != 0
}

/// The sequence number that bit `i` of a bitmap relative to `ack_through` names.
pub open spec fn sack_seq(ack_through: u32, i: u32) -> u32 {
    if ack_through + 1 + i <= u32::MAX {
        (ack_through + 1 + i) as u32
    } else {
        u32::MAX
    }
}

/// Whether an acknowledgement covers `seq`, cumulatively or by its bitmap.
pub open spec fn ack_covers(ack_through: u32, sack: u32, seq: u32) -> bool {
    seq <= ack_through || exists|i: u32|
        i < SACK_BITS && #[trigger] sack_bit(sack, i) && seq == sack_seq(ack_through, i)
}

/// The entries with `lo <= seq < hi`, in ascending order.
pub open spec fn entries_between(frames: Map<u32, Seq<u8>>, lo: int, hi: int) -> Seq<
    (u32, Seq<u8>),
>
    decreases hi - lo,
{
    if hi <= lo {
        Seq::empty()
    } else {
        let below = entries_between(frames, lo, hi - 1);
        let last = (hi - 1) as u32;
        if frames.contains_key(last) {
            below.push((last, frames[last]))
        } else {
            below
        }
    }
}

impl SendModel {
    /// A window with nothing enqueued.
    pub open spec fn fresh(window: u32) -> Self {
        SendModel { base: FIRST_SEQ, next_seq: FIRST_SEQ, window, frames: Map::empty() }
    }

    /// Every payload held was enqueued, and under a number from [`FIRST_SEQ`] on.
    pub open spec fn wf(self) -> bool {
        &&& self.window >= 1
        &&& self.base >= FIRST_SEQ
        &&& self.next_seq >= FIRST_SEQ
        &&& self.frames.dom().finite()
        &&& forall|k: u32| #[trigger]
            self.frames.contains_key(k) ==> FIRST_SEQ <= k < self.next_seq
    }

    /// One past the last sequence number that the current over may carry.
    pub open spec fn limit(self) -> int {
        if self.base + self.window <= u32::MAX {
            self.base + self.window
        } else {
            u32::MAX as int
        }
    }

    /// The frames of the current over.
    pub open spec fn over(self) -> Seq<(u32, Seq<u8>)> {
        entries_between(self.frames, self.base as int, self.limit())
    }

    /// The window after one more payload.
    pub open spec fn enqueued(self, payload: Seq<u8>) -> Self {
        SendModel {
            next_seq: (self.next_seq + 1) as u32,
            frames: self.frames.insert(self.next_seq, payload),
            ..self
        }
    }

    /// The window after an acknowledgement.
    pub open spec fn acked(self, ack_through: u32, sack: u32) -> Self {
        SendModel {
            base: if self.base <= ack_through {
                sack_seq(ack_through, 0)
            } else {
                self.base
            },
            frames: self.frames.filter_keys(|k: u32| !ack_covers(ack_through, sack, k)),
            ..self
        }
    }

    /// The window at another width.
    pub open spec fn resized(self, window: u32) -> Self {
        SendModel { window, ..self }
    }
}

/// Sender-side selective-repeat window.
#[derive(Debug)]
pub struct SendWindow {
    base: u32,
    next_seq: u32,
    window: u32,
    frames: BTreeMap<u32, Vec<u8>>,
}

impl View for SendWindow {
    type V = SendModel;

    closed spec fn view(&self) -> SendModel {
        SendModel {
            base: self.base,
            next_seq: self.next_seq,
            window: self.window,
            frames: self.frames@.map_values(|p: Vec<u8>| p@),
        }
    }
}

impl SendWindow {
    /// New sender window of the given width. Width 1 is stop-and-wait.
    pub fn new(window: u32) -> (w: Self)
        requires
            window >= 1,
        ensures
            w@ == SendModel::fresh(window),
            w@.wf(),
    {
        let w = SendWindow {
            base: FIRST_SEQ,
            next_seq: FIRST_SEQ,
            window,
            frames: BTreeMap::new(),
        };
        assert(w@.frames =~= Map::empty());
        w
    }

    /// Buffer a payload as the next frame; returns its sequence number. The window
    /// bounds what an over carries, not what may wait here.
    pub fn enqueue(&mut self, payload: Vec<u8>) -> (seq: u32)
        requires
            old(self)@.wf(),
            old(self)@.next_seq < u32::MAX,
        ensures
            seq == old(self)@.next_seq,
            final(self)@ == old(self)@.enqueued(payload@),
            final(self)@.wf(),
    {
        let seq: u32 = self.next_seq;
        self.next_seq = self.next_seq + 1;
        self.frames.insert(seq, payload);
        assert(self@.frames =~= old(self)@.frames.insert(seq, payload@));
        seq
    }

    /// How many more payloads the sequence space has room for.
    pub fn remaining(&self) -> (n: u32)
        ensures
            n == u32::MAX - self@.next_seq,
    {
        u32::MAX - self.next_seq
    }

    /// Back to a fresh session at the same width.
    pub fn reset(&mut self)
        requires
            old(self)@.wf(),
        ensures
            final(self)@ == SendModel::fresh(old(self)@.window),
            final(self)@.wf(),
    {
        self.base = FIRST_SEQ;
        self.next_seq = FIRST_SEQ;
        self.frames.clear();
        assert(self@.frames =~= Map::empty());
    }

    /// Change the width in place; the sequence stream and the unacknowledged frames
    /// stay as they are.
    pub fn reconfigure(&mut self, window: u32)
        requires
            old(self)@.wf(),
            window >= 1,
        ensures
            final(self)@ == old(self)@.resized(window),
            final(self)@.wf(),
    {
        self.window = window;
    }

    /// Whether any enqueued frame is still unacknowledged.
    pub fn has_unacked(&self) -> (b: bool)
        requires
            self@.wf(),
        ensures
            b == (self@.frames.dom() != Set::<u32>::empty()),
    {
        proof {
            assert(self@.frames.dom() =~= self.frames@.dom());
            if self.frames@.is_empty() {
                assert(self@.frames.dom() =~= Set::empty());
            }
        }
        !self.frames.is_empty()
    }

    /// How many frames are still unacknowledged.
    pub fn outstanding(&self) -> (n: usize)
        requires
            self@.wf(),
        ensures
            n == self@.frames.len(),
    {
        proof {
            assert(self@.frames.dom() =~= self.frames@.dom());
        }
        self.frames.len()
    }

    /// The frames to transmit in the current over: those waiting within the window,
    /// ascending. These are the gaps and whatever fresh frames fit beside them.
    pub fn over_frames(&self) -> (over: Vec<(u32, Vec<u8>)>)
        requires
            self@.wf(),
        ensures
            over@.map_values(|e: (u32, Vec<u8>)| (e.0, e.1@)) == self@.over(),
    {
        let limit: u32 = self.base.saturating_add(self.window);
        let stop: u32 = if limit < self.next_seq {
            limit
        } else {
            self.next_seq
        };
        let ghost m = self@;
        let mut over: Vec<(u32, Vec<u8>)> = Vec::new();
        let mut seq: u32 = self.base;
        proof {
            assert(over@.map_values(|e: (u32, Vec<u8>)| (e.0, e.1@)) =~= Seq::empty());
        }
        while seq < stop
            invariant
                m == self@,
                m.wf(),
                self.base <= seq,
                stop <= m.limit(),
                m.base == self.base,
                seq <= stop || seq == self.base,
                over@.map_values(|e: (u32, Vec<u8>)| (e.0, e.1@)) == entries_between(
                    m.frames,
                    m.base as int,
                    seq as int,
                ),
            decreases stop - seq,
        {
            let ghost before = over@;
            if let Some(payload) = self.frames.get(&seq) {
                let copy = payload.clone();
                assert(copy@ =~= payload@);
                over.push((seq, copy));
                assert(over@.map_values(|e: (u32, Vec<u8>)| (e.0, e.1@)) =~= before.map_values(
                    |e: (u32, Vec<u8>)| (e.0, e.1@),
                ).push((seq, m.frames[seq])));
            }
            assert(((seq + 1) - 1) as u32 == seq);
            seq = seq + 1;
        }
        proof {
            lemma_nothing_past_the_end(m, seq as int, m.limit());
        }
        over
    }

    /// Apply a peer acknowledgement: `ack_through` is the in-order high-water, and
    /// bit `i` of `sack` names `ack_through + 1 + i`.
    pub fn on_ack(&mut self, ack_through: u32, sack: u32)
        requires
            old(self)@.wf(),
        ensures
            final(self)@ == old(self)@.acked(ack_through, sack),
            final(self)@.wf(),
    {
        let ghost before = self.frames@;
        let mut held: Vec<u32> = Vec::new();
        for k in it: self.frames.keys()
            invariant
                held@.len() == it.index(),
                forall|j: int| 0 <= j < held@.len() ==> held@[j] == *it.seq()[j],
                it.seq().unref().to_set() == before.dom(),
                it.index() == it.seq().len() ==> held@.to_set() == before.dom(),
        {
            held.push(*k);
            assert(it.index() + 1 == it.seq().len() ==> held@ =~= it.seq().unref());
        }
        let mut n: usize = 0;
        assert forall|k: u32| before.contains_key(k) implies held@.contains(k) by {
            assert(held@.to_set().contains(k));
        }
        while n < held.len()
            invariant
                n <= held.len(),
                old(self)@.wf(),
                self.base == old(self).base,
                self.next_seq == old(self).next_seq,
                self.window == old(self).window,
                before == old(self).frames@,
                forall|k: u32| before.contains_key(k) ==> held@.contains(k),
                forall|j: int|
                    0 <= j < n && #[trigger] held@[j] <= ack_through ==> !self.frames@.contains_key(
                        held@[j],
                    ),
                forall|k: u32| #[trigger]
                    self.frames@.contains_key(k) ==> before.contains_key(k) && self.frames@[k]
                        == before[k],
                forall|k: u32| #[trigger]
                    before.contains_key(k) && k > ack_through ==> self.frames@.contains_key(k),
            decreases held.len() - n,
        {
            let seq: u32 = held[n];
            if seq <= ack_through {
                self.frames.remove(&seq);
            }
            n = n + 1;
        }
        if self.base <= ack_through {
            self.base = ack_through.saturating_add(1);
        }
        let ghost mid = self.frames@;
        let mut i: u32 = 0;
        while i < SACK_BITS
            invariant
                i <= SACK_BITS,
                self.base == old(self)@.acked(ack_through, sack).base,
                self.next_seq == old(self).next_seq,
                self.window == old(self).window,
                forall|k: u32| #[trigger]
                    self.frames@.contains_key(k) <==> mid.contains_key(k) && !(exists|j: u32|
                        j < i && #[trigger] sack_bit(sack, j) && k == sack_seq(ack_through, j)),
                forall|k: u32| #[trigger]
                    self.frames@.contains_key(k) ==> self.frames@[k] == mid[k],
            decreases SACK_BITS - i,
        {
            if sack & (1u32 << i) != 0 {
                let seq: u32 = ack_through.saturating_add(1).saturating_add(i);
                assert(seq == sack_seq(ack_through, i));
                assert(sack_bit(sack, i));
                self.frames.remove(&seq);
            } else {
                assert(!sack_bit(sack, i));
            }
            i = i + 1;
        }
        proof {
            assert forall|k: u32|
                self.frames@.contains_key(k) <==> before.contains_key(k) && !ack_covers(
                    ack_through,
                    sack,
                    k,
                ) by {}
            assert(self@.frames =~= old(self)@.acked(ack_through, sack).frames);
            assert(self@.frames.dom() =~= self.frames@.dom());
        }
    }
}

/// Beyond the last enqueued number a window holds nothing to transmit.
proof fn lemma_nothing_past_the_end(m: SendModel, from: int, to: int)
    requires
        m.wf(),
        m.base <= from,
        from >= m.next_seq || from >= to,
        to <= u32::MAX,
        from <= to || from == m.base,
    ensures
        entries_between(m.frames, m.base as int, from) == entries_between(
            m.frames,
            m.base as int,
            to,
        ),
    decreases to - from,
{
    if from < to {
        lemma_nothing_past_the_end(m, from, to - 1);
        assert(!m.frames.contains_key((to - 1) as u32));
    }
}

/// A fragment's payload and whether it ends a host message.
#[verifier::ext_equal]
pub struct Fragment {
    /// The fragment's bytes.
    pub payload: Seq<u8>,
    /// Whether it is the last of its host message.
    pub end_of_msg: bool,
}

/// One fragment delivered in order, handed up for reassembly.
#[derive(Debug, Clone, PartialEq, Eq)]
pub struct Delivered {
    /// The fragment payload.
    pub payload: Vec<u8>,
    /// Whether this fragment ends a host message.
    pub end_of_msg: bool,
}

impl View for Delivered {
    type V = Fragment;

    open spec fn view(&self) -> Fragment {
        Fragment { payload: self.payload@, end_of_msg: self.end_of_msg }
    }
}

/// What a [`RecvBuffer`] holds.
#[verifier::ext_equal]
pub struct RecvModel {
    /// Sequence number of the next fragment to deliver.
    pub next_expected: u32,
    /// How far past `next_expected` a fragment may arrive.
    pub window: u32,
    /// Fragments that arrived ahead of a gap.
    pub buffered: Map<u32, Fragment>,
}

/// One past the run of buffered fragments that starts at `from`.
pub open spec fn run_end(buffered: Map<u32, Fragment>, from: u32) -> u32
    decreases u32::MAX - from,
{
    if from < u32::MAX && buffered.contains_key(from) {
        run_end(buffered, (from + 1) as u32)
    } else {
        from
    }
}

/// The buffered fragments with `lo <= seq < hi`, where all of them are present.
pub open spec fn run(buffered: Map<u32, Fragment>, lo: u32, hi: u32) -> Seq<Fragment> {
    Seq::new((hi - lo) as nat, |i: int| buffered[(lo + i) as u32])
}

impl RecvModel {
    /// A buffer that has received nothing.
    pub open spec fn fresh(window: u32) -> Self {
        RecvModel { next_expected: FIRST_SEQ, window, buffered: Map::empty() }
    }

    /// Whatever is buffered lies past the gap at `next_expected`.
    pub open spec fn wf(self) -> bool {
        &&& self.window >= 1
        &&& self.next_expected >= FIRST_SEQ
        &&& forall|k: u32| #[trigger]
            self.buffered.contains_key(k) ==> self.next_expected < k < u32::MAX
    }

    /// One past the last sequence number that may be buffered.
    pub open spec fn limit(self) -> int {
        if self.next_expected + self.window <= u32::MAX {
            self.next_expected + self.window
        } else {
            u32::MAX as int
        }
    }

    /// Whether `seq` is the next fragment in order. The last sequence number of all
    /// has no successor and is never taken.
    pub open spec fn is_next(self, seq: u32) -> bool {
        seq == self.next_expected && seq < u32::MAX
    }

    /// Whether `seq` is new, ahead of a gap and within the window.
    pub open spec fn is_ahead(self, seq: u32) -> bool {
        self.next_expected < seq < self.limit() && !self.buffered.contains_key(seq)
    }

    /// The buffer after a fragment arrived.
    pub open spec fn accepted(self, seq: u32, frag: Fragment) -> Self {
        if self.is_next(seq) {
            let end = run_end(self.buffered, (seq + 1) as u32);
            RecvModel {
                next_expected: end,
                buffered: self.buffered.filter_keys(|k: u32| k >= end),
                ..self
            }
        } else if self.is_ahead(seq) {
            RecvModel { buffered: self.buffered.insert(seq, frag), ..self }
        } else {
            self
        }
    }

    /// What the arrival of a fragment delivers.
    pub open spec fn delivers(self, seq: u32, frag: Fragment) -> Seq<Fragment> {
        if self.is_next(seq) {
            let from = (seq + 1) as u32;
            seq![frag] + run(self.buffered, from, run_end(self.buffered, from))
        } else {
            Seq::empty()
        }
    }

    /// The buffer at another width.
    pub open spec fn resized(self, window: u32) -> Self {
        RecvModel { window, ..self }
    }

    /// Whether the `i`th fragment past the gap is buffered.
    pub open spec fn holds(self, i: u32) -> bool {
        self.next_expected + i <= u32::MAX && self.buffered.contains_key(
            (self.next_expected + i) as u32,
        )
    }

    /// The lowest `n` bits of the bitmap of what is buffered past the gap.
    pub open spec fn sack_upto(self, n: nat) -> u32
        decreases n,
    {
        if n == 0 {
            0
        } else if self.holds((n - 1) as u32) {
            self.sack_upto((n - 1) as nat) | (1u32 << ((n - 1) as u32))
        } else {
            self.sack_upto((n - 1) as nat)
        }
    }

    /// The bitmap of what is buffered past the gap.
    pub open spec fn sack(self) -> u32 {
        self.sack_upto(SACK_BITS as nat)
    }

    /// Whether `sack` is the bitmap of what is buffered past the gap.
    pub open spec fn is_sack(self, sack: u32) -> bool {
        forall|i: u32|
            i < SACK_BITS ==> (#[trigger] sack_bit(sack, i) <==> self.holds(i))
    }
}

/// Receiver-side ordering buffer.
#[derive(Debug)]
pub struct RecvBuffer {
    next_expected: u32,
    window: u32,
    buffered: BTreeMap<u32, Delivered>,
}

impl View for RecvBuffer {
    type V = RecvModel;

    closed spec fn view(&self) -> RecvModel {
        RecvModel {
            next_expected: self.next_expected,
            window: self.window,
            buffered: self.buffered@.map_values(|d: Delivered| d@),
        }
    }
}

impl RecvBuffer {
    /// New receiver buffer of the given width.
    pub fn new(window: u32) -> (r: Self)
        requires
            window >= 1,
        ensures
            r@ == RecvModel::fresh(window),
            r@.wf(),
    {
        let r = RecvBuffer { next_expected: FIRST_SEQ, window, buffered: BTreeMap::new() };
        assert(r@.buffered =~= Map::empty());
        r
    }

    /// Accept a fragment. Returns the run that can now be delivered in order: empty if
    /// the fragment is a duplicate, lies outside the window or leaves the gap open.
    pub fn accept(&mut self, seq: u32, payload: Vec<u8>, end_of_msg: bool) -> (out: Vec<Delivered>)
        requires
            old(self)@.wf(),
        ensures
            final(self)@ == old(self)@.accepted(seq, Fragment { payload: payload@, end_of_msg }),
            final(self)@.wf(),
            out@.map_values(|d: Delivered| d@) == old(self)@.delivers(
                seq,
                Fragment { payload: payload@, end_of_msg },
            ),
    {
        let mut out: Vec<Delivered> = Vec::new();
        let frag = Delivered { payload, end_of_msg };
        if seq != self.next_expected || seq == u32::MAX {
            let limit: u32 = self.next_expected.saturating_add(self.window);
            if self.next_expected < seq && seq < limit && !self.buffered.contains_key(&seq) {
                self.buffered.insert(seq, frag);
                assert(self@.buffered =~= old(self)@.buffered.insert(seq, frag@));
            }
            assert(out@.map_values(|d: Delivered| d@) =~= Seq::empty());
            return out;
        }
        let ghost before = old(self)@.buffered;
        let ghost from = (seq + 1) as u32;
        let ghost end = run_end(before, from);
        let ghost first = frag@;
        out.push(frag);
        self.next_expected = self.next_expected + 1;
        proof {
            lemma_run_end(before, from);
            assert(out@.map_values(|d: Delivered| d@) =~= seq![first] + run(before, from, from));
            assert(self@.buffered =~= before.filter_keys(|k: u32| k >= from));
        }
        loop
            invariant
                old(self)@.wf(),
                before == old(self)@.buffered,
                from == old(self)@.next_expected + 1,
                end == run_end(before, from),
                from <= self.next_expected <= end,
                self.window == old(self)@.window,
                forall|k: u32| from <= k < end ==> #[trigger] before.contains_key(k),
                end < u32::MAX ==> !before.contains_key(end),
                self@.buffered == before.filter_keys(|k: u32| k >= self.next_expected),
                out@.map_values(|d: Delivered| d@) == seq![first] + run(
                    before,
                    from,
                    self.next_expected,
                ),
            ensures
                self.next_expected == end,
            decreases end - self.next_expected,
        {
            let ghost at = self.next_expected;
            let ghost prior = out@;
            let ghost was = self.buffered@;
            let ghost shown = self@.buffered;
            let key: u32 = self.next_expected;
            proof {
                assert(self@.buffered.contains_key(at) <==> self.buffered@.contains_key(at));
                if self.buffered@.contains_key(at) {
                    assert(before.contains_key(at));
                    assert(at < u32::MAX);
                    assert(at < end);
                }
            }
            match self.buffered.remove(&key) {
                Some(next) => {
                    assert(was.contains_key(at) && next == was[at]);
                    assert(shown[at] == next@);
                    assert(self.buffered@ == was.remove(at));
                    assert(self@.buffered =~= shown.remove(at));
                    assert(self@.buffered =~= before.filter_keys(|k: u32| k >= at + 1));
                    out.push(next);
                    assert(out@.map_values(|d: Delivered| d@) =~= prior.map_values(
                        |d: Delivered| d@,
                    ).push(before[at]));
                    assert(run(before, from, (at + 1) as u32) =~= run(before, from, at).push(
                        before[at],
                    ));
                    assert(out@.map_values(|d: Delivered| d@) =~= seq![first] + run(
                        before,
                        from,
                        (at + 1) as u32,
                    ));
                    self.next_expected = self.next_expected + 1;
                },
                None => {
                    assert(self@.buffered =~= before.filter_keys(|k: u32| k >= at));
                    break ;
                },
            }
        }
        assert(self@.buffered =~= before.filter_keys(|k: u32| k >= end));
        out
    }

    /// Back to a fresh session at the same width.
    pub fn reset(&mut self)
        requires
            old(self)@.wf(),
        ensures
            final(self)@ == RecvModel::fresh(old(self)@.window),
            final(self)@.wf(),
    {
        self.next_expected = FIRST_SEQ;
        self.buffered.clear();
        assert(self@.buffered =~= Map::empty());
    }

    /// Change the width in place; the high-water and the buffered fragments stay.
    pub fn reconfigure(&mut self, window: u32)
        requires
            old(self)@.wf(),
            window >= 1,
        ensures
            final(self)@ == old(self)@.resized(window),
            final(self)@.wf(),
    {
        self.window = window;
        assert(self@ == old(self)@.resized(window));
    }

    /// In-order high-water received; zero before the first fragment.
    pub fn ack_through(&self) -> (n: u32)
        requires
            self@.wf(),
        ensures
            n == self@.next_expected - 1,
    {
        self.next_expected - 1
    }

    /// Selective-acknowledgement bitmap relative to [`Self::ack_through`]: bit `i` is
    /// set iff `ack_through + 1 + i` is buffered.
    pub fn sack(&self) -> (bm: u32)
        requires
            self@.wf(),
        ensures
            bm == self@.sack(),
            self@.is_sack(bm),
    {
        let mut bm: u32 = 0;
        let mut i: u32 = 0;
        proof {
            assert forall|j: u32| j < SACK_BITS implies !(#[trigger] sack_bit(0, j)) by {
                assert(0u32 & (1u32 << j) == 0) by (bit_vector);
            }
        }
        while i < SACK_BITS
            invariant
                i <= SACK_BITS,
                self@.wf(),
                bm == self@.sack_upto(i as nat),
                forall|j: u32|
                    j < SACK_BITS ==> (#[trigger] sack_bit(bm, j) <==> (j < i && self@.holds(j))),
            decreases SACK_BITS - i,
        {
            let ghost was = bm;
            if i <= u32::MAX - self.next_expected && self.buffered.contains_key(
                &(self.next_expected + i),
            ) {
                bm = bm | (1u32 << i);
                proof {
                    assert forall|j: u32| j < SACK_BITS implies (#[trigger] sack_bit(bm, j) <==> (
                    sack_bit(was, j) || j == i)) by {
                        lemma_set_bit(was, i, j);
                    }
                }
            }
            i = i + 1;
        }
        bm
    }
}

/// Setting a bit of a bitmap leaves the others as they were.
proof fn lemma_set_bit(bm: u32, i: u32, j: u32)
    requires
        i < SACK_BITS,
        j < SACK_BITS,
    ensures
        sack_bit(bm | (1u32 << i), j) <==> (sack_bit(bm, j) || j == i),
{
    assert((bm | (1u32 << i)) & (1u32 << j) != 0 <==> (bm & (1u32 << j) != 0 || i == j))
        by (bit_vector)
        requires
            i < 32,
            j < 32,
    ;
}

/// A run is gapless, and nothing continues it.
pub proof fn lemma_run_end(buffered: Map<u32, Fragment>, from: u32)
    ensures
        from <= run_end(buffered, from),
        forall|k: u32| from <= k < run_end(buffered, from) ==> #[trigger] buffered.contains_key(k),
        run_end(buffered, from) < u32::MAX ==> !buffered.contains_key(run_end(buffered, from)),
    decreases u32::MAX - from,
{
    if from < u32::MAX && buffered.contains_key(from) {
        lemma_run_end(buffered, (from + 1) as u32);
    }
}

/// Joins fragments delivered in order into whole host messages.
#[derive(Debug)]
pub struct Reassembler {
    buf: Vec<u8>,
}

impl View for Reassembler {
    type V = Seq<u8>;

    closed spec fn view(&self) -> Seq<u8> {
        self.buf@
    }
}

impl Reassembler {
    /// New, empty reassembler.
    pub fn new() -> (r: Self)
        ensures
            r@ == Seq::<u8>::empty(),
    {
        Reassembler { buf: Vec::new() }
    }

    /// Feed one fragment. Returns the whole message when the fragment ends it.
    pub fn push(&mut self, frag: Delivered) -> (msg: Option<Vec<u8>>)
        ensures
            match msg {
                Some(m) => frag.end_of_msg && m@ == old(self)@ + frag.payload@ && final(self)@
                    == Seq::<u8>::empty(),
                None => !frag.end_of_msg && final(self)@ == old(self)@ + frag.payload@,
            },
    {
        self.buf.extend_from_slice(frag.payload.as_slice());
        assert(self.buf@ =~= old(self)@ + frag.payload@);
        if frag.end_of_msg {
            let mut whole: Vec<u8> = Vec::new();
            std::mem::swap(&mut whole, &mut self.buf);
            Some(whole)
        } else {
            None
        }
    }

    /// Discard a message that is only partly received.
    pub fn reset(&mut self)
        ensures
            final(self)@ == Seq::<u8>::empty(),
    {
        self.buf.clear();
    }
}

impl Default for Reassembler {
    fn default() -> (r: Self)
        ensures
            r@ == Seq::<u8>::empty(),
    {
        Reassembler::new()
    }
}

/// The frames of an over are the entries of its range, in ascending order and each once.
proof fn lemma_entries(frames: Map<u32, Seq<u8>>, lo: int, hi: int)
    requires
        0 <= lo,
        hi <= u32::MAX,
    ensures
        ({
            let e = entries_between(frames, lo, hi);
            &&& e.len() <= (if lo < hi {
                hi - lo
            } else {
                0
            })
            &&& forall|i: int|
                0 <= i < e.len() ==> lo <= (#[trigger] e[i]).0 < hi && frames.contains_key(e[i].0)
                    && e[i].1 == frames[e[i].0]
            &&& forall|i: int, j: int|
                0 <= i < j < e.len() ==> (#[trigger] e[i]).0 < (#[trigger] e[j]).0
            &&& forall|k: u32|
                lo <= k < hi && #[trigger] frames.contains_key(k) ==> exists|i: int|
                    0 <= i < e.len() && (#[trigger] e[i]).0 == k
        }),
    decreases hi - lo,
{
    if lo < hi {
        lemma_entries(frames, lo, hi - 1);
        let below = entries_between(frames, lo, hi - 1);
        let e = entries_between(frames, lo, hi);
        assert forall|k: u32| lo <= k < hi && #[trigger] frames.contains_key(k) implies exists|
            i: int,
        |
            0 <= i < e.len() && (#[trigger] e[i]).0 == k by {
            if k < hi - 1 {
                let i = choose|i: int| 0 <= i < below.len() && (#[trigger] below[i]).0 == k;
                assert(e[i].0 == k);
            } else {
                assert(e[below.len() as int].0 == k);
            }
        }
    }
}

/// An over carries all that waits within the window, and nothing else: the frames not yet
/// acknowledged from the base on, as far as the window reaches, each once and in ascending
/// order.
pub proof fn over_is_what_waits_in_the_window(m: SendModel)
    requires
        m.wf(),
    ensures
        m.over().len() <= m.window,
        forall|i: int|
            0 <= i < m.over().len() ==> {
                let e = #[trigger] m.over()[i];
                &&& m.frames.contains_key(e.0)
                &&& m.base <= e.0 < m.base + m.window
                &&& e.1 == m.frames[e.0]
            },
        forall|i: int, j: int|
            0 <= i < j < m.over().len() ==> (#[trigger] m.over()[i]).0 < (
            #[trigger] m.over()[j]).0,
        forall|k: u32|
            m.base <= k < m.base + m.window && #[trigger] m.frames.contains_key(k) ==> exists|
                i: int,
            |
                0 <= i < m.over().len() && (#[trigger] m.over()[i]).0 == k,
{
    lemma_entries(m.frames, m.base as int, m.limit());
}

/// Bit `i` of a bitmap is the one of value two to the `i`.
pub proof fn bitmap_counts_from_the_least_bit(sack: u32, i: u32)
    requires
        i < 32,
    ensures
        sack_bit(sack, i) <==> (sack >> i) % 2 == 1,
{
    assert(sack & (1u32 << i) != 0 <==> (sack >> i) % 2 == 1) by (bit_vector)
        requires
            i < 32,
    ;
}

/// What an acknowledgement clears: everything up to its high-water, and what bit `i` of its
/// bitmap names, the number `i + 1` past it. All else stays, and the window moves past the
/// high-water and never back.
pub proof fn acknowledgement_clears_what_it_names(m: SendModel, ack_through: u32, sack: u32, k: u32)
    requires
        m.wf(),
    ensures
        ({
            let t = m.acked(ack_through, sack);
            let past = k - ack_through - 1;
            let named = k <= ack_through || (past < 32 && (sack >> (past as u32)) % 2 == 1);
            &&& t.frames.contains_key(k) <==> m.frames.contains_key(k) && !named
            &&& t.frames.contains_key(k) ==> t.frames[k] == m.frames[k]
            &&& t.next_seq == m.next_seq
            &&& t.window == m.window
            &&& ack_through < u32::MAX ==> t.base == (if ack_through + 1 > m.base {
                ack_through + 1
            } else {
                m.base as int
            })
        }),
{
    let past = k - ack_through - 1;
    if 0 <= past < 32 {
        let i = past as u32;
        bitmap_counts_from_the_least_bit(sack, i);
        assert(sack_seq(ack_through, i) == k);
        if sack_bit(sack, i) {
            assert(ack_covers(ack_through, sack, k));
        }
    }
    if m.frames.contains_key(k) && k > ack_through && ack_covers(ack_through, sack, k) {
        let i = choose|i: u32|
            i < SACK_BITS && #[trigger] sack_bit(sack, i) && k == sack_seq(ack_through, i);
        assert(k < u32::MAX);
        assert(i == past);
    }
}

/// The bitmap names what is buffered: bit `i` is set exactly where the number `i` past the
/// gap is held.
pub proof fn sack_names_what_is_buffered(m: RecvModel)
    ensures
        m.is_sack(m.sack()),
        forall|i: u32|
            i < 32 ==> (#[trigger] sack_bit(m.sack(), i) <==> m.next_expected + i <= u32::MAX
                && m.buffered.contains_key((m.next_expected + i) as u32)),
{
    lemma_sack_bits(m, 32);
}

proof fn lemma_sack_bits(m: RecvModel, n: nat)
    requires
        n <= 32,
    ensures
        forall|j: u32|
            j < 32 ==> (#[trigger] sack_bit(m.sack_upto(n), j) <==> (j < n && m.holds(j))),
    decreases n,
{
    if n == 0 {
        assert forall|j: u32| j < 32 implies !(#[trigger] sack_bit(m.sack_upto(n), j)) by {
            assert(0u32 & (1u32 << j) == 0) by (bit_vector);
        }
    } else {
        lemma_sack_bits(m, (n - 1) as nat);
        let was = m.sack_upto((n - 1) as nat);
        let i = (n - 1) as u32;
        assert forall|j: u32| j < 32 implies (#[trigger] sack_bit(m.sack_upto(n), j) <==> (j < n
            && m.holds(j))) by {
            lemma_set_bit(was, i, j);
        }
    }
}

/// An arrival within the window is kept, and nothing that was held is lost: afterwards each
/// of them is delivered or buffered. An arrival beyond the window, or of what is there
/// already, changes nothing and delivers nothing.
pub proof fn arrival_within_the_window_is_kept(m: RecvModel, seq: u32, frag: Fragment, k: u32)
    requires
        m.wf(),
        m.next_expected < u32::MAX,
    ensures
        ({
            let t = m.accepted(seq, frag);
            let new = m.next_expected <= seq < m.next_expected + m.window && seq < u32::MAX
                && !m.buffered.contains_key(seq);
            &&& t.window == m.window
            &&& new ==> seq < t.next_expected || (t.buffered.contains_key(seq)
                && t.buffered[seq] == frag)
            &&& !new ==> t == m && m.delivers(seq, frag).len() == 0
            &&& m.delivers(seq, frag).len() == t.next_expected - m.next_expected
            &&& seq != m.next_expected ==> t.next_expected == m.next_expected
            &&& seq == m.next_expected ==> t.next_expected > m.next_expected && m.delivers(
                seq,
                frag,
            )[0] == frag
            &&& m.buffered.contains_key(k) ==> k < t.next_expected || (t.buffered.contains_key(k)
                && t.buffered[k] == m.buffered[k])
            &&& t.buffered.contains_key(k) ==> k == seq || m.buffered.contains_key(k)
            &&& !t.buffered.contains_key(t.next_expected)
        }),
{
    let t = m.accepted(seq, frag);
    if m.is_next(seq) {
        let from = (seq + 1) as u32;
        lemma_run_end(m.buffered, from);
    }
    if m.buffered.contains_key(t.next_expected) {
        assert(m.next_expected < t.next_expected < u32::MAX);
    }
}

} // verus!
