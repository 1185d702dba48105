//! What the ARQ promises as a whole: whatever the channel loses, repeats or
//! reorders, the host receives the messages that were sent, in order, each once and
//! none in part; and the sender forgets only what the receiver holds.
use crate::arq::{Fragment, RecvModel, SendModel};
use vstd::prelude::*;

verus! {

/// What happens to a receive buffer during a session.
pub enum RecvEvent {
    /// A fragment came off the channel.
    Arrive {
        /// Its sequence number.
        seq: u32,
        /// Its content.
        frag: Fragment,
    },
    /// A mode change resized the window.
    Resize {
        /// The new width.
        window: u32,
    },
}

/// A receive buffer after one event.
pub open spec fn recv_step(m: RecvModel, e: RecvEvent) -> RecvModel {
    match e {
        RecvEvent::Arrive { seq, frag } => m.accepted(seq, frag),
        RecvEvent::Resize { window } => m.resized(window),
    }
}

/// What one event delivers.
pub open spec fn recv_output(m: RecvModel, e: RecvEvent) -> Seq<Fragment> {
    match e {
        RecvEvent::Arrive { seq, frag } => m.delivers(seq, frag),
        RecvEvent::Resize { window } => Seq::empty(),
    }
}

/// A receive buffer after a history of events.
pub open spec fn recv_after(m: RecvModel, events: Seq<RecvEvent>) -> RecvModel
    decreases events.len(),
{
    if events.len() == 0 {
        m
    } else {
        recv_step(recv_after(m, events.drop_last()), events.last())
    }
}

/// Everything a history of events delivers.
pub open spec fn recv_delivered(m: RecvModel, events: Seq<RecvEvent>) -> Seq<Fragment>
    decreases events.len(),
{
    if events.len() == 0 {
        Seq::empty()
    } else {
        recv_delivered(m, events.drop_last()) + recv_output(
            recv_after(m, events.drop_last()),
            events.last(),
        )
    }
}

/// A history in which every arrival is a fragment of one numbered stream.
pub open spec fn from_stream(events: Seq<RecvEvent>, stream: spec_fn(u32) -> Fragment) -> bool {
    forall|i: int|
        0 <= i < events.len() ==> match #[trigger] events[i] {
            RecvEvent::Arrive { seq, frag } => frag == stream(seq),
            RecvEvent::Resize { window } => window >= 1,
        }
}

/// The first `n` fragments of a numbered stream.
pub open spec fn stream_prefix(stream: spec_fn(u32) -> Fragment, n: nat) -> Seq<Fragment> {
    Seq::new(n, |i: int| stream((crate::arq::FIRST_SEQ + i) as u32))
}

/// Fragments are delivered in order, each exactly once and without a gap: after any
/// history of losses, repeats, reorderings and window changes, what has been
/// delivered is the stream up to the high-water.
pub proof fn delivery_is_in_order_and_exactly_once(
    window: u32,
    events: Seq<RecvEvent>,
    stream: spec_fn(u32) -> Fragment,
)
    requires
        window >= 1,
        from_stream(events, stream),
    ensures
        recv_after(RecvModel::fresh(window), events).wf(),
        recv_delivered(RecvModel::fresh(window), events) == stream_prefix(
            stream,
            (recv_after(RecvModel::fresh(window), events).next_expected
                - crate::arq::FIRST_SEQ) as nat,
        ),
        forall|k: u32| #[trigger]
            recv_after(RecvModel::fresh(window), events).buffered.contains_key(k) ==> recv_after(
                RecvModel::fresh(window),
                events,
            ).buffered[k] == stream(k),
    decreases events.len(),
{
    let start = RecvModel::fresh(window);
    if events.len() == 0 {
        assert(recv_delivered(start, events) =~= stream_prefix(stream, 0));
    } else {
        let before = events.drop_last();
        assert(from_stream(before, stream)) by {
            assert forall|i: int| 0 <= i < before.len() implies match #[trigger] before[i] {
                RecvEvent::Arrive { seq, frag } => frag == stream(seq),
                RecvEvent::Resize { window } => window >= 1,
            } by {
                assert(before[i] == events[i]);
            }
        }
        delivery_is_in_order_and_exactly_once(window, before, stream);
        let m = recv_after(start, before);
        assert(events.last() == events[events.len() - 1]);
        match events.last() {
            RecvEvent::Resize { window: w } => {
                assert(recv_delivered(start, events) =~= recv_delivered(start, before));
            },
            RecvEvent::Arrive { seq, frag } => {
                lemma_accept_extends_the_stream(m, seq, frag, stream);
                let n = (m.next_expected - crate::arq::FIRST_SEQ) as nat;
                let m2 = m.accepted(seq, frag);
                assert(recv_delivered(start, events) =~= stream_prefix(stream, n) + m.delivers(
                    seq,
                    frag,
                ));
                assert(recv_delivered(start, events) =~= stream_prefix(
                    stream,
                    (m2.next_expected - crate::arq::FIRST_SEQ) as nat,
                ));
            },
        }
    }
}

/// One arrival delivers the stream's next fragments and moves the high-water past
/// them.
pub proof fn lemma_accept_extends_the_stream(
    m: RecvModel,
    seq: u32,
    frag: Fragment,
    stream: spec_fn(u32) -> Fragment,
)
    requires
        m.wf(),
        frag == stream(seq),
        forall|k: u32| #[trigger] m.buffered.contains_key(k) ==> m.buffered[k] == stream(k),
    ensures
        m.accepted(seq, frag).wf(),
        m.accepted(seq, frag).next_expected >= m.next_expected,
        m.delivers(seq, frag) == Seq::new(
            (m.accepted(seq, frag).next_expected - m.next_expected) as nat,
            |i: int| stream((m.next_expected + i) as u32),
        ),
        forall|k: u32| #[trigger]
            m.accepted(seq, frag).buffered.contains_key(k) ==> m.accepted(seq, frag).buffered[k]
                == stream(k),
{
    let m2 = m.accepted(seq, frag);
    let fresh = Seq::new(
        (m2.next_expected - m.next_expected) as nat,
        |i: int| stream((m.next_expected + i) as u32),
    );
    if m.is_next(seq) {
        let from = (seq + 1) as u32;
        crate::arq::lemma_run_end(m.buffered, from);
        let end = crate::arq::run_end(m.buffered, from);
        let tail = crate::arq::run(m.buffered, from, end);
        assert forall|i: int| 0 <= i < tail.len() implies tail[i] == stream((from + i) as u32) by {
            assert(m.buffered.contains_key((from + i) as u32));
        }
        assert(m.delivers(seq, frag) =~= fresh);
        assert forall|k: u32| #[trigger] m2.buffered.contains_key(k) implies m2.next_expected < k
            < u32::MAX by {
            assert(m.buffered.contains_key(k));
        }
    } else {
        assert(m.delivers(seq, frag) =~= fresh);
    }
}

/// The whole messages that a run of fragments completes, after `partial` bytes of an
/// unfinished one.
pub open spec fn messages(partial: Seq<u8>, frags: Seq<Fragment>) -> Seq<Seq<u8>>
    decreases frags.len(),
{
    if frags.len() == 0 {
        Seq::empty()
    } else {
        let joined = partial + frags[0].payload;
        if frags[0].end_of_msg {
            seq![joined] + messages(Seq::empty(), frags.drop_first())
        } else {
            messages(joined, frags.drop_first())
        }
    }
}

/// The unfinished message that a run of fragments leaves, after `partial` bytes of an
/// unfinished one.
pub open spec fn partial_after(partial: Seq<u8>, frags: Seq<Fragment>) -> Seq<u8>
    decreases frags.len(),
{
    if frags.len() == 0 {
        partial
    } else if frags[0].end_of_msg {
        partial_after(Seq::empty(), frags.drop_first())
    } else {
        partial_after(partial + frags[0].payload, frags.drop_first())
    }
}

/// A message cut into pieces of `size` bytes, the last of them marked. An empty
/// message is one empty piece.
pub open spec fn fragments_of(msg: Seq<u8>, size: nat) -> Seq<Fragment>
    decreases msg.len(),
{
    if size == 0 || msg.len() <= size {
        seq![Fragment { payload: msg, end_of_msg: true }]
    } else {
        seq![Fragment { payload: msg.take(size as int), end_of_msg: false }] + fragments_of(
            msg.skip(size as int),
            size,
        )
    }
}

/// The fragments of a run of messages, each cut to its own size.
pub open spec fn fragments_of_all(sent: Seq<Seq<u8>>, sizes: Seq<nat>) -> Seq<Fragment>
    decreases sent.len(),
{
    if sent.len() == 0 {
        Seq::empty()
    } else {
        fragments_of(sent[0], sizes[0]) + fragments_of_all(sent.drop_first(), sizes.drop_first())
    }
}

/// Cutting a message into fragments and joining them again gives it back.
pub proof fn fragments_reassemble(msg: Seq<u8>, size: nat)
    ensures
        messages(Seq::empty(), fragments_of(msg, size)) == seq![msg],
        partial_after(Seq::empty(), fragments_of(msg, size)) == Seq::<u8>::empty(),
{
    lemma_fragments_join(Seq::empty(), msg, size, Seq::empty());
    assert(fragments_of(msg, size) + Seq::<Fragment>::empty() =~= fragments_of(msg, size));
    assert(Seq::<u8>::empty() + msg =~= msg);
    assert(seq![msg] + messages(Seq::empty(), Seq::empty()) =~= seq![msg]);
}

/// Fragments of a message, with others behind them.
proof fn lemma_fragments_join(partial: Seq<u8>, msg: Seq<u8>, size: nat, rest: Seq<Fragment>)
    ensures
        messages(partial, fragments_of(msg, size) + rest) == seq![partial + msg] + messages(
            Seq::empty(),
            rest,
        ),
        partial_after(partial, fragments_of(msg, size) + rest) == partial_after(
            Seq::empty(),
            rest,
        ),
    decreases msg.len(),
{
    let all = fragments_of(msg, size) + rest;
    if size == 0 || msg.len() <= size {
        assert(all.drop_first() =~= rest);
    } else {
        let head = msg.take(size as int);
        let tail = msg.skip(size as int);
        assert(all.drop_first() =~= fragments_of(tail, size) + rest);
        lemma_fragments_join(partial + head, tail, size, rest);
        assert(partial + head + tail =~= partial + msg);
    }
}

/// Joining one run of fragments after another.
pub proof fn lemma_messages_append(partial: Seq<u8>, a: Seq<Fragment>, b: Seq<Fragment>)
    ensures
        messages(partial, a + b) == messages(partial, a) + messages(partial_after(partial, a), b),
        partial_after(partial, a + b) == partial_after(partial_after(partial, a), b),
    decreases a.len(),
{
    if a.len() == 0 {
        assert(a + b =~= b);
        assert(messages(partial, a) + messages(partial, b) =~= messages(partial, b));
    } else {
        assert((a + b).drop_first() =~= a.drop_first() + b);
        let joined = partial + a[0].payload;
        if a[0].end_of_msg {
            lemma_messages_append(Seq::empty(), a.drop_first(), b);
            let rest = messages(Seq::empty(), a.drop_first());
            let tail = messages(partial_after(Seq::empty(), a.drop_first()), b);
            assert(seq![joined] + (rest + tail) =~= seq![joined] + rest + tail);
        } else {
            lemma_messages_append(joined, a.drop_first(), b);
        }
    }
}

/// How many fragments a message has.
pub proof fn lemma_fragment_count(msg: Seq<u8>, size: nat)
    requires
        size >= 1,
    ensures
        fragments_of(msg, size).len() == crate::mac::frames_needed(msg.len() as int, size as int),
    decreases msg.len(),
{
    let n = msg.len() as int;
    let d = size as int;
    if n <= d {
        if n == 0 {
            assert((d - 1) / d == 0) by (nonlinear_arith)
                requires
                    d >= 1,
            ;
        } else {
            assert((n + d - 1) / d == 1) by (nonlinear_arith)
                requires
                    1 <= n <= d,
            ;
        }
    } else {
        lemma_fragment_count(msg.skip(d), size);
        assert((n + d - 1) / d == (n - d + d - 1) / d + 1) by (nonlinear_arith)
            requires
                d >= 1,
                n > d,
        ;
        assert((n - d + d - 1) / d >= 1) by (nonlinear_arith)
            requires
                d >= 1,
                n > d,
        ;
    }
}

/// A proper part of a message's fragments completes nothing.
proof fn lemma_partial_message(partial: Seq<u8>, msg: Seq<u8>, size: nat, n: nat)
    requires
        n < fragments_of(msg, size).len(),
    ensures
        messages(partial, fragments_of(msg, size).take(n as int)) == Seq::<Seq<u8>>::empty(),
    decreases msg.len(),
{
    let part = fragments_of(msg, size).take(n as int);
    if n > 0 {
        let tail = msg.skip(size as int);
        assert(part.drop_first() =~= fragments_of(tail, size).take(n - 1));
        lemma_partial_message(partial + msg.take(size as int), tail, size, (n - 1) as nat);
    }
}

/// Some leading messages of `sent`, and no others, have been received.
pub open spec fn is_leading_part(received: Seq<Seq<u8>>, sent: Seq<Seq<u8>>) -> bool {
    received.len() <= sent.len() && received == sent.take(received.len() as int)
}

/// The messages completed by the first fragments of a run of messages are the first
/// of those messages; all of them, once every fragment is there.
pub proof fn messages_complete_in_order(sent: Seq<Seq<u8>>, sizes: Seq<nat>, n: nat)
    requires
        sizes.len() == sent.len(),
        n <= fragments_of_all(sent, sizes).len(),
    ensures
        is_leading_part(messages(Seq::empty(), fragments_of_all(sent, sizes).take(n as int)), sent),
        n == fragments_of_all(sent, sizes).len() ==> messages(
            Seq::empty(),
            fragments_of_all(sent, sizes).take(n as int),
        ) == sent,
    decreases sent.len(),
{
    let all = fragments_of_all(sent, sizes);
    let none = Seq::<u8>::empty();
    if sent.len() == 0 {
        assert(all.take(n as int) =~= Seq::empty());
        assert(sent =~= Seq::empty());
        assert(messages(none, Seq::empty()) =~= sent.take(0));
    } else {
        let head = fragments_of(sent[0], sizes[0]);
        let tail = fragments_of_all(sent.drop_first(), sizes.drop_first());
        if n < head.len() {
            assert(all.take(n as int) =~= head.take(n as int));
            lemma_partial_message(none, sent[0], sizes[0], n);
            assert(Seq::<Seq<u8>>::empty() =~= sent.take(0));
        } else {
            let m = (n - head.len()) as nat;
            assert(all.take(n as int) =~= head + tail.take(m as int));
            lemma_fragments_join(none, sent[0], sizes[0], tail.take(m as int));
            assert(none + sent[0] =~= sent[0]);
            messages_complete_in_order(sent.drop_first(), sizes.drop_first(), m);
            let rest = messages(none, tail.take(m as int));
            let got = messages(none, all.take(n as int));
            assert(got =~= seq![sent[0]] + rest);
            assert(got =~= sent.take(got.len() as int));
            if n == all.len() {
                assert(got =~= sent);
            }
        }
    }
}

/// Reliable in-order delivery: while a sender numbers the fragments of its messages
/// one after another and a receiver gets any of them any number of times in any
/// order, the messages handed to the receiving host are the first of those sent.
pub proof fn host_receives_what_was_sent(
    window: u32,
    events: Seq<RecvEvent>,
    sent: Seq<Seq<u8>>,
    sizes: Seq<nat>,
)
    requires
        window >= 1,
        sizes.len() == sent.len(),
        forall|i: int|
            0 <= i < events.len() ==> match #[trigger] events[i] {
                RecvEvent::Arrive { seq, frag } => {
                    &&& crate::arq::FIRST_SEQ <= seq
                    &&& seq - crate::arq::FIRST_SEQ < fragments_of_all(sent, sizes).len()
                    &&& frag == fragments_of_all(sent, sizes)[seq - crate::arq::FIRST_SEQ]
                },
                RecvEvent::Resize { window } => window >= 1,
            },
    ensures
        is_leading_part(
            messages(Seq::empty(), recv_delivered(RecvModel::fresh(window), events)),
            sent,
        ),
{
    let all = fragments_of_all(sent, sizes);
    let stream = |seq: u32| all[seq - crate::arq::FIRST_SEQ];
    assert(from_stream(events, stream));
    delivery_is_in_order_and_exactly_once(window, events, stream);
    lemma_high_water_within(window, events, all);
    let n = (recv_after(RecvModel::fresh(window), events).next_expected
        - crate::arq::FIRST_SEQ) as nat;
    assert(stream_prefix(stream, n) =~= all.take(n as int));
    messages_complete_in_order(sent, sizes, n);
}

/// The high-water never passes the last fragment that exists.
proof fn lemma_high_water_within(window: u32, events: Seq<RecvEvent>, all: Seq<Fragment>)
    requires
        window >= 1,
        forall|i: int|
            0 <= i < events.len() ==> match #[trigger] events[i] {
                RecvEvent::Arrive { seq, frag } => {
                    &&& crate::arq::FIRST_SEQ <= seq
                    &&& seq - crate::arq::FIRST_SEQ < all.len()
                    &&& frag == all[seq - crate::arq::FIRST_SEQ]
                },
                RecvEvent::Resize { window } => window >= 1,
            },
    ensures
        recv_after(RecvModel::fresh(window), events).wf(),
        recv_after(RecvModel::fresh(window), events).next_expected - crate::arq::FIRST_SEQ
            <= all.len(),
        forall|k: u32| #[trigger]
            recv_after(RecvModel::fresh(window), events).buffered.contains_key(k) ==> k
                - crate::arq::FIRST_SEQ < all.len(),
    decreases events.len(),
{
    if events.len() > 0 {
        let before = events.drop_last();
        assert forall|i: int| 0 <= i < before.len() implies match #[trigger] before[i] {
            RecvEvent::Arrive { seq, frag } => {
                &&& crate::arq::FIRST_SEQ <= seq
                &&& seq - crate::arq::FIRST_SEQ < all.len()
                &&& frag == all[seq - crate::arq::FIRST_SEQ]
            },
            RecvEvent::Resize { window } => window >= 1,
        } by {
            assert(before[i] == events[i]);
        }
        lemma_high_water_within(window, before, all);
        let m = recv_after(RecvModel::fresh(window), before);
        assert(events.last() == events[events.len() - 1]);
        match events.last() {
            RecvEvent::Resize { window: w } => {},
            RecvEvent::Arrive { seq, frag } => {
                let from = (seq + 1) as u32;
                if m.is_next(seq) {
                    crate::arq::lemma_run_end(m.buffered, from);
                    let end = crate::arq::run_end(m.buffered, from);
                    if end > from {
                        assert(m.buffered.contains_key((end - 1) as u32));
                    }
                    assert forall|k: u32| #[trigger]
                        m.accepted(seq, frag).buffered.contains_key(k) implies k > end by {
                        assert(m.buffered.contains_key(k));
                    }
                }
            },
        }
    }
}

/// An acknowledgement taken from the receiver's state never makes the sender forget a
/// frame that the receiver does not hold.
pub proof fn ack_keeps_what_has_not_arrived(s: SendModel, r: RecvModel, sack: u32, k: u32)
    requires
        r.wf(),
        r.is_sack(sack),
        s.frames.contains_key(k),
        k >= r.next_expected,
        !r.buffered.contains_key(k),
    ensures
        s.acked((r.next_expected - 1) as u32, sack).frames.contains_key(k),
        s.acked((r.next_expected - 1) as u32, sack).frames[k] == s.frames[k],
{
}

/// An acknowledgement taken from the receiver's state clears every frame delivered
/// and every frame buffered within reach of the bitmap: only the gaps are sent again.
pub proof fn ack_clears_what_has_arrived(s: SendModel, r: RecvModel, sack: u32, k: u32)
    requires
        r.wf(),
        r.is_sack(sack),
        k < r.next_expected || (r.buffered.contains_key(k) && k - r.next_expected
            < crate::arq::SACK_BITS),
    ensures
        !s.acked((r.next_expected - 1) as u32, sack).frames.contains_key(k),
{
    if k >= r.next_expected {
        let i = (k - r.next_expected) as u32;
        assert(crate::arq::sack_bit(sack, i));
        assert(crate::arq::sack_seq((r.next_expected - 1) as u32, i) == k);
    }
}

/// Applying an acknowledgement twice, or an older cumulative one after it, changes
/// nothing.
pub proof fn stale_and_duplicate_acks_change_nothing(s: SendModel, a: u32, sack: u32, b: u32)
    requires
        s.wf(),
        b <= a,
        a < u32::MAX,
    ensures
        s.acked(a, sack).acked(a, sack) == s.acked(a, sack),
        s.acked(a, sack).acked(b, 0) == s.acked(a, sack),
{
    let once = s.acked(a, sack);
    assert(once.acked(a, sack).frames =~= once.frames);
    assert forall|k: u32| #[trigger] once.frames.contains_key(k) implies !crate::arq::ack_covers(
        b,
        0,
        k,
    ) by {
        assert forall|i: u32| i < crate::arq::SACK_BITS implies !(#[trigger] crate::arq::sack_bit(
            0,
            i,
        )) by {
            assert(0u32 & (1u32 << i) == 0) by (bit_vector);
        }
    }
    assert(once.acked(b, 0).frames =~= once.frames);
}

/// The arrivals of a whole over, in the order in which it was sent.
pub open spec fn over_arrivals(over: Seq<(u32, Seq<u8>)>, ends: Set<u32>) -> Seq<RecvEvent> {
    Seq::new(
        over.len(),
        |i: int|
            RecvEvent::Arrive {
                seq: over[i].0,
                frag: Fragment { payload: over[i].1, end_of_msg: ends.contains(over[i].0) },
            },
    )
}

/// Progress: when an over without gaps, starting at the receiver's high-water, comes
/// through whole, the acknowledgement that follows clears every frame of it.
pub proof fn clean_over_is_acknowledged_whole(
    s: SendModel,
    r: RecvModel,
    ends: Set<u32>,
    sack: u32,
    n: nat,
)
    requires
        r.wf(),
        s.base == r.next_expected,
        n <= s.over().len(),
        forall|i: int| 0 <= i < s.over().len() ==> (#[trigger] s.over()[i]).0 == s.base + i,
        s.base + s.over().len() <= u32::MAX,
        recv_after(r, over_arrivals(s.over(), ends).take(n as int)).is_sack(sack),
    ensures
        recv_after(r, over_arrivals(s.over(), ends).take(n as int)).wf(),
        recv_after(r, over_arrivals(s.over(), ends).take(n as int)).next_expected >= s.base + n,
        forall|i: int|
            0 <= i < n ==> !s.acked(
                (recv_after(r, over_arrivals(s.over(), ends).take(n as int)).next_expected
                    - 1) as u32,
                sack,
            ).frames.contains_key((#[trigger] s.over()[i]).0),
{
    lemma_over_moves_the_high_water(s, r, ends, n);
}

/// The first `n` arrivals of a gapless over move the high-water past them.
proof fn lemma_over_moves_the_high_water(s: SendModel, r: RecvModel, ends: Set<u32>, n: nat)
    requires
        r.wf(),
        s.base == r.next_expected,
        n <= s.over().len(),
        forall|i: int| 0 <= i < s.over().len() ==> (#[trigger] s.over()[i]).0 == s.base + i,
        s.base + s.over().len() <= u32::MAX,
    ensures
        recv_after(r, over_arrivals(s.over(), ends).take(n as int)).wf(),
        recv_after(r, over_arrivals(s.over(), ends).take(n as int)).next_expected >= s.base + n,
    decreases n,
{
    let all = over_arrivals(s.over(), ends);
    if n == 0 {
        assert(all.take(0) =~= Seq::empty());
    } else {
        lemma_over_moves_the_high_water(s, r, ends, (n - 1) as nat);
        assert(all.take(n as int).drop_last() =~= all.take(n - 1));
        let m = recv_after(r, all.take(n - 1));
        let seq = s.over()[n - 1].0;
        let from = (seq + 1) as u32;
        crate::arq::lemma_run_end(m.buffered, from);
        let frag = Fragment { payload: s.over()[n - 1].1, end_of_msg: ends.contains(seq) };
        assert(all.take(n as int).last() == RecvEvent::Arrive { seq, frag });
        assert forall|k: u32| #[trigger]
            m.accepted(seq, frag).buffered.contains_key(k) implies m.accepted(
            seq,
            frag,
        ).next_expected < k < u32::MAX by {
            if m.is_next(seq) {
                assert(m.buffered.contains_key(k));
            }
        }
    }
}

/// A message is cut in order: piece `i` is its bytes from `i` times the size on, as many as
/// the size or as are left, and the last piece and no other is marked.
pub proof fn message_is_cut_in_order(msg: Seq<u8>, size: nat, i: int)
    requires
        size >= 1,
        0 <= i < fragments_of(msg, size).len(),
    ensures
        ({
            let n = fragments_of(msg, size).len() as int;
            let piece = fragments_of(msg, size)[i];
            &&& (n - 1) * size <= msg.len() <= n * size
            &&& piece.end_of_msg <==> i == n - 1
            &&& piece.payload == msg.subrange(
                i * size,
                if i == n - 1 {
                    msg.len() as int
                } else {
                    (i + 1) * size
                },
            )
            &&& i < n - 1 ==> 0 <= i * size <= (i + 1) * size <= msg.len()
            &&& i == n - 1 ==> 0 <= i * size <= msg.len()
        }),
    decreases msg.len(),
{
    let all = fragments_of(msg, size);
    let n = all.len() as int;
    let d = size as int;
    if msg.len() <= size {
        assert(n == 1);
        assert(msg.subrange(0, msg.len() as int) =~= msg);
        assert(0 * d == 0 && 1 * d == d) by (nonlinear_arith);
    } else {
        let tail = msg.skip(d);
        let rest = fragments_of(tail, size);
        assert(n == rest.len() + 1);
        assert((n - 1) * d == (n - 2) * d + d && n * d == (n - 1) * d + d && 0 * d == 0 && 1 * d
            == d) by (nonlinear_arith);
        lemma_some_fragment(tail, size);
        if i == 0 {
            message_is_cut_in_order(tail, size, 0);
            assert(msg.take(d) =~= msg.subrange(0, d));
            assert(0 <= (n - 2) * d) by (nonlinear_arith)
                requires
                    n >= 2,
                    d >= 1,
            ;
        } else {
            message_is_cut_in_order(tail, size, i - 1);
            assert(all[i] == rest[i - 1]);
            assert(i * d == (i - 1) * d + d && (i + 1) * d == i * d + d) by (nonlinear_arith);
            if i == n - 1 {
                assert(tail.subrange((i - 1) * d, tail.len() as int) =~= msg.subrange(
                    i * d,
                    msg.len() as int,
                ));
            } else {
                assert(tail.subrange((i - 1) * d, i * d) =~= msg.subrange(i * d, (i + 1) * d));
            }
        }
    }
}

/// Every message has a piece.
proof fn lemma_some_fragment(msg: Seq<u8>, size: nat)
    ensures
        fragments_of(msg, size).len() >= 1,
{
}

/// The bytes of some fragments, one after another.
pub open spec fn payload_bytes(frags: Seq<Fragment>) -> Seq<u8>
    decreases frags.len(),
{
    if frags.len() == 0 {
        Seq::empty()
    } else {
        frags[0].payload + payload_bytes(frags.drop_first())
    }
}

/// The bytes of some messages, one after another.
pub open spec fn message_bytes(msgs: Seq<Seq<u8>>) -> Seq<u8>
    decreases msgs.len(),
{
    if msgs.len() == 0 {
        Seq::empty()
    } else {
        msgs[0] + message_bytes(msgs.drop_first())
    }
}

/// How many fragments end a message.
pub open spec fn ends_among(frags: Seq<Fragment>) -> nat
    decreases frags.len(),
{
    if frags.len() == 0 {
        0
    } else {
        ends_among(frags.drop_first()) + if frags[0].end_of_msg {
            1nat
        } else {
            0nat
        }
    }
}

/// Reassembly loses no byte, adds none and changes no order, whatever the fragments: the
/// messages that are complete and the rest that is not are the bytes that came. There is a
/// message for each fragment that ends one, and nothing is left behind the last of those.
pub proof fn reassembly_keeps_every_byte(partial: Seq<u8>, frags: Seq<Fragment>)
    ensures
        message_bytes(messages(partial, frags)) + partial_after(partial, frags) == partial
            + payload_bytes(frags),
        messages(partial, frags).len() == ends_among(frags),
        frags.len() > 0 && frags.last().end_of_msg ==> partial_after(partial, frags).len() == 0,
    decreases frags.len(),
{
    if frags.len() == 0 {
        assert(message_bytes(messages(partial, frags)) + partial_after(partial, frags)
            =~= partial + payload_bytes(frags));
    } else {
        let rest = frags.drop_first();
        let joined = partial + frags[0].payload;
        if frags.len() > 1 {
            assert(rest.last() == frags.last());
        } else {
            assert(frags.last() == frags[0]);
            assert(rest =~= Seq::empty());
        }
        if frags[0].end_of_msg {
            reassembly_keeps_every_byte(Seq::empty(), rest);
            let m = messages(partial, frags);
            assert(m.drop_first() =~= messages(Seq::empty(), rest));
            assert(m[0] == joined);
            assert(message_bytes(m) + partial_after(partial, frags) =~= joined + (message_bytes(
                messages(Seq::empty(), rest),
            ) + partial_after(Seq::empty(), rest)));
            assert(Seq::<u8>::empty() + payload_bytes(rest) =~= payload_bytes(rest));
            assert(joined + payload_bytes(rest) =~= partial + payload_bytes(frags));
        } else {
            reassembly_keeps_every_byte(joined, rest);
            assert(joined + payload_bytes(rest) =~= partial + payload_bytes(frags));
        }
    }
}

} // verus!
