//! Two connections that talk to each other: what one host is told is what the other
//! host sent, whatever happens to the frames on the way.
use crate::arq::{Fragment, RecvModel};
use crate::frame::{FrameModel, FrameType};
use crate::session::{ConnModel, ConnState, EventModel};
use crate::session_laws::Input;
use vstd::prelude::*;

verus! {

/// A connection with what has passed between it, its host and the air.
pub struct Station {
    /// The connection.
    pub conn: ConnModel,
    /// The messages that the host sent, in order.
    pub sent: Seq<Seq<u8>>,
    /// The size that each of them was cut to.
    pub sizes: Seq<nat>,
    /// The events that the host took, in order.
    pub told: Seq<EventModel>,
    /// The frames that were transmitted, in order.
    pub aired: Seq<FrameModel>,
}

/// The messages among some events, in order.
pub open spec fn messages_in(events: Seq<EventModel>) -> Seq<Seq<u8>>
    decreases events.len(),
{
    if events.len() == 0 {
        Seq::empty()
    } else {
        let before = messages_in(events.drop_last());
        match events.last() {
            EventModel::DataReceived(m) => before.push(m),
            _ => before,
        }
    }
}

impl Station {
    /// The messages that the host was told of, or is about to be.
    pub open spec fn heard(self) -> Seq<Seq<u8>> {
        messages_in(self.told + self.conn.events)
    }

    /// The fragments of all messages sent, in order.
    pub open spec fn stream(self) -> Seq<Fragment> {
        crate::delivery::fragments_of_all(self.sent, self.sizes)
    }

    /// A connection without a session, through which nothing has passed yet.
    pub open spec fn at_rest(self) -> bool {
        &&& self.conn.wf()
        &&& self.conn.state == ConnState::Closed
        &&& self.conn.send == crate::arq::SendModel::fresh(self.conn.send.window)
        &&& self.conn.recv == RecvModel::fresh(self.conn.recv.window)
        &&& self.conn.partial == Seq::<u8>::empty()
        &&& self.conn.msg_ends == Set::<u32>::empty()
        &&& self.sent == Seq::<Seq<u8>>::empty()
        &&& self.sizes == Seq::<nat>::empty()
        &&& self.aired == Seq::<FrameModel>::empty()
        &&& self.heard() == Seq::<Seq<u8>>::empty()
        &&& forall|i: int|
            0 <= i < self.conn.outbox.len() ==> (#[trigger] self.conn.outbox[i]).frame_type
                != FrameType::Data
    }

    /// The station after one input to its connection.
    pub open spec fn after(self, input: Input) -> Self {
        Station {
            conn: crate::session_laws::step(self.conn, input),
            sent: match input {
                Input::Send { data } => self.sent.push(data),
                _ => self.sent,
            },
            sizes: match input {
                Input::Send { data } => self.sizes.push(self.conn.fragment_size()),
                _ => self.sizes,
            },
            told: if input is Event && self.conn.events.len() > 0 {
                self.told.push(self.conn.events[0])
            } else {
                self.told
            },
            aired: match (input, self.conn.next_frame()) {
                (Input::Transmit { now }, Some(f)) => self.aired.push(f),
                _ => self.aired,
            },
        }
    }
}

/// The input ends the session or the attempt at one, or puts another session in its
/// place.
pub open spec fn session_ends(s: ConnModel, input: Input) -> bool {
    let t = crate::session_laws::step(s, input);
    &&& s.state != ConnState::Closed
    &&& t.state == ConnState::Closed || (s.state == ConnState::Connected && t.conn_id != s.conn_id)
}

/// The input may happen to a station while its session with `peer` lasts: whatever data
/// of the session arrives is a frame that the peer transmitted at some time. It may have
/// been overtaken by others, it may arrive again, and others may never arrive. What else
/// is heard is not restricted.
pub open spec fn may_happen(me: Station, peer: Station, input: Input) -> bool {
    &&& crate::session_laws::admits(me.conn, input)
    &&& !session_ends(me.conn, input)
    &&& input matches Input::Frame { frame, now } ==> (frame.frame_type == FrameType::Data
        && me.conn.in_session(frame) ==> peer.aired.contains(frame))
}

/// One thing that happens to one of two stations.
pub struct Happening {
    /// Whether it happens to the first.
    pub first: bool,
    /// What happens.
    pub input: Input,
}

/// Two stations after one thing happened.
pub open spec fn pair_after_one(p: (Station, Station), h: Happening) -> (Station, Station) {
    if h.first {
        (p.0.after(h.input), p.1)
    } else {
        (p.0, p.1.after(h.input))
    }
}

/// Two stations after a history.
pub open spec fn pair_after(p: (Station, Station), history: Seq<Happening>) -> (Station, Station)
    decreases history.len(),
{
    if history.len() == 0 {
        p
    } else {
        pair_after_one(pair_after(p, history.drop_last()), history.last())
    }
}

/// The history is one of a single session: everything in it may happen where it does.
pub open spec fn one_session(p: (Station, Station), history: Seq<Happening>) -> bool
    decreases history.len(),
{
    history.len() == 0 || {
        let before = pair_after(p, history.drop_last());
        let h = history.last();
        &&& one_session(p, history.drop_last())
        &&& if h.first {
            may_happen(before.0, before.1, h.input)
        } else {
            may_happen(before.1, before.0, h.input)
        }
    }
}

/// A data frame carries the fragment of its number.
spec fn carries(all: Seq<Fragment>, f: FrameModel) -> bool {
    f.frame_type == FrameType::Data ==> {
        &&& crate::arq::FIRST_SEQ <= f.seq <= all.len()
        &&& ConnModel::fragment(f) == all[f.seq - crate::arq::FIRST_SEQ]
    }
}

/// What a station has in hand to send is what its host sent.
spec fn sends_its_stream(me: Station) -> bool {
    &&& me.conn.wf()
    &&& me.sizes.len() == me.sent.len()
    &&& crate::session_laws::numbered(me.conn, me.stream())
    &&& forall|i: int|
        0 <= i < me.conn.outbox.len() ==> carries(me.stream(), #[trigger] me.conn.outbox[i])
    &&& forall|i: int| 0 <= i < me.aired.len() ==> carries(me.stream(), #[trigger] me.aired[i])
}

/// What a station has received is the beginning of a stream, and the rest of what it
/// holds are fragments of that stream.
spec fn receives(s: ConnModel, heard: Seq<Seq<u8>>, all: Seq<Fragment>) -> bool {
    let n = s.recv.next_expected - crate::arq::FIRST_SEQ;
    &&& s.recv.wf()
    &&& n <= all.len()
    &&& forall|k: u32| #[trigger]
        s.recv.buffered.contains_key(k) ==> k - crate::arq::FIRST_SEQ < all.len()
            && s.recv.buffered[k] == all[k - crate::arq::FIRST_SEQ]
    &&& s.partial == crate::delivery::partial_after(Seq::empty(), all.take(n))
    &&& heard == crate::delivery::messages(Seq::empty(), all.take(n))
}

/// Messages among one run of events after another.
proof fn lemma_messages_in_append(a: Seq<EventModel>, b: Seq<EventModel>)
    ensures
        messages_in(a + b) == messages_in(a) + messages_in(b),
    decreases b.len(),
{
    if b.len() == 0 {
        assert(a + b =~= a);
        assert(messages_in(a) + messages_in(b) =~= messages_in(a));
    } else {
        lemma_messages_in_append(a, b.drop_last());
        assert((a + b).drop_last() =~= a + b.drop_last());
        assert((a + b).last() == b.last());
        assert(messages_in(a + b) =~= messages_in(a) + messages_in(b));
    }
}

/// Messages that the host is told of one by one.
proof fn lemma_messages_told(ms: Seq<Seq<u8>>)
    ensures
        messages_in(ms.map_values(|m: Seq<u8>| EventModel::DataReceived(m))) == ms,
    decreases ms.len(),
{
    let events = ms.map_values(|m: Seq<u8>| EventModel::DataReceived(m));
    if ms.len() > 0 {
        lemma_messages_told(ms.drop_last());
        assert(events.drop_last() =~= ms.drop_last().map_values(
            |m: Seq<u8>| EventModel::DataReceived(m),
        ));
        assert(ms.drop_last().push(ms.last()) =~= ms);
    } else {
        assert(messages_in(events) =~= ms);
    }
}

/// One more message cut into fragments.
proof fn lemma_stream_grows(sent: Seq<Seq<u8>>, sizes: Seq<nat>, m: Seq<u8>, size: nat)
    requires
        sizes.len() == sent.len(),
    ensures
        crate::delivery::fragments_of_all(sent.push(m), sizes.push(size))
            == crate::delivery::fragments_of_all(sent, sizes) + crate::delivery::fragments_of(
            m,
            size,
        ),
    decreases sent.len(),
{
    let more = sent.push(m);
    let wider = sizes.push(size);
    let last = crate::delivery::fragments_of(m, size);
    if sent.len() == 0 {
        reveal_with_fuel(crate::delivery::fragments_of_all, 2);
        assert(more.drop_first() =~= Seq::empty());
        assert(crate::delivery::fragments_of_all(more, wider) =~= last);
        assert(crate::delivery::fragments_of_all(sent, sizes) + last =~= last);
    } else {
        lemma_stream_grows(sent.drop_first(), sizes.drop_first(), m, size);
        assert(more.drop_first() =~= sent.drop_first().push(m));
        assert(wider.drop_first() =~= sizes.drop_first().push(size));
        let head = crate::delivery::fragments_of(sent[0], sizes[0]);
        let rest = crate::delivery::fragments_of_all(sent.drop_first(), sizes.drop_first());
        assert(head + (rest + last) =~= (head + rest) + last);
    }
}

/// Nothing is enqueued: what awaits acknowledgement only gets less, and no data is queued
/// beside what was.
spec fn send_side_rests(s: ConnModel, t: ConnModel) -> bool {
    &&& t.send.next_seq == s.send.next_seq
    &&& t.msg_ends == s.msg_ends
    &&& forall|k: u32| #[trigger]
        t.send.frames.contains_key(k) ==> s.send.frames.contains_key(k) && t.send.frames[k]
            == s.send.frames[k]
    &&& forall|i: int|
        0 <= i < t.outbox.len() && (#[trigger] t.outbox[i]).frame_type == FrameType::Data ==> i
            < s.outbox.len() && t.outbox[i] == s.outbox[i]
}

/// Nothing is received.
spec fn receive_side_rests(s: ConnModel, t: ConnModel) -> bool {
    &&& t.recv.next_expected == s.recv.next_expected
    &&& t.recv.buffered == s.recv.buffered
    &&& t.partial == s.partial
    &&& messages_in(t.events) == messages_in(s.events)
}

/// An event that is no message.
proof fn lemma_telling(s: ConnModel, e: EventModel)
    requires
        !(e is DataReceived),
    ensures
        messages_in(s.telling(e).events) == messages_in(s.events),
{
    assert(s.events.push(e).drop_last() =~= s.events);
}

/// Accepting a call moves no data.
proof fn lemma_accepting_rests(s: ConnModel, conn_id: u16, seq: u32, now: u128)
    ensures
        send_side_rests(s, s.accepting(conn_id, seq, now)),
        receive_side_rests(s, s.accepting(conn_id, seq, now)),
{
    lemma_telling(s, EventModel::Connected);
}

/// A call that leaves the session up moves no data.
proof fn lemma_call_rests(s: ConnModel, f: FrameModel, now: u128)
    requires
        s.wf(),
        f.frame_type == FrameType::Conn,
        !session_ends(s, Input::Frame { frame: f, now }),
    ensures
        send_side_rests(s, s.received(f, now)),
        receive_side_rests(s, s.received(f, now)),
{
    if f.id is Some {
        let peer = f.id->0.src;
        let called = ConnModel { remote: Some(peer), ..s };
        lemma_accepting_rests(called, f.conn_id, f.seq, now);
        lemma_accepting_rests(s, f.conn_id, f.seq, now);
        let again = s.control(FrameType::ConnAck, f.seq);
        assert(again.frame_type == FrameType::ConnAck);
        assert(send_side_rests(s, s.queueing(again)));
        if s.state == ConnState::Connected && f.conn_id != s.conn_id {
            let anew = ConnModel { remote: Some(peer), ..s.reset() }.accepting(
                f.conn_id,
                f.seq,
                now,
            );
            assert(anew.conn_id == f.conn_id);
        }
    }
}

/// Moving to another rung moves no data.
proof fn lemma_rung_rests(s: ConnModel, f: FrameModel, now: u128, id: u8)
    requires
        s.wf(),
    ensures
        send_side_rests(s, s.at_rung(id, now)),
        receive_side_rests(s, s.at_rung(id, now)),
        send_side_rests(s, s.heeding(id, now)),
        receive_side_rests(s, s.heeding(id, now)),
        send_side_rests(s, s.hearing(f, now)),
        receive_side_rests(s, s.hearing(f, now)),
        s.hearing(f, now).events == s.events,
        s.hearing(f, now).recv == s.recv.resized(s.hearing(f, now).recv.window),
        s.hearing(f, now).recv.wf(),
{
    let quiet = ConnModel { silent_overs: 0, ..s };
    crate::session_laws::lemma_adapting(quiet, f, now);
}

/// A frame other than a call and other than data of the session, that leaves the session
/// up, moves no data.
proof fn lemma_frame_rests(s: ConnModel, f: FrameModel, now: u128)
    requires
        s.wf(),
        f.frame_type != FrameType::Conn,
        !(f.frame_type == FrameType::Data && s.in_session(f)),
        !session_ends(s, Input::Frame { frame: f, now }),
    ensures
        send_side_rests(s, s.received(f, now)),
        receive_side_rests(s, s.received(f, now)),
{
    match f.frame_type {
        FrameType::ConnAck => {
            let up = ConnModel {
                state: ConnState::Connected,
                floor: crate::session::Floor::Sending,
                silent_overs: 0,
                deadline: None,
                ..s
            }.telling(EventModel::Connected);
            lemma_telling(s, EventModel::Connected);
            if s.remote is Some {
                lemma_rung_rests(up, f, now, f.advised_rung());
            }
        },
        FrameType::Id | FrameType::Ack | FrameType::Keepalive => {
            lemma_rung_rests(s, f, now, 0);
            let h = s.hearing(f, now);
            let acked = ConnModel { send: h.send.acked(f.ack_through, f.sack), ..h };
            assert(send_side_rests(s, acked));
        },
        _ => {},
    }
}

/// The timers, while the session stays up, move no data.
proof fn lemma_timeout_rests(s: ConnModel, now: u128)
    requires
        s.wf(),
        !session_ends(s, Input::Timeout { now }),
    ensures
        send_side_rests(s, s.timed_out(now)),
        receive_side_rests(s, s.timed_out(now)),
{
    if s.state == ConnState::Connected {
        let t = ConnModel { silent_overs: (s.silent_overs + 1) as u32, ..s };
        crate::mac::lemma_base(s.ladder);
        crate::mac::lemma_clamped(s.ladder, crate::mac::base_of(s.ladder) as u8);
        crate::mac::lemma_clamped(s.ladder, (s.current_rung + 1) as u8);
    }
}

/// A frame that carries a fragment of a stream carries it of any longer one.
proof fn lemma_carries_on(all: Seq<Fragment>, more: Seq<Fragment>, f: FrameModel)
    requires
        carries(all, f),
    ensures
        carries(all + more, f),
{
}

/// While nothing is enqueued, a station goes on sending its stream.
proof fn lemma_sending_rests(me: Station, t: ConnModel)
    requires
        sends_its_stream(me),
        send_side_rests(me.conn, t),
        t.wf(),
    ensures
        sends_its_stream(Station { conn: t, ..me }),
{
    let all = me.stream();
    assert forall|i: int| 0 <= i < t.outbox.len() implies carries(
        all,
        #[trigger] t.outbox[i],
    ) by {
        if t.outbox[i].frame_type == FrameType::Data {
            assert(carries(all, me.conn.outbox[i]));
        }
    }
    assert(crate::session_laws::numbered(t, all));
}

/// While nothing is received, a station has received what it had.
proof fn lemma_receiving_rests(me: Station, t: ConnModel, all: Seq<Fragment>)
    requires
        receives(me.conn, me.heard(), all),
        receive_side_rests(me.conn, t),
        t.recv.wf(),
    ensures
        receives(t, (Station { conn: t, ..me }).heard(), all),
{
    lemma_messages_in_append(me.told, me.conn.events);
    lemma_messages_in_append(me.told, t.events);
}

/// What was received of a stream was received of any longer one.
proof fn lemma_receives_longer(
    s: ConnModel,
    heard: Seq<Seq<u8>>,
    all: Seq<Fragment>,
    more: Seq<Fragment>,
)
    requires
        receives(s, heard, all),
    ensures
        receives(s, heard, all + more),
{
    let n = s.recv.next_expected - crate::arq::FIRST_SEQ;
    assert((all + more).take(n) =~= all.take(n));
}

/// The next over carries the stream.
proof fn lemma_primed_carries(me: Station)
    requires
        sends_its_stream(me),
    ensures
        sends_its_stream(Station { conn: me.conn.primed(), ..me }),
        receive_side_rests(me.conn, me.conn.primed()),
{
    let s = me.conn;
    let p = s.primed();
    let all = me.stream();
    if p != s {
        let t = ConnModel { floor: crate::session::Floor::Sending, ..s };
        assert(t.wf() && crate::session_laws::numbered(t, all));
        assert(p.outbox =~= t.over());
        assert forall|i: int| 0 <= i < p.outbox.len() implies carries(
            all,
            #[trigger] p.outbox[i],
        ) by {
            if t.over()[i].frame_type == FrameType::Data {
                crate::session_laws::overs_carry_the_numbered_fragments(t, all, i);
            }
        }
    }
}

/// Transmitting a frame airs what the stream holds, and receives nothing.
proof fn lemma_transmit(me: Station, now: u128)
    requires
        sends_its_stream(me),
    ensures
        sends_its_stream(me.after(Input::Transmit { now })),
        receive_side_rests(me.conn, me.conn.transmitted(now)),
{
    lemma_primed_carries(me);
    let all = me.stream();
    let p = me.conn.primed();
    let after = me.after(Input::Transmit { now });
    crate::session_laws::connection_stays_sound(me.conn, Input::Transmit { now });
    if p.outbox.len() > 0 {
        let f = p.outbox[0];
        assert(after.aired == me.aired.push(f));
        assert(after.conn.outbox =~= p.outbox.drop_first());
        assert(carries(all, f));
        assert forall|i: int| 0 <= i < after.conn.outbox.len() implies carries(
            all,
            #[trigger] after.conn.outbox[i],
        ) by {
            assert(after.conn.outbox[i] == p.outbox[i + 1]);
        }
        assert forall|i: int| 0 <= i < after.aired.len() implies carries(
            all,
            #[trigger] after.aired[i],
        ) by {
            if i < me.aired.len() {
                assert(after.aired[i] == me.aired[i]);
            }
        }
        assert(crate::session_laws::numbered(after.conn, all));
    }
}

/// Sending a message makes the stream longer.
proof fn lemma_send(me: Station, data: Seq<u8>)
    requires
        sends_its_stream(me),
        me.conn.has_room(data.len() as int),
    ensures
        sends_its_stream(me.after(Input::Send { data })),
        receive_side_rests(me.conn, me.conn.sending(data)),
        me.after(Input::Send { data }).stream() == me.stream() + crate::delivery::fragments_of(
            data,
            me.conn.fragment_size(),
        ),
{
    let size = me.conn.fragment_size();
    let all = me.stream();
    let more = crate::delivery::fragments_of(data, size);
    let after = me.after(Input::Send { data });
    crate::session_laws::connection_stays_sound(me.conn, Input::Send { data });
    crate::session_laws::sent_message_takes_the_next_numbers(me.conn, all, data);
    lemma_stream_grows(me.sent, me.sizes, data, size);
    assert forall|i: int| 0 <= i < after.conn.outbox.len() implies carries(
        all + more,
        #[trigger] after.conn.outbox[i],
    ) by {
        lemma_carries_on(all, more, me.conn.outbox[i]);
    }
    assert forall|i: int| 0 <= i < after.aired.len() implies carries(
        all + more,
        #[trigger] after.aired[i],
    ) by {
        lemma_carries_on(all, more, me.aired[i]);
    }
}

/// A fragment of a stream that arrives delivers the next part of the stream.
proof fn lemma_arrival(m: RecvModel, seq: u32, frag: Fragment, all: Seq<Fragment>)
    requires
        m.wf(),
        m.next_expected - crate::arq::FIRST_SEQ <= all.len(),
        forall|k: u32| #[trigger]
            m.buffered.contains_key(k) ==> k - crate::arq::FIRST_SEQ < all.len() && m.buffered[k]
                == all[k - crate::arq::FIRST_SEQ],
        crate::arq::FIRST_SEQ <= seq <= all.len(),
        frag == all[seq - crate::arq::FIRST_SEQ],
    ensures
        ({
            let after = m.accepted(seq, frag);
            &&& after.wf()
            &&& m.next_expected <= after.next_expected
            &&& after.next_expected - crate::arq::FIRST_SEQ <= all.len()
            &&& forall|k: u32| #[trigger]
                after.buffered.contains_key(k) ==> k - crate::arq::FIRST_SEQ < all.len()
                    && after.buffered[k] == all[k - crate::arq::FIRST_SEQ]
            &&& m.delivers(seq, frag) == all.subrange(
                m.next_expected - crate::arq::FIRST_SEQ,
                after.next_expected - crate::arq::FIRST_SEQ,
            )
        }),
{
    let stream = |k: u32| all[k - crate::arq::FIRST_SEQ];
    crate::delivery::lemma_accept_extends_the_stream(m, seq, frag, stream);
    let after = m.accepted(seq, frag);
    if m.is_next(seq) {
        let from = (seq + 1) as u32;
        crate::arq::lemma_run_end(m.buffered, from);
        let end = crate::arq::run_end(m.buffered, from);
        if end > from {
            assert(m.buffered.contains_key((end - 1) as u32));
        }
        assert forall|k: u32| #[trigger] after.buffered.contains_key(k) implies k
            - crate::arq::FIRST_SEQ < all.len() by {
            assert(m.buffered.contains_key(k));
        }
    }
    assert(m.delivers(seq, frag) =~= all.subrange(
        m.next_expected - crate::arq::FIRST_SEQ,
        after.next_expected - crate::arq::FIRST_SEQ,
    ));
}

/// Data of the session that the peer transmitted continues what was received of its
/// stream.
proof fn lemma_data(me: Station, all: Seq<Fragment>, f: FrameModel, now: u128)
    requires
        sends_its_stream(me),
        receives(me.conn, me.heard(), all),
        f.frame_type == FrameType::Data,
        f.valid(),
        me.conn.in_session(f),
        carries(all, f),
    ensures
        send_side_rests(me.conn, me.conn.received(f, now)),
        receives(
            me.conn.received(f, now),
            (Station { conn: me.conn.received(f, now), ..me }).heard(),
            all,
        ),
{
    let s = me.conn;
    let none = Seq::<u8>::empty();
    lemma_rung_rests(s, f, now, 0);
    let h = s.hearing(f, now);
    let frag = ConnModel::fragment(f);
    lemma_arrival(h.recv, f.seq, frag, all);
    let n = h.recv.next_expected - crate::arq::FIRST_SEQ;
    let m = h.recv.accepted(f.seq, frag).next_expected - crate::arq::FIRST_SEQ;
    let run = h.recv.delivers(f.seq, frag);
    assert(all.take(n) + run =~= all.take(m));
    crate::delivery::lemma_messages_append(none, all.take(n), run);
    let ms = crate::delivery::messages(h.partial, run);
    let news = ms.map_values(|m: Seq<u8>| EventModel::DataReceived(m));
    let t = s.received(f, now);
    assert(t.events == s.events + news);
    lemma_messages_told(ms);
    lemma_messages_in_append(me.told, s.events);
    lemma_messages_in_append(me.told, s.events + news);
    lemma_messages_in_append(s.events, news);
    assert(messages_in(me.told) + (messages_in(s.events) + ms) =~= (messages_in(me.told)
        + messages_in(s.events)) + ms);
}

/// Both stations send their streams, and each has received of the other's.
spec fn in_order(a: Station, b: Station) -> bool {
    &&& sends_its_stream(a)
    &&& sends_its_stream(b)
    &&& receives(a.conn, a.heard(), b.stream())
    &&& receives(b.conn, b.heard(), a.stream())
}

/// Nothing that may happen to a station disturbs the order.
proof fn lemma_stays_in_order(me: Station, peer: Station, input: Input)
    requires
        in_order(me, peer),
        may_happen(me, peer, input),
    ensures
        in_order(me.after(input), peer),
{
    let s = me.conn;
    let t = crate::session_laws::step(s, input);
    let after = me.after(input);
    crate::session_laws::connection_stays_sound(s, input);
    match input {
        Input::Send { data } => {
            lemma_send(me, data);
            lemma_receiving_rests(me, t, peer.stream());
            lemma_receives_longer(
                peer.conn,
                peer.heard(),
                me.stream(),
                crate::delivery::fragments_of(data, s.fragment_size()),
            );
        },
        Input::Transmit { now } => {
            lemma_transmit(me, now);
            lemma_receiving_rests(me, t, peer.stream());
        },
        Input::Event => {
            lemma_sending_rests(me, t);
            if s.events.len() > 0 {
                assert(after.told + t.events =~= me.told + s.events);
            }
        },
        Input::Frame { frame, now } => {
            if frame.frame_type == FrameType::Data && s.in_session(frame) {
                let i = choose|i: int| 0 <= i < peer.aired.len() && peer.aired[i] == frame;
                assert(carries(peer.stream(), peer.aired[i]));
                lemma_data(me, peer.stream(), frame, now);
            } else {
                if frame.frame_type == FrameType::Conn {
                    lemma_call_rests(s, frame, now);
                } else {
                    lemma_frame_rests(s, frame, now);
                }
                lemma_receiving_rests(me, t, peer.stream());
            }
            lemma_sending_rests(me, t);
        },
        Input::Timeout { now } => {
            lemma_timeout_rests(s, now);
            lemma_sending_rests(me, t);
            lemma_receiving_rests(me, t, peer.stream());
        },
        _ => {
            assert(send_side_rests(s, t));
            assert(receive_side_rests(s, t));
            lemma_sending_rests(me, t);
            lemma_receiving_rests(me, t, peer.stream());
        },
    }
}

/// Stations at rest are in order.
proof fn lemma_rest_is_in_order(me: Station, peer: Station)
    requires
        me.at_rest(),
        peer.at_rest(),
    ensures
        in_order(me, peer),
{
    assert(me.stream() =~= Seq::empty());
    assert(peer.stream() =~= Seq::empty());
    assert(peer.stream().take(0) =~= Seq::empty());
    assert(me.stream().take(0) =~= Seq::empty());
}

/// A history of one session leaves two stations in order.
proof fn lemma_session_in_order(p: (Station, Station), history: Seq<Happening>)
    requires
        p.0.at_rest(),
        p.1.at_rest(),
        one_session(p, history),
    ensures
        in_order(pair_after(p, history).0, pair_after(p, history).1),
    decreases history.len(),
{
    if history.len() == 0 {
        lemma_rest_is_in_order(p.0, p.1);
    } else {
        lemma_session_in_order(p, history.drop_last());
        let before = pair_after(p, history.drop_last());
        let h = history.last();
        if h.first {
            lemma_stays_in_order(before.0, before.1, h.input);
        } else {
            lemma_stays_in_order(before.1, before.0, h.input);
        }
    }
}

/// Reliable delivery between two stations: at any time in a session, and whatever the
/// air loses, repeats and reorders, the messages that each host is told of are the first
/// of those that the other host sent, in order, each once and whole.
pub proof fn each_host_is_told_what_the_other_sent(
    p: (Station, Station),
    history: Seq<Happening>,
)
    requires
        p.0.at_rest(),
        p.1.at_rest(),
        one_session(p, history),
    ensures
        crate::delivery::is_leading_part(
            pair_after(p, history).1.heard(),
            pair_after(p, history).0.sent,
        ),
        crate::delivery::is_leading_part(
            pair_after(p, history).0.heard(),
            pair_after(p, history).1.sent,
        ),
{
    lemma_session_in_order(p, history);
    let (a, b) = pair_after(p, history);
    crate::delivery::messages_complete_in_order(
        a.sent,
        a.sizes,
        (b.conn.recv.next_expected - crate::arq::FIRST_SEQ) as nat,
    );
    crate::delivery::messages_complete_in_order(
        b.sent,
        b.sizes,
        (a.conn.recv.next_expected - crate::arq::FIRST_SEQ) as nat,
    );
}

/// Once every fragment that a station sent has come in at the other, the other host is
/// told of every message.
pub proof fn whole_stream_is_told_whole(p: (Station, Station), history: Seq<Happening>)
    requires
        p.0.at_rest(),
        p.1.at_rest(),
        one_session(p, history),
        pair_after(p, history).1.conn.recv.next_expected == pair_after(
            p,
            history,
        ).0.conn.send.next_seq,
    ensures
        pair_after(p, history).1.heard() == pair_after(p, history).0.sent,
{
    lemma_session_in_order(p, history);
    let (a, b) = pair_after(p, history);
    crate::delivery::messages_complete_in_order(
        a.sent,
        a.sizes,
        (b.conn.recv.next_expected - crate::arq::FIRST_SEQ) as nat,
    );
}

/// A connection as it is constructed is at rest.
pub proof fn connections_start_at_rest(
    local: Seq<char>,
    remote: Option<Seq<char>>,
    learns_remote: bool,
    conn_id: u16,
    ladder: Seq<crate::mac::Rung>,
    window: u32,
)
    requires
        crate::callsign::is_callsign(local),
        remote matches Some(r) ==> crate::callsign::is_callsign(r),
        !learns_remote ==> remote is Some,
        crate::mac::ladder_wf(ladder),
        window >= 1,
    ensures
        (Station {
            conn: ConnModel::fresh(local, remote, learns_remote, conn_id, ladder, window),
            sent: Seq::empty(),
            sizes: Seq::empty(),
            told: Seq::empty(),
            aired: Seq::empty(),
        }).at_rest(),
{
    crate::mac::lemma_base(ladder);
}

} // verus!
