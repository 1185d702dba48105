//! What holds of a connection through all of its life.
use crate::arq::Fragment;
use crate::frame::{FrameModel, FrameType};
use crate::session::{ConnModel, ConnState, EventModel, Floor};
use crate::transport::FrameErrorRate;
use vstd::prelude::*;

verus! {

/// Everything that can happen to a connection.
pub enum Input {
    /// The host asks to connect.
    Connect {
        /// The time.
        now: u128,
    },
    /// The host sends a message.
    Send {
        /// The message.
        data: Seq<u8>,
    },
    /// The host asks to disconnect.
    Disconnect {
        /// The time.
        now: u128,
    },
    /// A frame arrives.
    Frame {
        /// The frame.
        frame: FrameModel,
        /// The time.
        now: u128,
    },
    /// The timers are advanced.
    Timeout {
        /// The time.
        now: u128,
    },
    /// The next frame is taken for transmission.
    Transmit {
        /// The time.
        now: u128,
    },
    /// The host takes an event.
    Event,
    /// The channel is measured.
    Measure {
        /// SNR, where there is one.
        snr: Option<i32>,
        /// Error rate.
        fer: FrameErrorRate,
        /// Frames behind it.
        samples: u32,
    },
}

/// A connection after one input.
pub open spec fn step(s: ConnModel, input: Input) -> ConnModel {
    match input {
        Input::Connect { now } => s.connecting(now),
        Input::Send { data } => s.sending(data),
        Input::Disconnect { now } => s.disconnecting(now),
        Input::Frame { frame, now } => s.received(frame, now),
        Input::Timeout { now } => s.timed_out(now),
        Input::Transmit { now } => s.transmitted(now),
        Input::Event => if s.events.len() > 0 {
            ConnModel { events: s.events.drop_first(), ..s }
        } else {
            s
        },
        Input::Measure { snr, fer, samples } => s.measured(snr, fer, samples),
    }
}

/// Inputs that a connection takes: it connects to a peer that it knows, its sequence
/// space has room for what is sent, and frames carry valid callsigns.
pub open spec fn admits(s: ConnModel, input: Input) -> bool {
    match input {
        Input::Connect { now } => s.remote is Some,
        Input::Send { data } => s.has_room(data.len() as int),
        Input::Frame { frame, now } => frame.valid(),
        _ => true,
    }
}

/// Moving to another rung keeps the connection sound.
pub proof fn lemma_at_rung(s: ConnModel, id: u8, now: u128)
    requires
        s.wf(),
    ensures
        s.at_rung(id, now).wf(),
        s.at_rung(id, now).send.frames == s.send.frames,
        s.at_rung(id, now).send.next_seq == s.send.next_seq,
        s.at_rung(id, now).recv.next_expected == s.recv.next_expected,
        s.at_rung(id, now).recv.buffered == s.recv.buffered,
        s.deadline is Some <==> s.at_rung(id, now).deadline is Some,
{
    crate::mac::lemma_clamped(s.ladder, id);
}

/// An acknowledgement keeps the send window sound.
proof fn lemma_acked(s: ConnModel, ack_through: u32, sack: u32)
    requires
        s.send.wf(),
    ensures
        s.send.acked(ack_through, sack).wf(),
{
    let after = s.send.acked(ack_through, sack);
    assert(after.frames.dom() =~= s.send.frames.dom().filter(
        |k: u32| !crate::arq::ack_covers(ack_through, sack, k),
    ));
    s.send.frames.dom().lemma_len_filter(|k: u32| !crate::arq::ack_covers(ack_through, sack, k));
    assert forall|k: u32| #[trigger]
        after.frames.contains_key(k) implies crate::arq::FIRST_SEQ <= k < after.next_seq by {
        assert(s.send.frames.contains_key(k));
    }
}

/// An arrival keeps the receive buffer sound.
proof fn lemma_accepted(s: ConnModel, seq: u32, frag: Fragment)
    requires
        s.recv.wf(),
    ensures
        s.recv.accepted(seq, frag).wf(),
{
    let m = s.recv;
    if m.is_next(seq) {
        crate::arq::lemma_run_end(m.buffered, (seq + 1) as u32);
        assert forall|k: u32| #[trigger] m.accepted(seq, frag).buffered.contains_key(k) implies m.accepted(
            seq,
            frag,
        ).next_expected < k < u32::MAX by {
            assert(m.buffered.contains_key(k));
        }
    }
}

/// Enqueueing keeps the send window sound and takes consecutive numbers.
pub proof fn lemma_enqueued_all(w: crate::arq::SendModel, frags: Seq<Fragment>)
    requires
        w.wf(),
        w.next_seq + frags.len() <= u32::MAX,
    ensures
        crate::session::enqueued_all(w, frags).wf(),
        crate::session::enqueued_all(w, frags).next_seq == w.next_seq + frags.len(),
        forall|k: u32|
            #[trigger] crate::session::enqueued_all(w, frags).frames.contains_key(k) <==> (
            w.frames.contains_key(k) || w.next_seq <= k < w.next_seq + frags.len()),
        forall|k: u32|
            w.frames.contains_key(k) ==> #[trigger] crate::session::enqueued_all(
                w,
                frags,
            ).frames[k] == w.frames[k],
        forall|k: u32|
            w.next_seq <= k < w.next_seq + frags.len() ==> #[trigger] crate::session::enqueued_all(
                w,
                frags,
            ).frames[k] == frags[k - w.next_seq].payload,
    decreases frags.len(),
{
    if frags.len() > 0 {
        lemma_enqueued_all(w, frags.drop_last());
    }
}

/// Closing keeps the connection sound.
proof fn lemma_closed(s: ConnModel, e: EventModel)
    requires
        crate::callsign::is_callsign(s.local),
        s.remote matches Some(r) ==> crate::callsign::is_callsign(r),
        !s.learns_remote ==> s.remote is Some,
        crate::mac::ladder_wf(s.ladder),
        s.initial_window >= 1,
    ensures
        s.closed(e).wf(),
        s.reset().send.wf(),
        s.reset().recv.wf(),
{
    crate::mac::lemma_base(s.ladder);
}

/// Accepting a call keeps the connection sound.
proof fn lemma_accepting(s: ConnModel, conn_id: u16, seq: u32, now: u128)
    requires
        (ConnModel { state: ConnState::Closed, ..s }).wf(),
        s.remote is Some,
    ensures
        s.accepting(conn_id, seq, now).wf(),
{
}

/// A call keeps the connection sound.
proof fn lemma_sound_conn(s: ConnModel, f: FrameModel, now: u128)
    requires
        s.wf(),
        f.valid(),
    ensures
        s.on_conn(f, now).wf(),
{
    if f.id is Some {
        let peer = f.id->0.src;
        lemma_closed(s, EventModel::Connected);
        if s.state == ConnState::Closed && s.learns_remote {
            lemma_accepting(ConnModel { remote: Some(peer), ..s }, f.conn_id, f.seq, now);
        } else if s.state != ConnState::Disconnecting && s.remote == Some(peer) {
            lemma_accepting(s, f.conn_id, f.seq, now);
            lemma_accepting(
                ConnModel { remote: Some(peer), ..s.reset() },
                f.conn_id,
                f.seq,
                now,
            );
        }
    }
}

/// The frames of a session keep the connection sound.
proof fn lemma_sound_session(s: ConnModel, f: FrameModel, now: u128)
    requires
        s.wf(),
        s.state == ConnState::Connected,
    ensures
        s.on_data(f, now).wf(),
        s.on_ack(f, now).wf(),
        s.on_keepalive(f, now).wf(),
{
    let heard = ConnModel { silent_overs: 0, ..s };
    lemma_adapting(heard, f, now);
    let h = heard.adapting(f, now);
    lemma_acked(h, f.ack_through, f.sack);
    lemma_accepted(h, f.seq, ConnModel::fragment(f));
}

/// Any inbound frame keeps the connection sound.
proof fn lemma_sound_frame(s: ConnModel, f: FrameModel, now: u128)
    requires
        s.wf(),
        f.valid(),
    ensures
        s.received(f, now).wf(),
{
    match f.frame_type {
        FrameType::Conn => lemma_sound_conn(s, f, now),
        FrameType::ConnAck => {
            if s.remote is Some {
                let up = ConnModel {
                    state: ConnState::Connected,
                    floor: Floor::Sending,
                    silent_overs: 0,
                    deadline: None,
                    ..s
                }.telling(EventModel::Connected);
                lemma_heeding(up, f.advised_rung(), now);
            }
        },
        FrameType::Disc => lemma_closed(
            s.queueing(s.control(FrameType::DiscAck, 0)),
            EventModel::Disconnected,
        ),
        FrameType::DiscAck => lemma_closed(s, EventModel::Disconnected),
        FrameType::Nak => {},
        _ => {
            if s.state == ConnState::Connected {
                lemma_sound_session(s, f, now);
                assert(s.on_id(f, now) == s.on_keepalive(f, now) || s.on_id(f, now) == s);
            }
        },
    }
}

/// The timers keep the connection sound.
proof fn lemma_sound_timeout(s: ConnModel, now: u128)
    requires
        s.wf(),
    ensures
        s.timed_out(now).wf(),
{
    crate::mac::lemma_base(s.ladder);
    lemma_closed(s, EventModel::ConnectFailed);
    lemma_closed(s, EventModel::Disconnected);
    if s.state == ConnState::Connected {
        let t = ConnModel { silent_overs: (s.silent_overs + 1) as u32, ..s };
        lemma_closed(t, EventModel::PeerLost);
        let quiet = ConnModel { silent_overs: 0, ..s };
        lemma_at_rung(quiet, crate::mac::base_of(s.ladder) as u8, now);
        lemma_at_rung(quiet, (s.current_rung + 1) as u8, now);
        crate::mac::lemma_clamped(s.ladder, crate::mac::base_of(s.ladder) as u8);
        crate::mac::lemma_clamped(s.ladder, (s.current_rung + 1) as u8);
    }
}

/// Every input keeps a connection sound.
pub proof fn connection_stays_sound(s: ConnModel, input: Input)
    requires
        s.wf(),
        admits(s, input),
    ensures
        step(s, input).wf(),
{
    match input {
        Input::Send { data } => {
            crate::delivery::lemma_fragment_count(data, s.fragment_size());
            lemma_enqueued_all(s.send, crate::delivery::fragments_of(data, s.fragment_size()));
        },
        Input::Timeout { now } => lemma_sound_timeout(s, now),
        Input::Frame { frame, now } => lemma_sound_frame(s, frame, now),
        _ => {},
    }
}

pub proof fn lemma_heeding(s: ConnModel, rung: u8, now: u128)
    requires
        s.wf(),
    ensures
        s.heeding(rung, now).wf(),
        s.heeding(rung, now).send.frames == s.send.frames,
        s.heeding(rung, now).send.next_seq == s.send.next_seq,
        s.heeding(rung, now).recv.next_expected == s.recv.next_expected,
        s.heeding(rung, now).recv.buffered == s.recv.buffered,
        s.deadline is Some <==> s.heeding(rung, now).deadline is Some,
{
    lemma_at_rung(s, rung, now);
    lemma_at_rung(s, s.advice(), now);
}

pub proof fn lemma_adapting(s: ConnModel, frame: FrameModel, now: u128)
    requires
        s.wf(),
    ensures
        s.adapting(frame, now).wf(),
        s.adapting(frame, now).send.frames == s.send.frames,
        s.adapting(frame, now).send.next_seq == s.send.next_seq,
        s.adapting(frame, now).recv.next_expected == s.recv.next_expected,
        s.adapting(frame, now).recv.buffered == s.recv.buffered,
        s.deadline is Some <==> s.adapting(frame, now).deadline is Some,
{
    lemma_heeding(s, frame.advised_rung(), now);
    lemma_at_rung(s, frame.mode, now);
}

/// A mode change keeps the sequence stream: no frame awaiting acknowledgement and no
/// fragment received out of order is lost, and no number moves.
pub proof fn mode_change_keeps_the_stream(s: ConnModel, id: u8, now: u128)
    requires
        s.wf(),
    ensures
        s.at_rung(id, now).send.frames == s.send.frames,
        s.at_rung(id, now).send.base == s.send.base,
        s.at_rung(id, now).send.next_seq == s.send.next_seq,
        s.at_rung(id, now).recv.next_expected == s.recv.next_expected,
        s.at_rung(id, now).recv.buffered == s.recv.buffered,
        s.at_rung(id, now).partial == s.partial,
        s.at_rung(id, now).msg_ends == s.msg_ends,
        s.ladder[s.at_rung(id, now).current_rung as int].available,
{
    crate::mac::lemma_clamped(s.ladder, id);
}

/// The worse direction wins: acting on feedback never leaves the link on a rung that is
/// faster than the peer's recommendation or our own, as far down as the base.
pub proof fn worse_direction_wins(s: ConnModel, peer_rx_rung: u8, now: u128)
    requires
        s.wf(),
    ensures
        ({
            let to = s.heeding(peer_rx_rung, now).current_rung as int;
            let base = crate::mac::base_of(s.ladder);
            &&& s.ladder[to].available
            &&& to >= peer_rx_rung || to == base
            &&& to >= s.advice() || to == base
        }),
{
    crate::mac::lemma_base(s.ladder);
    crate::mac::lemma_clamped(s.ladder, peer_rx_rung);
    crate::mac::lemma_clamped(s.ladder, s.advice());
}

/// A rise of the SNR is taken half way, to within half a unit: the estimate never passes
/// the reading, and moves while it is below it, so that a steady reading is reached.
pub proof fn rising_estimate_goes_half_way(e: i64, reading: i32)
    requires
        e <= reading * crate::session::SNR_UNITS,
    ensures
        ({
            let level = reading * crate::session::SNR_UNITS;
            let after = crate::session::smoothed(Some(e), reading);
            &&& 0 <= 2 * after - (level + e) <= 1
            &&& e <= after <= level
            &&& e < level ==> e < after
        }),
{
}

/// An estimate clears a threshold of whole thousandths exactly where its whole thousandths
/// do.
pub proof fn whole_thousandths_decide(e: i64, threshold: int)
    requires
        crate::session::is_estimate(e),
    ensures
        e >= threshold * crate::session::SNR_UNITS <==> crate::session::whole_mdb(Some(e))->0
            >= threshold,
{
}

/// While a session is up, a frame of another session changes nothing, unless it is a
/// call.
pub proof fn other_sessions_change_nothing(s: ConnModel, f: FrameModel, now: u128)
    requires
        s.state == ConnState::Connected,
        f.frame_type != FrameType::Conn,
        f.conn_id != s.conn_id,
    ensures
        s.received(f, now) == s,
{
}

/// Without a session, only a call changes anything: no other frame reaches the host or
/// moves the ARQ of a closed connection.
pub proof fn closed_connection_hears_only_calls(s: ConnModel, f: FrameModel, now: u128)
    requires
        s.state == ConnState::Closed,
        f.frame_type != FrameType::Conn,
    ensures
        s.received(f, now) == s,
{
}

/// A call is heard only if it names this station and carries a live session id; and
/// while a session is up, only if it comes from the peer of that session.
pub proof fn misdirected_calls_change_nothing(s: ConnModel, f: FrameModel, now: u128)
    requires
        f.frame_type == FrameType::Conn,
        f.id is None || f.id->0.dst != s.local || f.conn_id == crate::frame::CONN_ID_RESERVED || (
        s.state == ConnState::Connected && s.remote != Some(f.id->0.src)),
    ensures
        s.received(f, now) == s,
{
}

/// Frames that carry callsigns are heard only if those name this station and its peer.
pub proof fn cross_addressed_frames_change_nothing(s: ConnModel, f: FrameModel, now: u128)
    requires
        s.wf(),
        f.frame_type.bears_id(),
        f.frame_type != FrameType::Conn,
        f.id is None || f.id->0.dst != s.local || s.remote != Some(f.id->0.src),
    ensures
        s.received(f, now) == s,
{
}

/// A peer that repeats its call for the running session is answered again, and nothing
/// else happens.
pub proof fn repeated_call_is_answered_again(s: ConnModel, f: FrameModel, now: u128)
    requires
        s.state == ConnState::Connected,
        f.frame_type == FrameType::Conn,
        f.conn_id == s.conn_id,
        f.conn_id != crate::frame::CONN_ID_RESERVED,
        f.id is Some,
        f.id->0.dst == s.local,
        s.remote == Some(f.id->0.src),
    ensures
        s.received(f, now) == s.queueing(s.control(FrameType::ConnAck, f.seq)),
{
}

/// Closing leaves nothing of the session behind: apart from the session id, the profile
/// of the last rung and what is still queued, the connection is as it was constructed.
pub proof fn closing_starts_over(s: ConnModel, e: EventModel)
    requires
        s.wf(),
    ensures
        s.closed(e) == (ConnModel {
            profile: s.profile,
            outbox: s.outbox,
            events: s.events.push(e),
            ..ConnModel::fresh(
                s.local,
                if s.learns_remote {
                    None
                } else {
                    s.remote
                },
                s.learns_remote,
                s.conn_id,
                s.ladder,
                s.initial_window,
            )
        }),
{
}

/// The jitter on the turn-recovery timer stays within half of it.
pub proof fn jitter_is_bounded(s: ConnModel)
    ensures
        s.jitter() <= s.profile.turn_recovery_nanos() / 2,
{
    let tr = s.profile.turn_recovery_nanos();
    let half = (tr / crate::time::NANOS_PER_MILLI) / 2;
    let whole: u128 = if half < 1 {
        1
    } else {
        half
    };
    let span = jitter_span_of(whole);
    assert(jitter_span_of(whole) <= whole) by {
        assert(whole as u64 <= whole) by (bit_vector);
    }
    if span != 0 {
        assert(s.jitter_ms() < span);
        if half < 1 {
            assert(1u128 as u64 == 1) by (bit_vector);
            assert(s.jitter_ms() == 0);
        }
    }
}

spec fn jitter_span_of(whole: u128) -> u64 {
    whole as u64
}

/// Nothing waits without a timer: a station that listens for its peer, for an acceptance
/// or for the end of a session has one running.
pub open spec fn has_a_way_on(s: ConnModel) -> bool {
    &&& s.state == ConnState::Connecting ==> s.deadline is Some
    &&& s.state == ConnState::Disconnecting ==> s.deadline is Some
    &&& s.state == ConnState::Connected && s.floor == Floor::Listening ==> s.deadline is Some
}

/// No input leaves a connection waiting for something that no timer would end.
pub proof fn link_never_waits_forever(s: ConnModel, input: Input)
    requires
        s.wf(),
        admits(s, input),
        has_a_way_on(s),
    ensures
        has_a_way_on(step(s, input)),
{
    match input {
        Input::Frame { frame, now } => {
            let heard = ConnModel { silent_overs: 0, ..s };
            lemma_adapting(heard, frame, now);
        },
        _ => {},
    }
}

/// How many more unanswered overs a session survives.
pub open spec fn patience(s: ConnModel) -> int {
    if s.current_rung == crate::mac::base_of(s.ladder) {
        1 + crate::session::DEAD_OVERS_TOLERATED - s.silent_overs
    } else {
        2 + crate::session::DEAD_OVERS_TOLERATED + (if s.silent_overs
            < crate::session::DOWNSHIFT_TO_BASE_OVERS {
            crate::session::DOWNSHIFT_TO_BASE_OVERS - s.silent_overs
        } else {
            0
        })
    }
}

/// Silence is reported: each over that goes unanswered either ends the session with
/// [`EventModel::PeerLost`], or uses up some of the patience left and takes the floor
/// back to retransmit.
pub proof fn silence_ends_the_session(s: ConnModel, now: u128)
    requires
        s.wf(),
        s.state == ConnState::Connected,
    ensures
        patience(s) >= 1,
        ({
            let t = s.unanswered(now);
            ||| t.state == ConnState::Closed && t.events == s.events.push(EventModel::PeerLost)
            ||| t.state == ConnState::Connected && t.floor == Floor::Sending && patience(t)
                < patience(s)
        }),
{
    let base = crate::mac::base_of(s.ladder);
    crate::mac::lemma_base(s.ladder);
    crate::mac::lemma_clamped(s.ladder, base as u8);
    crate::mac::lemma_clamped(s.ladder, (s.current_rung + 1) as u8);
}

/// A call is repeated a bounded number of times, and then reported as failed.
pub proof fn unanswered_call_fails(s: ConnModel, now: u128)
    requires
        s.wf(),
        s.state == ConnState::Connecting,
        s.deadline matches Some(d) && now >= d,
    ensures
        ({
            let t = s.timed_out(now);
            ||| t.state == ConnState::Closed && t.events == s.events.push(EventModel::ConnectFailed)
            ||| t.state == ConnState::Connecting && t.conn_retries == s.conn_retries + 1
                && t.outbox.last().frame_type == FrameType::Conn
        }),
{
}

/// Half-duplex: while the peer holds the floor, no over is begun; nor is one on a free
/// floor without something to say.
pub proof fn no_over_without_the_floor(s: ConnModel)
    requires
        s.state == ConnState::Connected,
        s.outbox.len() == 0,
        s.floor == Floor::Listening || (s.floor == Floor::Idle && !s.wants_floor()),
    ensures
        s.next_frame() is None,
{
}

/// The flags of a frame before it is marked as the last of its over.
proof fn lemma_unmarked(f: u8, rung: u8)
    ensures
        ((0u8 & !0x1Cu8) | ((rung << 2u8) & 0x1Cu8)) & 1u8 == 0,
        (((0u8 | 2u8) & !0x1Cu8) | ((rung << 2u8) & 0x1Cu8)) & 1u8 == 0,
        ((0u8 & !0x1Cu8) | ((rung << 2u8) & 0x1Cu8)) & 2u8 == 0,
        (((0u8 | 2u8) & !0x1Cu8) | ((rung << 2u8) & 0x1Cu8)) & 2u8 != 0,
        (f | 1u8) & 1u8 != 0,
{
    assert(((0u8 & !0x1Cu8) | ((rung << 2u8) & 0x1Cu8)) & 1u8 == 0 && (((0u8 | 2u8) & !0x1Cu8) | ((
    rung << 2u8) & 0x1Cu8)) & 1u8 == 0 && ((0u8 & !0x1Cu8) | ((rung << 2u8) & 0x1Cu8)) & 2u8 == 0
        && (((0u8 | 2u8) & !0x1Cu8) | ((rung << 2u8) & 0x1Cu8)) & 2u8 != 0 && (f | 1u8) & 1u8 != 0)
        by (bit_vector);
}

/// How many entries a range of a window holds at most.
proof fn lemma_entries_len(frames: Map<u32, Seq<u8>>, lo: int, hi: int)
    requires
        0 <= lo,
        hi <= u32::MAX,
    ensures
        entries_len_ok(frames, lo, hi),
        forall|i: int|
            0 <= i < crate::arq::entries_between(frames, lo, hi).len() ==> {
                let e = #[trigger] crate::arq::entries_between(frames, lo, hi)[i];
                lo <= e.0 < hi && frames.contains_key(e.0) && frames[e.0] == e.1
            },
        forall|i: int, j: int|
            0 <= i < j < crate::arq::entries_between(frames, lo, hi).len() ==> (
            #[trigger] crate::arq::entries_between(frames, lo, hi)[i]).0 < (
            #[trigger] crate::arq::entries_between(frames, lo, hi)[j]).0,
    decreases hi - lo,
{
    if lo < hi {
        lemma_entries_len(frames, lo, hi - 1);
    }
}

spec fn entries_len_ok(frames: Map<u32, Seq<u8>>, lo: int, hi: int) -> bool {
    crate::arq::entries_between(frames, lo, hi).len() <= (if lo < hi {
        hi - lo
    } else {
        0
    })
}

/// The shape of an over: it holds a frame, no more data frames than the window, each of
/// another number and in ascending order, and its last frame and no other passes the
/// floor.
pub proof fn over_passes_the_floor_once(s: ConnModel)
    requires
        s.wf(),
    ensures
        1 <= s.over().len(),
        s.over().len() <= s.send.window,
        forall|i: int|
            0 <= i < s.over().len() ==> ((#[trigger] s.over()[i]).ends_over() <==> i
                == s.over().len() - 1),
        forall|i: int, j: int|
            0 <= i < j < s.over().len() ==> (#[trigger] s.over()[i]).seq < (
            #[trigger] s.over()[j]).seq,
{
    let data = s.send.over();
    lemma_entries_len(s.send.frames, s.send.base as int, s.send.limit());
    lemma_unmarked(s.over_body().last().flags, s.advice());
    let body = s.over_body();
    assert forall|i: int| 0 <= i < body.len() implies !(#[trigger] body[i]).ends_over() by {}
    assert(s.over().last() == body.last().ending_over());
    assert forall|i: int| 0 <= i < s.over().len() - 1 implies #[trigger] s.over()[i]
        == body[i] by {}
    if data.len() > 0 {
        assert forall|i: int| 0 <= i < body.len() implies (#[trigger] body[i]).seq
            == data[i].0 by {}
        assert forall|i: int| 0 <= i < s.over().len() implies (#[trigger] s.over()[i]).seq
            == data[i].0 by {
            if i == s.over().len() - 1 {
                assert(body.last() == body[i]);
            }
        }
    }
}

/// Whether a frame is one that can go on the wire: callsigns exactly where its type has
/// them, and no payload beside them or beyond the largest.
pub open spec fn transmittable(f: FrameModel) -> bool {
    &&& f.valid()
    &&& f.frame_type.bears_id() == f.id is Some
    &&& f.id is Some ==> f.payload.len() == 0
    &&& f.payload.len() <= crate::frame::LINK_MTU
}

/// Everything queued or awaiting acknowledgement fits the wire.
pub open spec fn fits_the_wire(s: ConnModel) -> bool {
    &&& forall|i: int| 0 <= i < s.outbox.len() ==> transmittable(#[trigger] s.outbox[i])
    &&& forall|k: u32| #[trigger]
        s.send.frames.contains_key(k) ==> s.send.frames[k].len() <= crate::frame::LINK_MTU
}

/// A transmittable frame encodes.
pub proof fn transmittable_frame_encodes(f: FrameModel)
    requires
        transmittable(f),
    ensures
        f.encoded() is Ok,
{
}

/// Fragments are no larger than asked for.
proof fn lemma_fragment_sizes(msg: Seq<u8>, size: nat)
    requires
        size >= 1,
    ensures
        forall|i: int|
            0 <= i < crate::delivery::fragments_of(msg, size).len() ==> (
            #[trigger] crate::delivery::fragments_of(msg, size)[i]).payload.len() <= size,
    decreases msg.len(),
{
    if msg.len() > size {
        lemma_fragment_sizes(msg.skip(size as int), size);
        let rest = crate::delivery::fragments_of(msg.skip(size as int), size);
        let all = crate::delivery::fragments_of(msg, size);
        assert forall|i: int| 0 <= i < all.len() implies (#[trigger] all[i]).payload.len()
            <= size by {
            if i > 0 {
                assert(all[i] == rest[i - 1]);
            }
        }
    }
}

/// A control frame fits the wire.
proof fn lemma_control_fits(s: ConnModel, t: FrameType, seq: u32)
    requires
        crate::callsign::is_callsign(s.local),
        s.remote matches Some(r) && crate::callsign::is_callsign(r),
    ensures
        transmittable(s.control(t, seq)),
{
}

/// Closing drops what awaited acknowledgement and leaves the outbox.
proof fn lemma_reset_fits(s: ConnModel)
    requires
        fits_the_wire(s),
    ensures
        fits_the_wire(s.reset()),
{
    assert(s.reset().outbox == s.outbox);
}

/// Queueing a frame that fits.
proof fn lemma_queueing_fits(s: ConnModel, f: FrameModel)
    requires
        fits_the_wire(s),
        transmittable(f),
    ensures
        fits_the_wire(s.queueing(f)),
{
    let after = s.queueing(f);
    assert forall|i: int| 0 <= i < after.outbox.len() implies transmittable(
        #[trigger] after.outbox[i],
    ) by {
        if i < s.outbox.len() {
            assert(after.outbox[i] == s.outbox[i]);
        }
    }
}

/// Accepting a call queues a frame that fits.
proof fn lemma_accepting_fits(s: ConnModel, conn_id: u16, seq: u32, now: u128)
    requires
        fits_the_wire(s),
        crate::callsign::is_callsign(s.local),
        s.remote matches Some(r) && crate::callsign::is_callsign(r),
    ensures
        fits_the_wire(s.accepting(conn_id, seq, now)),
{
    let u = ConnModel {
        conn_id,
        state: ConnState::Connected,
        floor: Floor::Listening,
        awaiting_reply: false,
        silent_overs: 0,
        ..s
    };
    let t = ConnModel { deadline: Some(u.jittered_at(now)), ..u }.telling(EventModel::Connected);
    assert(fits_the_wire(t));
    lemma_control_fits(t, FrameType::ConnAck, seq);
    lemma_queueing_fits(t, t.control(FrameType::ConnAck, seq));
}

proof fn lemma_frame_fits(s: ConnModel, f: FrameModel, now: u128)
    requires
        s.wf(),
        f.valid(),
        fits_the_wire(s),
    ensures
        fits_the_wire(s.received(f, now)),
{
    match f.frame_type {
        FrameType::Conn => {
            if f.id is Some {
                let peer = f.id->0.src;
                lemma_reset_fits(s);
                let called = ConnModel { remote: Some(peer), ..s };
                assert(fits_the_wire(called));
                lemma_accepting_fits(called, f.conn_id, f.seq, now);
                lemma_accepting_fits(
                    ConnModel { remote: Some(peer), ..s.reset() },
                    f.conn_id,
                    f.seq,
                    now,
                );
                if s.remote is Some {
                    lemma_accepting_fits(s, f.conn_id, f.seq, now);
                    lemma_control_fits(s, FrameType::ConnAck, f.seq);
                    lemma_queueing_fits(s, s.control(FrameType::ConnAck, f.seq));
                }
            }
        },
        FrameType::ConnAck => {
            if s.remote is Some {
                let up = ConnModel {
                    state: ConnState::Connected,
                    floor: Floor::Sending,
                    silent_overs: 0,
                    deadline: None,
                    ..s
                }.telling(EventModel::Connected);
                lemma_heeding(up, f.advised_rung(), now);
                assert(up.heeding(f.advised_rung(), now).outbox == s.outbox);
            }
        },
        FrameType::Disc => {
            if s.remote is Some {
                lemma_control_fits(s, FrameType::DiscAck, 0);
                lemma_queueing_fits(s, s.control(FrameType::DiscAck, 0));
                lemma_reset_fits(s.queueing(s.control(FrameType::DiscAck, 0)));
            }
        },
        FrameType::DiscAck => lemma_reset_fits(s),
        FrameType::Nak => {},
        _ => {
            let heard = ConnModel { silent_overs: 0, ..s };
            lemma_adapting(heard, f, now);
            let h = heard.adapting(f, now);
            assert(h.outbox == s.outbox);
            assert forall|k: u32| #[trigger]
                h.send.acked(f.ack_through, f.sack).frames.contains_key(k) implies h.send.acked(
                f.ack_through,
                f.sack,
            ).frames[k].len() <= crate::frame::LINK_MTU by {
                assert(s.send.frames.contains_key(k));
            }
        },
    }
}

proof fn lemma_timeout_fits(s: ConnModel, now: u128)
    requires
        s.wf(),
        fits_the_wire(s),
    ensures
        fits_the_wire(s.timed_out(now)),
{
    lemma_reset_fits(s);
    match s.state {
        ConnState::Connecting => {
            let t = ConnModel { conn_retries: (s.conn_retries + 1) as u32, ..s };
            lemma_control_fits(t, FrameType::Conn, crate::arq::FIRST_SEQ);
            lemma_queueing_fits(t, t.control(FrameType::Conn, crate::arq::FIRST_SEQ));
        },
        ConnState::Disconnecting => {
            let t = ConnModel { disc_retries: (s.disc_retries + 1) as u32, ..s };
            lemma_control_fits(t, FrameType::Disc, 0);
            lemma_queueing_fits(t, t.control(FrameType::Disc, 0));
        },
        _ => {},
    }
}

/// Whatever a connection hands out for transmission can be encoded, so long as no mode
/// carries more per over than one frame holds.
pub proof fn everything_queued_can_be_sent(s: ConnModel, input: Input)
    requires
        s.wf(),
        admits(s, input),
        fits_the_wire(s),
        s.fragment_size() <= crate::frame::LINK_MTU,
    ensures
        fits_the_wire(step(s, input)),
        s.next_frame() matches Some(f) ==> transmittable(f),
{
    lemma_primed_fits(s);
    match input {
        Input::Connect { now } => {
            let t = ConnModel { state: ConnState::Connecting, conn_retries: 0, ..s };
            lemma_control_fits(t, FrameType::Conn, crate::arq::FIRST_SEQ);
            lemma_queueing_fits(t, t.control(FrameType::Conn, crate::arq::FIRST_SEQ));
        },
        Input::Disconnect { now } => {
            if s.state == ConnState::Connected {
                let t = ConnModel { state: ConnState::Disconnecting, disc_retries: 0, ..s };
                lemma_control_fits(t, FrameType::Disc, 0);
                lemma_queueing_fits(t, t.control(FrameType::Disc, 0));
            }
        },
        Input::Send { data } => {
            let size = s.fragment_size();
            let frags = crate::delivery::fragments_of(data, size);
            crate::delivery::lemma_fragment_count(data, size);
            lemma_enqueued_all(s.send, frags);
            lemma_fragment_sizes(data, size);
        },
        Input::Transmit { now } => {
            let p = s.primed();
            if p.outbox.len() > 0 {
                assert forall|i: int| 0 <= i < p.outbox.drop_first().len() implies transmittable(
                    #[trigger] p.outbox.drop_first()[i],
                ) by {
                    assert(p.outbox.drop_first()[i] == p.outbox[i + 1]);
                }
            }
        },
        Input::Frame { frame, now } => lemma_frame_fits(s, frame, now),
        Input::Timeout { now } => lemma_timeout_fits(s, now),
        _ => {},
    }
}

proof fn lemma_primed_fits(s: ConnModel)
    requires
        s.wf(),
        fits_the_wire(s),
    ensures
        fits_the_wire(s.primed()),
{
    let p = s.primed();
    if p != s {
        lemma_entries_len(s.send.frames, s.send.base as int, s.send.limit());
        let t = ConnModel { floor: Floor::Sending, ..s };
        assert(p.outbox =~= t.over());
        let body = t.over_body();
        assert forall|i: int| 0 <= i < body.len() implies transmittable(#[trigger] body[i]) by {}
        assert forall|i: int| 0 <= i < t.over().len() implies transmittable(
            #[trigger] t.over()[i],
        ) by {
            if i < t.over().len() - 1 {
                assert(t.over()[i] == body[i]);
            } else {
                assert(t.over()[i] == body.last().ending_over());
            }
        }
    }
}

/// The fragments enqueued in this session, in order: what awaits acknowledgement is what
/// was enqueued under its number, and the numbers that end a message are those of last
/// fragments.
pub open spec fn numbered(s: ConnModel, all: Seq<Fragment>) -> bool {
    &&& s.send.next_seq == crate::arq::FIRST_SEQ + all.len()
    &&& forall|k: u32| #[trigger]
        s.send.frames.contains_key(k) ==> s.send.frames[k] == all[k
            - crate::arq::FIRST_SEQ].payload
    &&& forall|k: u32| #[trigger]
        s.msg_ends.contains(k) <==> (crate::arq::FIRST_SEQ <= k < s.send.next_seq && all[k
            - crate::arq::FIRST_SEQ].end_of_msg)
}

/// Only the last fragment of a message is marked.
proof fn lemma_last_fragment(msg: Seq<u8>, size: nat)
    requires
        size >= 1,
    ensures
        crate::delivery::fragments_of(msg, size).len() >= 1,
        forall|i: int|
            0 <= i < crate::delivery::fragments_of(msg, size).len() ==> ((
            #[trigger] crate::delivery::fragments_of(msg, size)[i]).end_of_msg <==> i
                == crate::delivery::fragments_of(msg, size).len() - 1),
    decreases msg.len(),
{
    if msg.len() > size {
        lemma_last_fragment(msg.skip(size as int), size);
        let rest = crate::delivery::fragments_of(msg.skip(size as int), size);
        let all = crate::delivery::fragments_of(msg, size);
        assert forall|i: int| 0 <= i < all.len() implies ((#[trigger] all[i]).end_of_msg <==> i
            == all.len() - 1) by {
            if i > 0 {
                assert(all[i] == rest[i - 1]);
            }
        }
    }
}

/// A message sent takes the next numbers, one for each of its fragments in order.
pub proof fn sent_message_takes_the_next_numbers(s: ConnModel, all: Seq<Fragment>, data: Seq<u8>)
    requires
        s.wf(),
        numbered(s, all),
        s.has_room(data.len() as int),
    ensures
        numbered(s.sending(data), all + crate::delivery::fragments_of(data, s.fragment_size())),
{
    let size = s.fragment_size();
    let frags = crate::delivery::fragments_of(data, size);
    crate::delivery::lemma_fragment_count(data, size);
    lemma_enqueued_all(s.send, frags);
    lemma_last_fragment(data, size);
    let t = s.sending(data);
    let more = all + frags;
    assert forall|k: u32| #[trigger] t.send.frames.contains_key(k) implies t.send.frames[k]
        == more[k - crate::arq::FIRST_SEQ].payload by {
        if s.send.frames.contains_key(k) {
            assert(k < s.send.next_seq);
        }
    }
    assert forall|k: u32| #[trigger]
        t.msg_ends.contains(k) <==> (crate::arq::FIRST_SEQ <= k < t.send.next_seq && more[k
            - crate::arq::FIRST_SEQ].end_of_msg) by {
        if k >= s.send.next_seq && k < t.send.next_seq {
            assert(more[k - crate::arq::FIRST_SEQ] == frags[k - s.send.next_seq]);
        }
        assert(s.msg_ends.contains(k) ==> k < s.send.next_seq);
    }
}

/// Nothing but sending renumbers: every other input leaves the numbering as it was, or
/// ends the session and starts it over.
pub proof fn numbering_lasts_for_the_session(s: ConnModel, all: Seq<Fragment>, input: Input)
    requires
        s.wf(),
        admits(s, input),
        numbered(s, all),
        !(input is Send),
    ensures
        numbered(step(s, input), all) || numbered(step(s, input), Seq::empty()),
        step(s, input).state == s.state && !(input is Frame) ==> numbered(step(s, input), all),
{
    match input {
        Input::Frame { frame, now } => lemma_numbered_frame(s, all, frame, now),
        Input::Timeout { now } => {
            lemma_numbered_reset(s);
            let t = ConnModel { silent_overs: (s.silent_overs + 1) as u32, ..s };
            lemma_numbered_reset(t);
            let quiet = ConnModel { silent_overs: 0, ..s };
            lemma_at_rung(quiet, crate::mac::base_of(s.ladder) as u8, now);
            lemma_at_rung(quiet, (s.current_rung + 1) as u8, now);
        },
        _ => {},
    }
}

proof fn lemma_numbered_reset(s: ConnModel)
    ensures
        numbered(s.reset(), Seq::empty()),
{
}

proof fn lemma_numbered_frame(s: ConnModel, all: Seq<Fragment>, f: FrameModel, now: u128)
    requires
        s.wf(),
        numbered(s, all),
    ensures
        numbered(s.received(f, now), all) || numbered(s.received(f, now), Seq::empty()),
{
    lemma_numbered_reset(s);
    lemma_numbered_reset(s.queueing(s.control(FrameType::DiscAck, 0)));
    match f.frame_type {
        FrameType::Conn => {},
        FrameType::ConnAck => {
            if s.remote is Some {
                let up = ConnModel {
                    state: ConnState::Connected,
                    floor: Floor::Sending,
                    silent_overs: 0,
                    deadline: None,
                    ..s
                }.telling(EventModel::Connected);
                lemma_heeding(up, f.advised_rung(), now);
            }
        },
        FrameType::Disc => {},
        FrameType::DiscAck => {},
        FrameType::Nak => {},
        _ => {
            let heard = ConnModel { silent_overs: 0, ..s };
            lemma_adapting(heard, f, now);
            let h = heard.adapting(f, now);
            assert(h.msg_ends == s.msg_ends);
            assert forall|k: u32| #[trigger]
                h.send.acked(f.ack_through, f.sack).frames.contains_key(k) implies h.send.acked(
                f.ack_through,
                f.sack,
            ).frames[k] == all[k - crate::arq::FIRST_SEQ].payload by {
                assert(s.send.frames.contains_key(k));
            }
        },
    }
}

/// A data frame says what was enqueued under its number: in every over of a session, the
/// fragment that a data frame carries is the one of that number.
pub proof fn overs_carry_the_numbered_fragments(s: ConnModel, all: Seq<Fragment>, i: int)
    requires
        s.wf(),
        numbered(s, all),
        0 <= i < s.over().len(),
        s.over()[i].frame_type == FrameType::Data,
    ensures
        crate::arq::FIRST_SEQ <= s.over()[i].seq <= all.len(),
        ConnModel::fragment(s.over()[i]) == all[s.over()[i].seq - crate::arq::FIRST_SEQ],
{
    let data = s.send.over();
    lemma_entries_len(s.send.frames, s.send.base as int, s.send.limit());
    let body = s.over_body();
    assert(s.over()[i] == body[i] || s.over()[i] == body[i].ending_over());
    let seq = data[i].0;
    assert(s.send.frames.contains_key(seq));
    let bare = FrameModel {
        ack_through: (s.recv.next_expected - 1) as u32,
        sack: s.sack_to_send(),
        mode: s.current_rung,
        payload: data[i].1,
        ..FrameModel::blank(FrameType::Data, s.conn_id, seq)
    };
    assert(0u8 & 2u8 == 0) by (bit_vector);
    crate::frame::end_tokens_are_independent(bare);
    crate::frame::advised_rung_packs_beside_the_end_tokens(bare, s.advice());
    crate::frame::advised_rung_packs_beside_the_end_tokens(bare.ending_msg(), s.advice());
    crate::frame::end_tokens_are_independent(body[i]);
    assert(s.msg_ends.contains(seq) <==> all[seq - crate::arq::FIRST_SEQ].end_of_msg);
    assert(ConnModel::fragment(s.over()[i]) =~= all[seq - crate::arq::FIRST_SEQ]);
}

/// A data frame of the session does to the host exactly what the receive buffer and the
/// joining of fragments make of it, at the window of whatever rung it moved the link to.
pub proof fn data_reaches_the_host_through_the_buffer(s: ConnModel, f: FrameModel, now: u128)
    requires
        s.wf(),
        s.in_session(f),
        f.frame_type == FrameType::Data,
    ensures
        ({
            let t = s.received(f, now);
            let window = s.hearing(f, now).recv.window;
            let sized = crate::delivery::recv_step(
                s.recv,
                crate::delivery::RecvEvent::Resize { window },
            );
            let arrival = crate::delivery::RecvEvent::Arrive {
                seq: f.seq,
                frag: ConnModel::fragment(f),
            };
            let run = crate::delivery::recv_output(sized, arrival);
            &&& window >= 1
            &&& t.recv == crate::delivery::recv_step(sized, arrival)
            &&& t.partial == crate::delivery::partial_after(s.partial, run)
            &&& t.events == s.events + crate::delivery::messages(s.partial, run).map_values(
                |m: Seq<u8>| EventModel::DataReceived(m),
            )
        }),
{
    let heard = ConnModel { silent_overs: 0, ..s };
    lemma_adapting(heard, f, now);
    let h = heard.adapting(f, now);
    assert(h.recv =~= s.recv.resized(h.recv.window));
    assert(h.partial == s.partial && h.events == s.events);
}

} // verus!
