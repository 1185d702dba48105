//! Calls, turns and timers: what a station says when, and what ends a wait.
use crate::adaptation_laws::{is_base, is_nearest_rung, same_but_for_the_mode};
use crate::arq::SendModel;
use crate::frame::{FrameModel, FrameType, StationText};
use crate::session::{ConnModel, ConnState, EventModel, Floor};
use vstd::prelude::*;

verus! {

/// The types of frame that begin or end a communication, or identify the station.
pub open spec fn identifies(t: FrameType) -> bool {
    t is Conn || t is ConnAck || t is Disc || t is DiscAck || t is Id
}

/// The frame is one that a station says without data: of the running session and the
/// current rung, with its advice, and with both callsigns where the type identifies.
pub open spec fn is_control(f: FrameModel, s: ConnModel, t: FrameType, seq: u32) -> bool {
    &&& f.frame_type == t
    &&& f.conn_id == s.conn_id
    &&& f.seq == seq
    &&& f.mode == s.current_rung
    &&& f.advised_rung() == s.advice() % 8
    &&& f.ack_through == 0
    &&& f.sack == 0
    &&& f.payload == Seq::<u8>::empty()
    &&& !f.ends_msg()
    &&& !f.ends_over()
    &&& f.id == (if identifies(t) {
        Some(StationText { src: s.local, dst: s.remote->0 })
    } else {
        None
    })
}

/// A control frame is what it should be.
pub proof fn lemma_control(s: ConnModel, t: FrameType, seq: u32)
    ensures
        is_control(s.control(t, seq), s, t, seq),
{
    let bare = FrameModel {
        id: if t.bears_id() {
            Some(s.station())
        } else {
            None
        },
        ..FrameModel::blank(t, s.conn_id, seq)
    };
    crate::frame::advised_rung_packs_beside_the_end_tokens(
        bare.at_mode(s.current_rung),
        s.advice(),
    );
    lemma_plain_flags(s.advice());
}

/// A frame without flags ends nothing, and an advised rung keeps its three bits.
proof fn lemma_plain_flags(r: u8)
    ensures
        r & 7 == r % 8,
        0u8 & 1u8 == 0,
        0u8 & 2u8 == 0,
{
    assert(r & 7 == r % 8 && 0u8 & 1u8 == 0 && 0u8 & 2u8 == 0) by (bit_vector);
}

/// One frame more is queued, behind those that were.
pub open spec fn queued_one(before: Seq<FrameModel>, after: Seq<FrameModel>) -> bool {
    &&& after.len() == before.len() + 1
    &&& after.drop_last() == before
}

/// The timer runs out two overs of the mode from now.
pub open spec fn waits_two_overs(s: ConnModel, t: ConnModel, now: u128) -> bool {
    &&& t.deadline is Some
    &&& now + 2 * s.profile.over_airtime.nanos <= u128::MAX ==> t.deadline == Some(
        (now + 2 * s.profile.over_airtime.nanos) as u128,
    )
}

/// A host's wish to connect is a call: it goes out once, under number one, and a timer of
/// two overs runs. With a session up or an attempt running the wish changes nothing.
pub proof fn connecting_calls_the_peer(s: ConnModel, now: u128)
    ensures
        ({
            let t = s.connecting(now);
            &&& s.state != ConnState::Closed ==> t == s
            &&& s.state == ConnState::Closed ==> {
                &&& t == (ConnModel {
                    state: ConnState::Connecting,
                    conn_retries: 0,
                    outbox: t.outbox,
                    deadline: t.deadline,
                    ..s
                })
                &&& queued_one(s.outbox, t.outbox)
                &&& is_control(t.outbox.last(), s, FrameType::Conn, 1)
                &&& waits_two_overs(s, t, now)
            }
        }),
{
    let u = ConnModel { state: ConnState::Connecting, conn_retries: 0, ..s };
    lemma_control(u, FrameType::Conn, 1);
    assert(u.advice() == s.advice());
    if s.state == ConnState::Closed {
        assert(s.connecting(now).outbox.drop_last() =~= s.outbox);
    }
}

/// A host's wish to disconnect says so to the peer, and a timer of two overs runs. Without
/// a session it changes nothing.
pub proof fn disconnecting_tells_the_peer(s: ConnModel, now: u128)
    ensures
        ({
            let t = s.disconnecting(now);
            &&& s.state != ConnState::Connected ==> t == s
            &&& s.state == ConnState::Connected ==> {
                &&& t == (ConnModel {
                    state: ConnState::Disconnecting,
                    disc_retries: 0,
                    outbox: t.outbox,
                    deadline: t.deadline,
                    ..s
                })
                &&& queued_one(s.outbox, t.outbox)
                &&& is_control(t.outbox.last(), s, FrameType::Disc, 0)
                &&& waits_two_overs(s, t, now)
            }
        }),
{
    let u = ConnModel { state: ConnState::Disconnecting, disc_retries: 0, ..s };
    lemma_control(u, FrameType::Disc, 0);
    assert(u.advice() == s.advice());
    if s.state == ConnState::Connected {
        assert(s.disconnecting(now).outbox.drop_last() =~= s.outbox);
    }
}

/// A message sent takes as many numbers as it has pieces of the mode's size, and under each
/// of them stands that piece of it; only the last is the end of a message. Nothing else
/// changes, and above all nothing that was waiting.
pub proof fn sending_only_adds(s: ConnModel, data: Seq<u8>, i: int)
    requires
        s.wf(),
        s.has_room(data.len() as int),
    ensures
        ({
            let t = s.sending(data);
            let size = if s.profile.per_over_mtu == 0 {
                1
            } else {
                s.profile.per_over_mtu as int
            };
            let n = t.send.next_seq - s.send.next_seq;
            let piece = (s.send.next_seq + i) as u32;
            &&& t == (ConnModel {
                send: SendModel {
                    next_seq: t.send.next_seq,
                    frames: t.send.frames,
                    ..s.send
                },
                msg_ends: t.msg_ends,
                ..s
            })
            &&& n >= 1
            &&& data.len() <= n * size
            &&& data.len() > 0 ==> (n - 1) * size < data.len()
            &&& data.len() == 0 ==> n == 1
            &&& t.msg_ends == s.msg_ends.insert((t.send.next_seq - 1) as u32)
            &&& forall|k: u32|
                #![trigger t.send.frames.contains_key(k)]
                t.send.frames.contains_key(k) <==> s.send.frames.contains_key(k)
                    || s.send.next_seq <= k < t.send.next_seq
            &&& forall|k: u32| #[trigger]
                s.send.frames.contains_key(k) ==> t.send.frames[k] == s.send.frames[k]
            &&& 0 <= i < n ==> t.send.frames[piece] == data.subrange(
                i * size,
                if i == n - 1 {
                    data.len() as int
                } else {
                    (i + 1) * size
                },
            )
        }),
{
    let size = s.fragment_size();
    let frags = crate::delivery::fragments_of(data, size);
    crate::delivery::lemma_fragment_count(data, size);
    crate::mac::frames_hold_the_payload(data.len() as int, size as int);
    crate::session_laws::lemma_enqueued_all(s.send, frags);
    lemma_enqueueing_keeps(s.send, frags);
    if 0 <= i < frags.len() {
        crate::delivery::message_is_cut_in_order(data, size, i);
    }
}

/// Enqueueing keeps the window's place and width.
proof fn lemma_enqueueing_keeps(w: SendModel, frags: Seq<crate::arq::Fragment>)
    ensures
        crate::session::enqueued_all(w, frags).base == w.base,
        crate::session::enqueued_all(w, frags).window == w.window,
    decreases frags.len(),
{
    if frags.len() > 0 {
        lemma_enqueueing_keeps(w, frags.drop_last());
    }
}

/// Nothing happens before its time: without a timer, or before it runs out, the time that
/// passes changes nothing. Nor does it without a session, or while the floor is not the
/// peer's.
pub proof fn time_alone_changes_nothing(s: ConnModel, now: u128)
    requires
        s.deadline is None || now < s.deadline->0 || s.state == ConnState::Closed || (s.state
            == ConnState::Connected && s.floor != Floor::Listening),
    ensures
        s.timed_out(now) == s,
{
}

/// A call that goes unanswered is repeated five times, each time with a timer of two overs,
/// and then given up: the host is told that it failed.
pub proof fn unanswered_call_is_repeated_five_times(s: ConnModel, now: u128)
    requires
        s.wf(),
        s.state == ConnState::Connecting,
        s.deadline matches Some(d) && now >= d,
    ensures
        ({
            let t = s.timed_out(now);
            &&& s.conn_retries < 5 ==> {
                &&& t == (ConnModel {
                    conn_retries: (s.conn_retries + 1) as u32,
                    outbox: t.outbox,
                    deadline: t.deadline,
                    ..s
                })
                &&& queued_one(s.outbox, t.outbox)
                &&& is_control(t.outbox.last(), s, FrameType::Conn, 1)
                &&& waits_two_overs(s, t, now)
            }
            &&& s.conn_retries >= 5 ==> is_closed_after(s, t, EventModel::ConnectFailed)
        }),
{
    let u = ConnModel { conn_retries: (s.conn_retries + 1) as u32, ..s };
    lemma_control(u, FrameType::Conn, 1);
    assert(u.advice() == s.advice());
    lemma_closed_after(s, EventModel::ConnectFailed);
    if s.conn_retries < 5 {
        assert(s.timed_out(now).outbox.drop_last() =~= s.outbox);
    }
}

/// A wish to disconnect that goes unanswered is repeated three times, each time with a
/// timer of two overs, and then the session is closed all the same.
pub proof fn unanswered_disc_is_repeated_three_times(s: ConnModel, now: u128)
    requires
        s.wf(),
        s.state == ConnState::Disconnecting,
        s.deadline matches Some(d) && now >= d,
    ensures
        ({
            let t = s.timed_out(now);
            &&& s.disc_retries < 3 ==> {
                &&& t == (ConnModel {
                    disc_retries: (s.disc_retries + 1) as u32,
                    outbox: t.outbox,
                    deadline: t.deadline,
                    ..s
                })
                &&& queued_one(s.outbox, t.outbox)
                &&& is_control(t.outbox.last(), s, FrameType::Disc, 0)
                &&& waits_two_overs(s, t, now)
            }
            &&& s.disc_retries >= 3 ==> is_closed_after(s, t, EventModel::Disconnected)
        }),
{
    let u = ConnModel { disc_retries: (s.disc_retries + 1) as u32, ..s };
    lemma_control(u, FrameType::Disc, 0);
    assert(u.advice() == s.advice());
    lemma_closed_after(s, EventModel::Disconnected);
    if s.disc_retries < 3 {
        assert(s.timed_out(now).outbox.drop_last() =~= s.outbox);
    }
}

/// The session is over, the host is told why, and nothing of it is left: neither data nor
/// measurements, nor a peer that was learned. The link is back on the base rung and ready
/// for another session; what is still to be transmitted stays.
pub open spec fn is_closed_after(s: ConnModel, t: ConnModel, e: EventModel) -> bool {
    &&& t.state == ConnState::Closed
    &&& t.events == s.events.push(e)
    &&& t.outbox == s.outbox
    &&& t.local == s.local
    &&& t.learns_remote == s.learns_remote
    &&& t.remote == (if s.learns_remote {
        None
    } else {
        s.remote
    })
    &&& t.conn_id == s.conn_id
    &&& t.profile == s.profile
    &&& starts_anew(s, t)
}

/// Nothing sent, nothing received, nothing measured, nobody's turn, no timer, and the base
/// rung.
pub open spec fn starts_anew(s: ConnModel, t: ConnModel) -> bool {
    let route = s.ladder[t.current_rung as int].route;
    &&& t.ladder == s.ladder
    &&& t.initial_window == s.initial_window
    &&& is_base(s.ladder, t.current_rung as int)
    &&& t.send.base == 1 && t.send.next_seq == 1 && t.send.frames == Map::<u32, Seq<u8>>::empty()
    &&& t.recv.next_expected == 1 && t.recv.buffered == Map::<
        u32,
        crate::arq::Fragment,
    >::empty()
    &&& t.send.window == route.window.window && t.recv.window == route.window.window
    &&& t.sack_enabled <==> route.strategy is SelectiveRepeat
    &&& t.partial == Seq::<u8>::empty()
    &&& t.msg_ends == Set::<u32>::empty()
    &&& t.snr_raw is None && t.snr_smoothed is None
    &&& t.fer.failed == 0 && t.fer.total == 0 && t.fer_samples == 0
    &&& t.floor == Floor::Listening
    &&& !t.awaiting_reply && !t.owe_ack
    &&& t.silent_overs == 0 && t.conn_retries == 0 && t.disc_retries == 0
    &&& t.deadline is None
}

/// Closing leaves nothing behind.
pub proof fn lemma_closed_after(s: ConnModel, e: EventModel)
    requires
        crate::mac::ladder_wf(s.ladder),
    ensures
        is_closed_after(s, s.closed(e), e),
        starts_anew(s, s.reset()),
{
    crate::mac::lemma_base(s.ladder);
}

/// A connection before its first session.
pub proof fn connections_start_anew(
    local: Seq<char>,
    remote: Option<Seq<char>>,
    learns_remote: bool,
    conn_id: u16,
    ladder: Seq<crate::mac::Rung>,
    window: u32,
)
    requires
        crate::mac::ladder_wf(ladder),
    ensures
        ({
            let c = ConnModel::fresh(local, remote, learns_remote, conn_id, ladder, window);
            &&& c.local == local && c.remote == remote && c.learns_remote == learns_remote
            &&& c.conn_id == conn_id && c.ladder == ladder && c.initial_window == window
            &&& c.state == ConnState::Closed
            &&& c.outbox.len() == 0 && c.events.len() == 0
            &&& c.profile == ladder[c.current_rung as int].route.profile
            &&& starts_anew(c, c)
        }),
{
    crate::mac::lemma_base(ladder);
}

/// A strategy chosen by hand: selective repeat over the window that the connection was
/// made with, or whole messages one by one without selective acknowledgement.
pub proof fn strategy_sets_the_window(s: ConnModel, strategy: crate::mac::ArqStrategy)
    ensures
        ({
            let t = s.with_strategy(strategy);
            &&& t == (ConnModel {
                send: t.send,
                recv: t.recv,
                sack_enabled: t.sack_enabled,
                ..s
            })
            &&& strategy is SelectiveRepeat ==> t.sack_enabled && t.send.window
                == s.initial_window && t.recv.window == s.initial_window
            &&& strategy is WholeMessage ==> !t.sack_enabled && t.send.window == 1
                && t.recv.window == 1
            &&& t.send.base == 1 && t.send.next_seq == 1 && t.send.frames == Map::<
                u32,
                Seq<u8>,
            >::empty()
            &&& t.recv.next_expected == 1 && t.recv.buffered == Map::<
                u32,
                crate::arq::Fragment,
            >::empty()
        }),
{
}

/// An over that goes unanswered.
/// - Off the base the link steps down by itself, to the next available rung; and to the
///   base once three overs in a row went unanswered.
/// - On the base it stays, and the seventh over in a row that goes unanswered ends the
///   session: the host is told that the peer is lost.
/// - In every other case the session goes on, this station takes the floor back, and all
///   that was to be sent is still to be sent.
pub proof fn unanswered_over_steps_down(s: ConnModel, now: u128)
    requires
        s.wf(),
        s.state == ConnState::Connected,
        s.floor == Floor::Listening,
        s.awaiting_reply,
        s.deadline matches Some(d) && now >= d,
    ensures
        ({
            let t = s.timed_out(now);
            let on_base = is_base(s.ladder, s.current_rung as int);
            &&& !(on_base && s.silent_overs >= 6) ==> {
                &&& same_but_for_the_mode(s, t)
                &&& t.state == ConnState::Connected
                &&& t.floor == Floor::Sending
                &&& t.deadline is None
            }
            &&& on_base && s.silent_overs >= 6 ==> is_closed_after(s, t, EventModel::PeerLost)
            &&& on_base && s.silent_overs < 6 ==> {
                &&& t.current_rung == s.current_rung
                &&& t.silent_overs == s.silent_overs + 1
                &&& t == (ConnModel {
                    silent_overs: t.silent_overs,
                    floor: Floor::Sending,
                    deadline: None,
                    ..s
                })
            }
            &&& !on_base && s.silent_overs < 2 ==> {
                &&& t.current_rung > s.current_rung
                &&& t.silent_overs == s.silent_overs + 1
                &&& s.ladder[t.current_rung as int].available
                &&& forall|j: int|
                    s.current_rung < j < t.current_rung ==> !(#[trigger] s.ladder[j]).available
            }
            &&& !on_base && s.silent_overs >= 2 ==> {
                &&& t.current_rung > s.current_rung
                &&& t.silent_overs == 0
                &&& is_base(s.ladder, t.current_rung as int)
            }
            &&& !on_base ==> {
                let rung = s.ladder[t.current_rung as int];
                let r = rung.route;
                let same_family = rung.family == s.ladder[s.current_rung as int].family;
                &&& same_family ==> t.snr_raw == s.snr_raw && t.snr_smoothed == s.snr_smoothed
                &&& !same_family ==> t.snr_raw is None && t.snr_smoothed is None
                &&& t.fer_samples == 0 && t.fer.failed == 0 && t.fer.total == 0
                &&& t.profile == r.profile
                &&& t.send.window == r.window.window && t.recv.window == r.window.window
                &&& t.sack_enabled <==> r.strategy is SelectiveRepeat
            }
        }),
{
    let rungs = s.ladder;
    crate::mac::lemma_base(rungs);
    let base = crate::mac::base_of(rungs);
    assert(is_base(rungs, base));
    assert(is_base(rungs, s.current_rung as int) <==> s.current_rung == base) by {
        if s.current_rung != base {
            assert(rungs[base].available && rungs[s.current_rung as int].available);
        }
    }
    let quiet = ConnModel { silent_overs: 0, ..s };
    let u = ConnModel { silent_overs: (s.silent_overs + 1) as u32, ..s };
    lemma_closed_after(u, EventModel::PeerLost);
    if s.current_rung != base {
        let next = (s.current_rung + 1) as u8;
        crate::adaptation_laws::rung_change_starts_its_measurements_over(quiet, next, now);
        crate::adaptation_laws::rung_change_starts_its_measurements_over(quiet, base as u8, now);
        assert(u.at_rung(next, now) == ConnModel {
            silent_overs: u.silent_overs,
            ..quiet.at_rung(next, now)
        });
        assert(u.at_rung(base as u8, now) == ConnModel {
            silent_overs: u.silent_overs,
            ..quiet.at_rung(base as u8, now)
        });
        assert(rungs[base].available);
        let to = quiet.at_rung(next, now).current_rung as int;
        assert(is_nearest_rung(rungs, next as int, to));
        let down = quiet.at_rung(base as u8, now).current_rung as int;
        assert(is_nearest_rung(rungs, base, down));
    }
}

/// Where nobody has anything to say, the floor becomes free when the wait is over.
pub proof fn idle_floor_becomes_free(s: ConnModel, now: u128)
    requires
        s.state == ConnState::Connected,
        s.floor == Floor::Listening,
        !s.awaiting_reply,
        s.deadline matches Some(d) && now >= d,
    ensures
        s.timed_out(now) == (ConnModel { floor: Floor::Idle, deadline: None, ..s }),
{
}

/// Something waits to be acknowledged, or an acknowledgement is owed.
pub open spec fn has_something_to_say(s: ConnModel) -> bool {
    s.owe_ack || exists|k: u32| #[trigger] s.send.frames.contains_key(k)
}

/// Having something to say is wanting the floor.
pub proof fn lemma_wants(s: ConnModel)
    ensures
        s.wants_floor() <==> has_something_to_say(s),
        s.has_unacked() <==> exists|k: u32| #[trigger] s.send.frames.contains_key(k),
{
    if s.has_unacked() {
        assert(!(s.send.frames.dom() =~= Set::empty()));
    } else {
        assert forall|k: u32| !(#[trigger] s.send.frames.contains_key(k)) by {
            assert(!s.send.frames.dom().contains(k));
        }
    }
}

/// When a station transmits: what is queued goes first, whatever the floor; else only in a
/// session, on its own floor, or on a free one if it has something to say. Asking for a
/// frame where there is none changes nothing.
pub proof fn station_speaks_in_its_turn(s: ConnModel, now: u128)
    requires
        s.wf(),
    ensures
        ({
            let may_begin = s.state == ConnState::Connected && (s.floor == Floor::Sending || (
            s.floor == Floor::Idle && has_something_to_say(s)));
            &&& s.next_frame() is Some <==> s.outbox.len() > 0 || may_begin
            &&& s.outbox.len() > 0 ==> s.next_frame() == Some(s.outbox[0])
                && s.transmitted(now).outbox == s.outbox.drop_first()
                && s.transmitted(now).owe_ack == s.owe_ack
            &&& s.next_frame() is None ==> s.transmitted(now) == s
        }),
{
    lemma_wants(s);
    let u = ConnModel { floor: Floor::Sending, ..s };
    crate::session_laws::over_passes_the_floor_once(u);
    if s.primed() != s {
        assert(s.primed().outbox =~= u.over());
    }
}

/// The frame that ends an over passes the floor. While data waits to be acknowledged it
/// passes to the peer, whose answer is awaited for two overs and the jitter; else it is free
/// for either. No other frame passes it, and transmitting changes nothing of what is sent,
/// received or measured.
pub proof fn end_of_over_passes_the_floor(s: ConnModel, now: u128)
    requires
        s.wf(),
        s.outbox.len() > 0,
    ensures
        ({
            let t = s.transmitted(now);
            let wait = now + 2 * s.profile.over_airtime.nanos + s.jitter();
            let unacked = exists|k: u32| #[trigger] s.send.frames.contains_key(k);
            &&& t == (ConnModel {
                outbox: t.outbox,
                floor: t.floor,
                awaiting_reply: t.awaiting_reply,
                deadline: t.deadline,
                ..s
            })
            &&& s.state != ConnState::Connected || s.outbox[0].flags % 2 == 0 ==> t.floor == s.floor
                && t.awaiting_reply == s.awaiting_reply && t.deadline == s.deadline
            &&& s.state == ConnState::Connected && s.outbox[0].flags % 2 == 1 && unacked ==> {
                &&& t.floor == Floor::Listening
                &&& t.awaiting_reply
                &&& t.deadline is Some
                &&& wait <= u128::MAX ==> t.deadline == Some(wait as u128)
            }
            &&& s.state == ConnState::Connected && s.outbox[0].flags % 2 == 1 && !unacked ==> {
                &&& t.floor == Floor::Idle
                &&& !t.awaiting_reply
                &&& t.deadline is None
            }
        }),
{
    lemma_wants(s);
    crate::frame::flags_hold_tokens_and_advice(s.outbox[0]);
}

/// What an over holds. All data that waits within the window, each piece once and in order;
/// without such data the acknowledgement that is owed; and without that a keepalive. Every
/// frame carries the session, the rung and the advice, data and acknowledgements also how
/// far the peer's data has come in, and the last frame and no other ends the over.
pub proof fn over_says_what_waits(s: ConnModel, i: int)
    requires
        s.wf(),
        0 <= i < s.over().len(),
    ensures
        ({
            let f = s.over()[i];
            let waits = |k: u32|
                s.send.frames.contains_key(k) && s.send.base <= k < s.send.base + s.send.window;
            let last = i == s.over().len() - 1;
            &&& f.conn_id == s.conn_id
            &&& f.mode == s.current_rung
            &&& f.advised_rung() == s.advice() % 8
            &&& f.id is None
            &&& f.ends_over() <==> last
            &&& (exists|k: u32| #[trigger] waits(k)) ==> {
                &&& f.frame_type == FrameType::Data
                &&& waits(f.seq)
                &&& f.payload == s.send.frames[f.seq]
                &&& f.ends_msg() <==> s.msg_ends.contains(f.seq)
                &&& i > 0 ==> s.over()[i - 1].seq < f.seq
                &&& forall|k: u32| #[trigger]
                    waits(k) ==> exists|j: int|
                        0 <= j < s.over().len() && (#[trigger] s.over()[j]).seq == k
            }
            &&& !(exists|k: u32| #[trigger] waits(k)) ==> {
                &&& s.over().len() == 1
                &&& f.frame_type == (if s.owe_ack {
                    FrameType::Ack
                } else {
                    FrameType::Keepalive
                })
                &&& f.seq == 0
                &&& f.payload == Seq::<u8>::empty()
                &&& !f.ends_msg()
            }
            &&& f.frame_type == FrameType::Data || f.frame_type == FrameType::Ack ==> {
                &&& f.ack_through == s.recv.next_expected - 1
                &&& s.sack_enabled ==> s.recv.is_sack(f.sack)
                &&& !s.sack_enabled ==> f.sack == 0
            }
        }),
{
    let f = s.over()[i];
    let body = s.over_body();
    let data = s.send.over();
    let waits = |k: u32|
        s.send.frames.contains_key(k) && s.send.base <= k < s.send.base + s.send.window;
    crate::arq::over_is_what_waits_in_the_window(s.send);
    crate::arq::sack_names_what_is_buffered(s.recv);
    crate::session_laws::over_passes_the_floor_once(s);
    assert(f == body[i] || f == body[i].ending_over());
    let r = s.advice();
    lemma_plain_flags(r);
    crate::frame::end_tokens_are_independent(body[i]);
    if data.len() > 0 {
        let k0 = data[0].0;
        assert(waits(k0));
        let seq = data[i].0;
        let bare = FrameModel {
            ack_through: (s.recv.next_expected - 1) as u32,
            sack: s.sack_to_send(),
            mode: s.current_rung,
            payload: data[i].1,
            ..FrameModel::blank(FrameType::Data, s.conn_id, seq)
        };
        crate::frame::end_tokens_are_independent(bare);
        crate::frame::advised_rung_packs_beside_the_end_tokens(bare, r);
        crate::frame::advised_rung_packs_beside_the_end_tokens(bare.ending_msg(), r);
        assert(waits(f.seq));
        assert forall|k: u32| #[trigger] waits(k) implies exists|j: int|
            0 <= j < s.over().len() && (#[trigger] s.over()[j]).seq == k by {
            let j = choose|j: int| 0 <= j < data.len() && (#[trigger] data[j]).0 == k;
            assert(s.over()[j].seq == body[j].seq);
        }
    } else {
        assert forall|k: u32| !(#[trigger] waits(k)) by {
            if waits(k) {
                let j = choose|j: int| 0 <= j < data.len() && (#[trigger] data[j]).0 == k;
            }
        }
        let ack = FrameModel {
            ack_through: (s.recv.next_expected - 1) as u32,
            sack: s.sack_to_send(),
            ..FrameModel::blank(FrameType::Ack, s.conn_id, 0)
        };
        crate::frame::advised_rung_packs_beside_the_end_tokens(ack.at_mode(s.current_rung), r);
        lemma_control(s, FrameType::Keepalive, 0);
    }
    lemma_over_keeps_the_advice(body[i]);
}

/// Ending an over keeps the advice in the flags.
proof fn lemma_over_keeps_the_advice(f: FrameModel)
    ensures
        f.ending_over().advised_rung() == f.advised_rung(),
{
    let b = f.flags;
    assert(((b | 1u8) & 0x1Cu8) >> 2u8 == (b & 0x1Cu8) >> 2u8) by (bit_vector);
}

/// A new over is begun with nothing queued, and pays the acknowledgement that is owed.
pub proof fn new_over_is_queued_whole(s: ConnModel, now: u128)
    requires
        s.wf(),
        s.outbox.len() == 0,
        s.next_frame() is Some,
    ensures
        s.next_frame() == Some(s.over()[0]),
        s.transmitted(now).outbox == s.over().drop_first(),
        !s.transmitted(now).owe_ack,
        s.over().len() > 1 ==> s.transmitted(now).floor == Floor::Sending,
{
    crate::session_laws::over_passes_the_floor_once(s);
    let u = ConnModel { floor: Floor::Sending, ..s };
    assert(u.over() =~= s.over());
    assert(s.primed().outbox =~= s.over());
}

/// The hash of a callsign: it begins at 14695981039346656037, and each byte is mixed in and
/// multiplied by 1099511628211, in sixty-four bits.
pub proof fn hash_takes_in_byte_by_byte(bytes: Seq<u8>, b: u8)
    ensures
        crate::session::fnv1a(Seq::empty()) == 14_695_981_039_346_656_037,
        crate::session::fnv1a(bytes.push(b)) == ((crate::session::fnv1a(bytes) ^ b as u64)
            * 1_099_511_628_211) % 0x1_0000_0000_0000_0000,
{
    assert(bytes.push(b).drop_last() =~= bytes);
}

/// The jitter of a station: the hash of its callsign, moved on by the overs that went
/// unanswered and scattered once more, picks a whole number of milliseconds below half a
/// turn-recovery timeout. So it is the same each time, and not the same for each station nor
/// for each retry.
pub proof fn jitter_comes_from_the_callsign_and_the_retry(s: ConnModel)
    requires
        s.profile.over_airtime.nanos <= 0x7FFF_FFFF_FFFF_FFFF,
    ensures
        ({
            let hash = crate::session::fnv1a(crate::callsign::ascii_bytes(s.local)) as int;
            let moved = (hash + s.silent_overs) % 0x1_0000_0000_0000_0000;
            let scattered = (moved * 1_099_511_628_211) % 0x1_0000_0000_0000_0000;
            let over_ms = s.profile.over_airtime.nanos as int * 2 / 1_000_000 / 2;
            let span = if over_ms < 1 {
                1
            } else {
                over_ms
            };
            s.jitter() == (scattered % span) * 1_000_000
        }),
{
    let over_ms = s.profile.over_airtime.nanos as int * 2 / 1_000_000 / 2;
    let span = crate::session::jitter_span(s.profile);
    assert(span == if over_ms < 1 {
        1
    } else {
        over_ms
    });
    let h = crate::session::fnv1a(crate::callsign::ascii_bytes(s.local)).wrapping_add(
        s.silent_overs as u64,
    ).wrapping_mul(crate::session::FNV_PRIME);
    assert(s.jitter_ms() == h % span);
    assert(0 <= s.jitter_ms() * crate::time::NANOS_PER_MILLI <= u64::MAX * 1_000_000);
}

/// There is room for a message exactly where every fragment of it gets a number and one is
/// left for the next.
pub proof fn room_is_what_the_numbers_leave(s: ConnModel, data: Seq<u8>)
    ensures
        s.has_room(data.len() as int) <==> s.send.next_seq + crate::delivery::fragments_of(
            data,
            s.fragment_size(),
        ).len() <= 0xFFFF_FFFF,
        s.fragment_size() == (if s.profile.per_over_mtu == 0 {
            1
        } else {
            s.profile.per_over_mtu as nat
        }),
{
    crate::delivery::lemma_fragment_count(data, s.fragment_size());
}

} // verus!
