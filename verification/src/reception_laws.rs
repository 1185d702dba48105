//! What an inbound frame does to a connection.
use crate::adaptation_laws::{more_robust, moves_to};
use crate::arq::Fragment;
use crate::frame::{FrameModel, FrameType, StationText};
use crate::session::{ConnModel, ConnState, EventModel, Floor};
use crate::turn_laws::{has_something_to_say, is_closed_after, is_control, queued_one, starts_anew};
use vstd::prelude::*;

verus! {

/// The turn after a frame of the session, where `h` is the connection once the frame was
/// heard. The frame that ends the peer's over ends the wait: with something to say the
/// station takes the floor, else the floor is free and no reply is awaited. No other frame
/// touches the turn.
pub open spec fn turn_follows(h: ConnModel, t: ConnModel, f: FrameModel) -> bool {
    &&& f.flags % 2 == 0 ==> t.floor == h.floor && t.awaiting_reply == h.awaiting_reply
        && t.deadline == h.deadline
    &&& f.flags % 2 == 1 ==> {
        &&& t.deadline is None
        &&& has_something_to_say(t) ==> t.floor == Floor::Sending && t.awaiting_reply
            == h.awaiting_reply
        &&& !has_something_to_say(t) ==> t.floor == Floor::Idle && !t.awaiting_reply
    }
}

/// The frame names this station as its destination and the peer as its source.
pub open spec fn is_from_the_peer(s: ConnModel, f: FrameModel) -> bool {
    f.id matches Some(id) && id.dst == s.local && s.remote == Some(id.src)
}

/// The frame belongs to the running session: of its data, acknowledgements and keepalives
/// each that has its number, and of its identifications each that also names both stations.
pub open spec fn is_of_the_session(s: ConnModel, f: FrameModel) -> bool {
    &&& s.state == ConnState::Connected
    &&& f.conn_id == s.conn_id
    &&& f.frame_type is Data || f.frame_type is Ack || f.frame_type is Keepalive || (
    f.frame_type is Id && is_from_the_peer(s, f))
}

/// A frame of the session is heard, and then does what its type says. Data and
/// acknowledgements clear what they acknowledge from the window; data goes into the receive
/// buffer and is owed an acknowledgement; nothing else does either. Then the turn follows.
pub proof fn session_frame_does_what_its_type_says(s: ConnModel, f: FrameModel, now: u128)
    requires
        s.wf(),
        is_of_the_session(s, f),
    ensures
        ({
            let h = s.hearing(f, now);
            let t = s.received(f, now);
            let acks = f.frame_type is Data || f.frame_type is Ack;
            let data = f.frame_type is Data;
            &&& t == (ConnModel {
                send: t.send,
                recv: t.recv,
                partial: t.partial,
                events: t.events,
                owe_ack: s.owe_ack || data,
                floor: t.floor,
                awaiting_reply: t.awaiting_reply,
                deadline: t.deadline,
                ..h
            })
            &&& t.silent_overs == 0
            &&& turn_follows(h, t, f)
            &&& acks ==> t.send == h.send.acked(f.ack_through, f.sack)
            &&& !acks ==> t.send == h.send
            &&& data ==> t.recv == h.recv.accepted(
                f.seq,
                Fragment { payload: f.payload, end_of_msg: (f.flags / 2) % 2 == 1 },
            )
            &&& !data ==> t.recv == h.recv && t.partial == s.partial && t.events == s.events
        }),
{
    let h = s.hearing(f, now);
    let t = s.received(f, now);
    crate::frame::flags_hold_tokens_and_advice(f);
    crate::adaptation_laws::session_frame_moves_the_link(s, f, now);
    crate::turn_laws::lemma_wants(t);
    if f.frame_type is Data {
        crate::turn_laws::lemma_wants(
            ConnModel { send: h.send.acked(f.ack_through, f.sack), owe_ack: true, ..h },
        );
    } else if f.frame_type is Ack {
        crate::turn_laws::lemma_wants(
            ConnModel { send: h.send.acked(f.ack_through, f.sack), ..h },
        );
    } else {
        crate::turn_laws::lemma_wants(h);
    }
}

/// Data, acknowledgements, keepalives and identifications change nothing outside their
/// session, and a negative acknowledgement changes nothing at all.
pub proof fn strange_frames_change_nothing(s: ConnModel, f: FrameModel, now: u128)
    requires
        s.wf(),
        f.frame_type is Data || f.frame_type is Ack || f.frame_type is Keepalive || f.frame_type
            is Id || f.frame_type is Nak,
        !is_of_the_session(s, f),
    ensures
        s.received(f, now) == s,
{
}

/// A call was accepted: the session with `peer` under the caller's id is up, the caller has
/// the floor for two overs and the jitter, the host is told, and the call is answered under
/// its own number. Nothing else changes.
pub open spec fn is_accepted(
    s: ConnModel,
    t: ConnModel,
    peer: Seq<char>,
    f: FrameModel,
    now: u128,
) -> bool {
    let due = now + 2 * s.profile.over_airtime.nanos + t.jitter();
    &&& t == (ConnModel {
        remote: Some(peer),
        conn_id: f.conn_id,
        state: ConnState::Connected,
        floor: Floor::Listening,
        awaiting_reply: false,
        silent_overs: 0,
        events: s.events.push(EventModel::Connected),
        outbox: t.outbox,
        deadline: t.deadline,
        ..s
    })
    &&& queued_one(s.outbox, t.outbox)
    &&& is_control(t.outbox.last(), t, FrameType::ConnAck, f.seq)
    &&& t.deadline is Some
    &&& due <= u128::MAX ==> t.deadline == Some(due as u128)
}

/// Accepting a call.
proof fn lemma_accepting(s: ConnModel, peer: Seq<char>, f: FrameModel, now: u128)
    ensures
        is_accepted(
            s,
            (ConnModel { remote: Some(peer), ..s }).accepting(f.conn_id, f.seq, now),
            peer,
            f,
            now,
        ),
{
    let r = ConnModel { remote: Some(peer), ..s };
    let t = r.accepting(f.conn_id, f.seq, now);
    let u = ConnModel { outbox: s.outbox, ..t };
    crate::turn_laws::lemma_control(u, FrameType::ConnAck, f.seq);
    assert(u.advice() == t.advice());
    assert(t.outbox.drop_last() =~= s.outbox);
    assert(t.outbox.last() == u.control(FrameType::ConnAck, f.seq));
    assert(t.jitter() == ConnModel {
        conn_id: f.conn_id,
        state: ConnState::Connected,
        floor: Floor::Listening,
        awaiting_reply: false,
        silent_overs: 0,
        ..r
    }.jitter());
}

/// What a call does.
/// - One for another station, or under the id that no session has, changes nothing.
/// - Out of a session it is accepted from the configured peer, or from anyone by a station
///   that learns its peer.
/// - In a session the peer's repeated call is answered again, and its call under another id
///   ends the old session and begins a new one, with nothing left of the old. Others change
///   nothing.
/// - Of two stations that call each other, the one whose callsign comes first accepts.
/// - While a session is being ended no call is heard.
pub proof fn calls_are_answered_where_they_should(s: ConnModel, f: FrameModel, now: u128)
    requires
        s.wf(),
        f.frame_type is Conn,
    ensures
        ({
            let t = s.received(f, now);
            let for_us = f.conn_id != 0 && f.id is Some && f.id->0.dst == s.local;
            let peer = f.id->0.src;
            let known = s.remote == Some(peer);
            &&& !for_us ==> t == s
            &&& for_us && s.state == ConnState::Closed ==> if s.learns_remote || known {
                is_accepted(s, t, peer, f, now)
            } else {
                t == s
            }
            &&& for_us && s.state == ConnState::Connecting ==> if known
                && crate::callsign::not_after(s.local, peer) {
                is_accepted(s, t, peer, f, now)
            } else {
                t == s
            }
            &&& for_us && s.state == ConnState::Connected ==> {
                &&& !known ==> t == s
                &&& known && f.conn_id == s.conn_id ==> {
                    &&& t == (ConnModel { outbox: t.outbox, ..s })
                    &&& queued_one(s.outbox, t.outbox)
                    &&& is_control(t.outbox.last(), s, FrameType::ConnAck, f.seq)
                }
                &&& known && f.conn_id != s.conn_id ==> {
                    let anew = s.reset();
                    &&& starts_anew(s, anew)
                    &&& anew == (ConnModel {
                        remote: anew.remote,
                        send: anew.send,
                        recv: anew.recv,
                        partial: anew.partial,
                        sack_enabled: anew.sack_enabled,
                        current_rung: anew.current_rung,
                        snr_raw: anew.snr_raw,
                        snr_smoothed: anew.snr_smoothed,
                        fer: anew.fer,
                        fer_samples: anew.fer_samples,
                        msg_ends: anew.msg_ends,
                        floor: anew.floor,
                        awaiting_reply: anew.awaiting_reply,
                        owe_ack: anew.owe_ack,
                        silent_overs: anew.silent_overs,
                        conn_retries: anew.conn_retries,
                        disc_retries: anew.disc_retries,
                        deadline: anew.deadline,
                        ..s
                    })
                    &&& is_accepted(anew, t, peer, f, now)
                }
            }
            &&& s.state == ConnState::Disconnecting ==> t == s
        }),
{
    let t = s.received(f, now);
    let peer = f.id->0.src;
    lemma_accepting(s, peer, f, now);
    lemma_accepting(s.reset(), peer, f, now);
    crate::turn_laws::lemma_closed_after(s, EventModel::Disconnected);
    crate::turn_laws::lemma_control(s, FrameType::ConnAck, f.seq);
    if s.remote == Some(peer) {
        assert(s == ConnModel { remote: Some(peer), ..s });
        assert(s.outbox.push(s.control(FrameType::ConnAck, f.seq)).drop_last() =~= s.outbox);
    }
}

/// Of two stations that call each other at once exactly one accepts the other's call.
pub proof fn simultaneous_calls_make_one_session(
    a: ConnModel,
    b: ConnModel,
    call_a: FrameModel,
    call_b: FrameModel,
    now: u128,
)
    requires
        a.wf(),
        b.wf(),
        a.local != b.local,
        a.remote == Some(b.local),
        b.remote == Some(a.local),
        a.state == ConnState::Connecting,
        b.state == ConnState::Connecting,
        call_a.frame_type is Conn && call_a.conn_id != 0,
        call_a.id == Some(StationText { src: a.local, dst: b.local }),
        call_b.frame_type is Conn && call_b.conn_id != 0,
        call_b.id == Some(StationText { src: b.local, dst: a.local }),
    ensures
        a.received(call_b, now).state == ConnState::Connected <==> b.received(call_a, now).state
            == ConnState::Connecting,
        b.received(call_a, now).state == ConnState::Connected <==> a.received(call_b, now).state
            == ConnState::Connecting,
        a.received(call_b, now).state == ConnState::Connected ==> b.received(call_a, now) == b,
{
    crate::callsign::callsigns_are_in_order(a.local, b.local);
}

/// The answer to a call brings the session up: the caller has the floor, the host is told,
/// the timer stops, and the link moves as the peer advises. An answer to another call, or
/// from another station, changes nothing.
pub proof fn answered_call_is_a_session(s: ConnModel, f: FrameModel, now: u128)
    requires
        s.wf(),
        f.frame_type is ConnAck,
    ensures
        ({
            let t = s.received(f, now);
            let ours = s.state == ConnState::Connecting && f.conn_id == s.conn_id
                && is_from_the_peer(s, f);
            let up = ConnModel {
                state: ConnState::Connected,
                floor: Floor::Sending,
                silent_overs: 0,
                deadline: None,
                events: s.events.push(EventModel::Connected),
                ..s
            };
            &&& !ours ==> t == s
            &&& ours ==> moves_to(
                up,
                t,
                more_robust(((f.flags / 4) % 8) as u8, s.advice()),
                now,
            )
        }),
{
    let up = ConnModel {
        state: ConnState::Connected,
        floor: Floor::Sending,
        silent_overs: 0,
        deadline: None,
        events: s.events.push(EventModel::Connected),
        ..s
    };
    crate::frame::flags_hold_tokens_and_advice(f);
    assert(up.advice() == s.advice());
    if s.state == ConnState::Connecting {
        assert(up.wf());
        crate::adaptation_laws::advice_is_heeded_on_the_robust_side(up, f.advised_rung(), now);
    }
}

/// The peer's goodbye ends the session, whichever of the two began to end it: it is answered,
/// and then nothing of the session is left. Another's goodbye changes nothing.
pub proof fn goodbye_is_answered_and_ends_the_session(s: ConnModel, f: FrameModel, now: u128)
    requires
        s.wf(),
        f.frame_type is Disc,
    ensures
        ({
            let t = s.received(f, now);
            let ours = (s.state == ConnState::Connected || s.state == ConnState::Disconnecting)
                && f.conn_id == s.conn_id && is_from_the_peer(s, f);
            &&& !ours ==> t == s
            &&& ours ==> {
                &&& is_closed_after(
                    ConnModel { outbox: t.outbox, ..s },
                    t,
                    EventModel::Disconnected,
                )
                &&& queued_one(s.outbox, t.outbox)
                &&& is_control(t.outbox.last(), s, FrameType::DiscAck, 0)
            }
        }),
{
    let q = s.queueing(s.control(FrameType::DiscAck, 0));
    crate::turn_laws::lemma_control(s, FrameType::DiscAck, 0);
    crate::turn_laws::lemma_closed_after(q, EventModel::Disconnected);
    assert(q.outbox.drop_last() =~= s.outbox);
    assert(q == ConnModel { outbox: q.outbox, ..s });
}

/// The answer to this station's goodbye ends the session. Any other changes nothing.
pub proof fn answered_goodbye_ends_the_session(s: ConnModel, f: FrameModel, now: u128)
    requires
        s.wf(),
        f.frame_type is DiscAck,
    ensures
        ({
            let t = s.received(f, now);
            let ours = s.state == ConnState::Disconnecting && f.conn_id == s.conn_id
                && is_from_the_peer(s, f);
            &&& !ours ==> t == s
            &&& ours ==> is_closed_after(s, t, EventModel::Disconnected)
        }),
{
    crate::turn_laws::lemma_closed_after(s, EventModel::Disconnected);
}

} // verus!
