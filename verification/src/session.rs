//! The connection as a mathematical machine: its state, and what each input does to
//! it. [`Connection`](crate::conn::Connection) is proved to follow it step by step.
use crate::arq::{Fragment, RecvModel, SendModel};
use crate::frame::{FrameModel, FrameType, StationText};
use crate::mac::{ArqStrategy, Route, Rung};
use crate::profile::ModeProfile;
use crate::transport::FrameErrorRate;
use vstd::prelude::*;

verus! {

/// CONN retransmissions before a connect attempt fails.
pub const MAX_CONN_RETRIES: u32 = 5;

/// DISC retransmissions before teardown completes on its own.
pub const MAX_DISC_RETRIES: u32 = 3;

/// Consecutive silent overs tolerated before the link is declared dead.
pub const DEAD_OVERS_TOLERATED: u32 = 6;

/// Consecutive silent overs on a faster rung before falling to the base. Below
/// [`DEAD_OVERS_TOLERATED`], so that the base gets a death budget of its own.
pub const DOWNSHIFT_TO_BASE_OVERS: u32 = 3;

/// Connection lifecycle state.
#[derive(Debug, Clone, Copy, PartialEq, Eq, Structural)]
pub enum ConnState {
    /// No session.
    Closed,
    /// CONN sent, awaiting CONN_ACK.
    Connecting,
    /// Session up.
    Connected,
    /// DISC sent, awaiting DISC_ACK.
    Disconnecting,
}

/// Who may key up while a session is up.
#[derive(Debug, Clone, Copy, PartialEq, Eq, Structural)]
pub enum Floor {
    /// This station holds the floor.
    Sending,
    /// The peer holds the floor.
    Listening,
    /// Nobody does: either station may take it by transmitting.
    Idle,
}

/// What a [`HostEvent`](crate::conn::HostEvent) says.
#[verifier::ext_equal]
pub enum EventModel {
    /// The session is established.
    Connected,
    /// A whole host message was delivered.
    DataReceived(Seq<u8>),
    /// The session was torn down cleanly.
    Disconnected,
    /// The link died of sustained silence.
    PeerLost,
    /// A connect attempt exhausted its retries.
    ConnectFailed,
}

/// The state of a connection.
#[verifier::ext_equal]
pub struct ConnModel {
    /// This station.
    pub local: Seq<char>,
    /// The peer, where it is known.
    pub remote: Option<Seq<char>>,
    /// Whether the peer is learned from its CONN, rather than configured.
    pub learns_remote: bool,
    /// Profile that the link timers derive from.
    pub profile: ModeProfile,
    /// The adaptation ladder.
    pub ladder: Seq<Rung>,
    /// Session id.
    pub conn_id: u16,
    /// Lifecycle state.
    pub state: ConnState,
    /// Who may key up.
    pub floor: Floor,
    /// Send window.
    pub send: SendModel,
    /// Receive buffer.
    pub recv: RecvModel,
    /// Bytes of a host message that is still incomplete.
    pub partial: Seq<u8>,
    /// Sequence numbers that end a host message.
    pub msg_ends: Set<u32>,
    /// Frames waiting to be transmitted.
    pub outbox: Seq<FrameModel>,
    /// Events waiting for the host.
    pub events: Seq<EventModel>,
    /// When the running timer is due, in nanoseconds.
    pub deadline: Option<u128>,
    /// Whether an over of ours awaits its reply.
    pub awaiting_reply: bool,
    /// Whether data was received that is not acknowledged yet.
    pub owe_ack: bool,
    /// Whether acknowledgements carry the selective bitmap.
    pub sack_enabled: bool,
    /// Current rung.
    pub current_rung: u8,
    /// Latest SNR measured on the peer.
    pub snr_raw: Option<i32>,
    /// The same, falling at once and rising slowly, in [`SNR_UNITS`].
    pub snr_smoothed: Option<i64>,
    /// Frame-error rate measured on the peer.
    pub fer: FrameErrorRate,
    /// Frames behind that rate.
    pub fer_samples: u32,
    /// Window that the connection was constructed with.
    pub initial_window: u32,
    /// Consecutive overs that went unanswered.
    pub silent_overs: u32,
    /// CONN retransmissions so far.
    pub conn_retries: u32,
    /// DISC retransmissions so far.
    pub disc_retries: u32,
}

/// Basis of the FNV-1a hash.
pub const FNV_BASIS: u64 = 0xcbf2_9ce4_8422_2325;

/// Prime of the FNV-1a hash.
pub const FNV_PRIME: u64 = 0x100_0000_01b3;

/// The FNV-1a hash of some bytes.
pub open spec fn fnv1a(bytes: Seq<u8>) -> u64
    decreases bytes.len(),
{
    if bytes.len() == 0 {
        FNV_BASIS
    } else {
        (fnv1a(bytes.drop_last()) ^ bytes.last() as u64).wrapping_mul(FNV_PRIME)
    }
}

/// Half a turn-recovery timeout in whole milliseconds, at least one.
pub open spec fn jitter_span(profile: ModeProfile) -> u64 {
    let half = (profile.turn_recovery_nanos() / crate::time::NANOS_PER_MILLI) / 2;
    (if half < 1 {
        1
    } else {
        half
    }) as u64
}

/// Units of the smoothed SNR to a thousandth of a decibel. A unit is about a millionth of
/// a decibel: many halvings of a rise are kept before any is rounded.
pub const SNR_UNITS: i64 = 1024;

/// The SNR estimate after a reading: falling at once, rising half way, to the nearest
/// unit.
pub open spec fn smoothed(estimate: Option<i64>, reading: i32) -> int {
    let level = reading * SNR_UNITS;
    match estimate {
        None => level,
        Some(e) => if level < e {
            level
        } else {
            (level + e + 1) / 2
        },
    }
}

/// An SNR estimate is one that readings can give.
pub open spec fn is_estimate(e: i64) -> bool {
    i32::MIN * SNR_UNITS <= e <= i32::MAX * SNR_UNITS
}

/// An SNR estimate in whole thousandths of a decibel. It clears exactly the thresholds that
/// the estimate itself clears, for those are whole thousandths.
pub open spec fn whole_mdb(estimate: Option<i64>) -> Option<i32> {
    match estimate {
        None => None,
        Some(e) => Some((e as int / SNR_UNITS as int) as i32),
    }
}

/// A window with a run of payloads enqueued.
pub open spec fn enqueued_all(w: SendModel, frags: Seq<Fragment>) -> SendModel
    decreases frags.len(),
{
    if frags.len() == 0 {
        w
    } else {
        enqueued_all(w, frags.drop_last()).enqueued(frags.last().payload)
    }
}

impl ConnModel {
    /// A connection before its first session.
    pub open spec fn fresh(
        local: Seq<char>,
        remote: Option<Seq<char>>,
        learns_remote: bool,
        conn_id: u16,
        ladder: Seq<Rung>,
        window: u32,
    ) -> Self {
        let rung = crate::mac::base_of(ladder) as u8;
        let route = ladder[rung as int].route;
        ConnModel {
            local,
            remote,
            learns_remote,
            profile: route.profile,
            ladder,
            conn_id,
            state: ConnState::Closed,
            floor: Floor::Listening,
            send: SendModel::fresh(route.window.window),
            recv: RecvModel::fresh(route.window.window),
            partial: Seq::empty(),
            msg_ends: Set::empty(),
            outbox: Seq::empty(),
            events: Seq::empty(),
            deadline: None,
            awaiting_reply: false,
            owe_ack: false,
            sack_enabled: route.strategy == ArqStrategy::SelectiveRepeat,
            current_rung: rung,
            snr_raw: None,
            snr_smoothed: None,
            fer: FrameErrorRate { failed: 0, total: 0 },
            fer_samples: 0,
            initial_window: window,
            silent_overs: 0,
            conn_retries: 0,
            disc_retries: 0,
        }
    }

    /// What every operation keeps: the stations are callsigns, the peer is known
    /// wherever a session is, the current rung is an available one, the ARQ pieces are
    /// sound, the SNR estimate is one of readings, and no counter has passed its limit.
    pub open spec fn wf(self) -> bool {
        &&& crate::callsign::is_callsign(self.local)
        &&& self.remote matches Some(r) ==> crate::callsign::is_callsign(r)
        &&& !self.learns_remote ==> self.remote is Some
        &&& self.state != ConnState::Closed ==> self.remote is Some
        &&& crate::mac::ladder_wf(self.ladder)
        &&& self.current_rung < self.ladder.len()
        &&& self.ladder[self.current_rung as int].available
        &&& self.send.wf()
        &&& self.recv.wf()
        &&& self.initial_window >= 1
        &&& self.snr_smoothed matches Some(e) ==> is_estimate(e)
        &&& self.silent_overs <= DEAD_OVERS_TOLERATED
        &&& self.conn_retries <= MAX_CONN_RETRIES
        &&& self.disc_retries <= MAX_DISC_RETRIES
    }

    /// The route of the current rung.
    pub open spec fn route(self) -> Route {
        self.ladder[self.current_rung as int].route
    }

    /// Whether any data is unacknowledged.
    pub open spec fn has_unacked(self) -> bool {
        self.send.frames.dom() != Set::<u32>::empty()
    }

    /// Whether there is a reason to hold the floor.
    pub open spec fn wants_floor(self) -> bool {
        self.has_unacked() || self.owe_ack
    }

    /// The timer that runs out one turn-recovery timeout from now.
    pub open spec fn recovery_at(self, now: u128) -> u128 {
        crate::time::capped_sum(now, self.profile.turn_recovery_nanos())
    }

    /// The jitter added to the turn-recovery timer, in milliseconds.
    pub open spec fn jitter_ms(self) -> u64 {
        let h = fnv1a(crate::callsign::ascii_bytes(self.local)).wrapping_add(
            self.silent_overs as u64,
        ).wrapping_mul(FNV_PRIME);
        let span = jitter_span(self.profile);
        if span == 0 {
            0
        } else {
            h % span
        }
    }

    /// The jitter added to the turn-recovery timer, in nanoseconds.
    pub open spec fn jitter(self) -> u128 {
        (self.jitter_ms() * crate::time::NANOS_PER_MILLI) as u128
    }

    /// The timer that runs out one turn-recovery timeout and the jitter from now.
    pub open spec fn jittered_at(self, now: u128) -> u128 {
        crate::time::capped_sum(self.recovery_at(now), self.jitter())
    }

    /// The rung recommended to the peer.
    pub open spec fn advice(self) -> u8 {
        crate::mac::adapted(
            self.ladder,
            self.current_rung,
            self.snr_raw,
            whole_mdb(self.snr_smoothed),
            self.fer,
            self.fer_samples,
        ) as u8
    }

    /// A frame stamped with the current rung and the recommendation.
    pub open spec fn stamped(self, f: FrameModel) -> FrameModel {
        f.at_mode(self.current_rung).advising(self.advice())
    }

    /// The station-ID block of our frames.
    pub open spec fn station(self) -> StationText {
        StationText { src: self.local, dst: self.remote->0 }
    }

    /// A control frame.
    pub open spec fn control(self, t: FrameType, seq: u32) -> FrameModel {
        self.stamped(
            FrameModel {
                id: if t.bears_id() {
                    Some(self.station())
                } else {
                    None
                },
                ..FrameModel::blank(t, self.conn_id, seq)
            },
        )
    }

    /// The selective bitmap that our acknowledgements carry.
    pub open spec fn sack_to_send(self) -> u32 {
        if self.sack_enabled {
            self.recv.sack()
        } else {
            0
        }
    }

    /// A data frame, with the acknowledgement that rides on it.
    pub open spec fn data_frame(self, seq: u32, payload: Seq<u8>) -> FrameModel {
        let f = FrameModel {
            ack_through: (self.recv.next_expected - 1) as u32,
            sack: self.sack_to_send(),
            mode: self.current_rung,
            payload,
            ..FrameModel::blank(FrameType::Data, self.conn_id, seq)
        };
        (if self.msg_ends.contains(seq) {
            f.ending_msg()
        } else {
            f
        }).advising(self.advice())
    }

    /// A bare acknowledgement.
    pub open spec fn ack_frame(self) -> FrameModel {
        self.stamped(
            FrameModel {
                ack_through: (self.recv.next_expected - 1) as u32,
                sack: self.sack_to_send(),
                ..FrameModel::blank(FrameType::Ack, self.conn_id, 0)
            },
        )
    }

    /// The frames of the next over before the last is marked: the data in the window,
    /// else the acknowledgement owed, else a keepalive that passes the floor.
    pub open spec fn over_body(self) -> Seq<FrameModel> {
        let data = self.send.over();
        if data.len() > 0 {
            Seq::new(data.len(), |i: int| self.data_frame(data[i].0, data[i].1))
        } else if self.owe_ack {
            seq![self.ack_frame()]
        } else {
            seq![self.control(FrameType::Keepalive, 0)]
        }
    }

    /// The frames of the next over. The last of them passes the floor.
    pub open spec fn over(self) -> Seq<FrameModel> {
        let body = self.over_body();
        body.drop_last().push(body.last().ending_over())
    }

    /// With the next over in the outbox.
    pub open spec fn with_over(self) -> Self {
        ConnModel { outbox: self.outbox + self.over(), owe_ack: false, ..self }
    }

    /// With another frame in the outbox.
    pub open spec fn queueing(self, f: FrameModel) -> Self {
        ConnModel { outbox: self.outbox.push(f), ..self }
    }

    /// With another event for the host.
    pub open spec fn telling(self, e: EventModel) -> Self {
        ConnModel { events: self.events.push(e), ..self }
    }

    /// With the ARQ as a route has it.
    pub open spec fn configured(self, r: Route) -> Self {
        ConnModel {
            send: self.send.resized(r.window.window),
            recv: self.recv.resized(r.window.window),
            sack_enabled: r.strategy == ArqStrategy::SelectiveRepeat,
            ..self
        }
    }

    /// With the ARQ strategy chosen by hand.
    pub open spec fn with_strategy(self, strategy: ArqStrategy) -> Self {
        let window = match strategy {
            ArqStrategy::SelectiveRepeat => self.initial_window,
            ArqStrategy::WholeMessage => 1,
        };
        ConnModel {
            sack_enabled: strategy == ArqStrategy::SelectiveRepeat,
            send: SendModel::fresh(window),
            recv: RecvModel::fresh(window),
            ..self
        }
    }

    /// On the available rung nearest to `id`. The ARQ, the profile and a running timer
    /// follow the rung; the error rate starts over, and so does the SNR estimate where
    /// the waveform family changes.
    pub open spec fn at_rung(self, id: u8, now: u128) -> Self {
        let to = crate::mac::clamped(self.ladder, id) as u8;
        if to == self.current_rung {
            self
        } else {
            let rung = self.ladder[to as int];
            let same_family = rung.family == self.ladder[self.current_rung as int].family;
            let moved = ConnModel {
                current_rung: to,
                profile: rung.route.profile,
                fer: FrameErrorRate { failed: 0, total: 0 },
                fer_samples: 0,
                snr_raw: if same_family {
                    self.snr_raw
                } else {
                    None
                },
                snr_smoothed: if same_family {
                    self.snr_smoothed
                } else {
                    None
                },
                ..self.configured(rung.route)
            };
            ConnModel {
                deadline: if self.deadline is Some {
                    Some(moved.recovery_at(now))
                } else {
                    None
                },
                ..moved
            }
        }
    }

    /// The more robust of the peer's recommendation and our own, applied.
    pub open spec fn heeding(self, peer_rx_rung: u8, now: u128) -> Self {
        let own = self.advice();
        self.at_rung(
            if peer_rx_rung >= own {
                peer_rx_rung
            } else {
                own
            },
            now,
        )
    }

    /// Adaptation on an inbound frame: the station that awaits a reply heeds the peer's
    /// recommendation, and the other follows the peer's rung.
    pub open spec fn adapting(self, f: FrameModel, now: u128) -> Self {
        if self.awaiting_reply {
            self.heeding(f.advised_rung(), now)
        } else {
            self.at_rung(f.mode, now)
        }
    }

    /// After a channel measurement.
    pub open spec fn measured(
        self,
        snr: Option<i32>,
        fer: FrameErrorRate,
        samples: u32,
    ) -> Self {
        let counted = ConnModel { fer, fer_samples: samples, ..self };
        match snr {
            None => counted,
            Some(reading) => ConnModel {
                snr_raw: Some(reading),
                snr_smoothed: Some(smoothed(self.snr_smoothed, reading) as i64),
                ..counted
            },
        }
    }

    /// With all state of a session cleared. A learned peer is forgotten, a configured
    /// one kept, and the profile stays that of the last rung.
    pub open spec fn reset(self) -> Self {
        let rung = crate::mac::base_of(self.ladder) as u8;
        let route = self.ladder[rung as int].route;
        ConnModel {
            remote: if self.learns_remote {
                None
            } else {
                self.remote
            },
            send: SendModel::fresh(route.window.window),
            recv: RecvModel::fresh(route.window.window),
            partial: Seq::empty(),
            sack_enabled: route.strategy == ArqStrategy::SelectiveRepeat,
            current_rung: rung,
            snr_raw: None,
            snr_smoothed: None,
            fer: FrameErrorRate { failed: 0, total: 0 },
            fer_samples: 0,
            msg_ends: Set::empty(),
            floor: Floor::Listening,
            awaiting_reply: false,
            owe_ack: false,
            silent_overs: 0,
            conn_retries: 0,
            disc_retries: 0,
            deadline: None,
            ..self
        }
    }

    /// Closed, with the host told why.
    pub open spec fn closed(self, e: EventModel) -> Self {
        ConnModel { state: ConnState::Closed, ..self.reset() }.telling(e)
    }

    /// After the host asked to connect.
    pub open spec fn connecting(self, now: u128) -> Self {
        if self.state != ConnState::Closed {
            self
        } else {
            let s = ConnModel { state: ConnState::Connecting, conn_retries: 0, ..self };
            ConnModel {
                deadline: Some(s.recovery_at(now)),
                ..s.queueing(s.control(FrameType::Conn, crate::arq::FIRST_SEQ))
            }
        }
    }

    /// Bytes of one fragment of a host message.
    pub open spec fn fragment_size(self) -> nat {
        if self.profile.per_over_mtu < 1 {
            1
        } else {
            self.profile.per_over_mtu as nat
        }
    }

    /// Whether the sequence space has room for a message of `len` bytes.
    pub open spec fn has_room(self, len: int) -> bool {
        self.send.next_seq + crate::mac::frames_needed(len, self.fragment_size() as int)
            <= u32::MAX
    }

    /// After the host sent a message.
    pub open spec fn sending(self, data: Seq<u8>) -> Self {
        let send = enqueued_all(
            self.send,
            crate::delivery::fragments_of(data, self.fragment_size()),
        );
        ConnModel { send, msg_ends: self.msg_ends.insert((send.next_seq - 1) as u32), ..self }
    }

    /// After the host asked to disconnect.
    pub open spec fn disconnecting(self, now: u128) -> Self {
        if self.state != ConnState::Connected {
            self
        } else {
            let s = ConnModel { state: ConnState::Disconnecting, disc_retries: 0, ..self };
            ConnModel {
                deadline: Some(s.recovery_at(now)),
                ..s.queueing(s.control(FrameType::Disc, 0))
            }
        }
    }

    /// After the timers were advanced to `now`.
    pub open spec fn timed_out(self, now: u128) -> Self {
        if !(self.deadline matches Some(d) && now >= d) {
            self
        } else {
            match self.state {
                ConnState::Connecting => if self.conn_retries + 1 > MAX_CONN_RETRIES {
                    self.closed(EventModel::ConnectFailed)
                } else {
                    let s = ConnModel { conn_retries: (self.conn_retries + 1) as u32, ..self };
                    ConnModel {
                        deadline: Some(s.recovery_at(now)),
                        ..s.queueing(s.control(FrameType::Conn, crate::arq::FIRST_SEQ))
                    }
                },
                ConnState::Disconnecting => if self.disc_retries + 1 > MAX_DISC_RETRIES {
                    self.closed(EventModel::Disconnected)
                } else {
                    let s = ConnModel { disc_retries: (self.disc_retries + 1) as u32, ..self };
                    ConnModel {
                        deadline: Some(s.recovery_at(now)),
                        ..s.queueing(s.control(FrameType::Disc, 0))
                    }
                },
                ConnState::Connected => if self.floor != Floor::Listening {
                    self
                } else if self.awaiting_reply {
                    self.unanswered(now)
                } else {
                    ConnModel { floor: Floor::Idle, deadline: None, ..self }
                },
                ConnState::Closed => self,
            }
        }
    }

    /// After an over of ours went unanswered: fall to the base after a few on a faster
    /// rung, give up after more, else step down one rung; and take the floor back to
    /// retransmit.
    pub open spec fn unanswered(self, now: u128) -> Self {
        let base = crate::mac::base_of(self.ladder);
        let s = ConnModel { silent_overs: (self.silent_overs + 1) as u32, ..self };
        if s.current_rung != base && s.silent_overs >= DOWNSHIFT_TO_BASE_OVERS {
            ConnModel {
                silent_overs: 0,
                floor: Floor::Sending,
                deadline: None,
                ..s.at_rung(base as u8, now)
            }
        } else if s.silent_overs > DEAD_OVERS_TOLERATED {
            s.closed(EventModel::PeerLost)
        } else if s.current_rung != base {
            ConnModel {
                floor: Floor::Sending,
                deadline: None,
                ..s.at_rung((s.current_rung + 1) as u8, now)
            }
        } else {
            ConnModel { floor: Floor::Sending, deadline: None, ..s }
        }
    }

    /// With the next over built, where the outbox is empty and the floor is ours or can
    /// be taken for something to say.
    pub open spec fn primed(self) -> Self {
        if self.state == ConnState::Connected && self.outbox.len() == 0 {
            if self.floor == Floor::Idle && self.wants_floor() {
                ConnModel { floor: Floor::Sending, ..self }.with_over()
            } else if self.floor == Floor::Sending {
                self.with_over()
            } else {
                self
            }
        } else {
            self
        }
    }

    /// The next frame to transmit.
    pub open spec fn next_frame(self) -> Option<FrameModel> {
        if self.primed().outbox.len() > 0 {
            Some(self.primed().outbox[0])
        } else {
            None
        }
    }

    /// After the next frame was taken for transmission. The end of our over passes the
    /// floor: to the peer, if data awaits its acknowledgement, else to whoever speaks
    /// next.
    pub open spec fn transmitted(self, now: u128) -> Self {
        let p = self.primed();
        if p.outbox.len() == 0 {
            p
        } else {
            let q = ConnModel { outbox: p.outbox.drop_first(), ..p };
            if p.state == ConnState::Connected && p.outbox[0].ends_over() {
                if q.has_unacked() {
                    ConnModel {
                        awaiting_reply: true,
                        floor: Floor::Listening,
                        deadline: Some(q.jittered_at(now)),
                        ..q
                    }
                } else {
                    ConnModel { awaiting_reply: false, floor: Floor::Idle, deadline: None, ..q }
                }
            } else {
                q
            }
        }
    }

    /// Whether a frame belongs to the running session.
    pub open spec fn in_session(self, f: FrameModel) -> bool {
        self.state == ConnState::Connected && f.conn_id == self.conn_id
    }

    /// Whether an ID-bearing frame names us as its destination and our peer, where it is
    /// known, as its source.
    pub open spec fn addressed(self, f: FrameModel) -> bool {
        f.id matches Some(id) && id.dst == self.local && (self.remote matches Some(r) ==> r
            == id.src)
    }

    /// After the peer's over ended: take the floor for something to say, else leave it
    /// free.
    pub open spec fn over_ended(self) -> Self {
        let s = ConnModel { silent_overs: 0, deadline: None, ..self };
        if s.wants_floor() {
            ConnModel { floor: Floor::Sending, ..s }
        } else {
            ConnModel { floor: Floor::Idle, awaiting_reply: false, ..s }
        }
    }

    /// The end of the peer's over, where a frame carries it.
    pub open spec fn maybe_over_ended(self, f: FrameModel) -> Self {
        if f.ends_over() {
            self.over_ended()
        } else {
            self
        }
    }

    /// A session accepted from the peer.
    pub open spec fn accepting(self, conn_id: u16, seq: u32, now: u128) -> Self {
        let s = ConnModel {
            conn_id,
            state: ConnState::Connected,
            floor: Floor::Listening,
            awaiting_reply: false,
            silent_overs: 0,
            ..self
        };
        let t = ConnModel { deadline: Some(s.jittered_at(now)), ..s }.telling(
            EventModel::Connected,
        );
        t.queueing(t.control(FrameType::ConnAck, seq))
    }

    /// After a CONN.
    pub open spec fn on_conn(self, f: FrameModel, now: u128) -> Self {
        if !(f.id matches Some(id) && id.dst == self.local) || f.conn_id
            == crate::frame::CONN_ID_RESERVED {
            self
        } else {
            let peer = f.id->0.src;
            match self.state {
                ConnState::Closed => if self.learns_remote {
                    ConnModel { remote: Some(peer), ..self }.accepting(f.conn_id, f.seq, now)
                } else if self.remote == Some(peer) {
                    self.accepting(f.conn_id, f.seq, now)
                } else {
                    self
                },
                ConnState::Connected => if self.remote != Some(peer) {
                    self
                } else if f.conn_id == self.conn_id {
                    self.queueing(self.control(FrameType::ConnAck, f.seq))
                } else {
                    ConnModel { remote: Some(peer), ..self.reset() }.accepting(
                        f.conn_id,
                        f.seq,
                        now,
                    )
                },
                ConnState::Connecting => if self.remote == Some(peer)
                    && crate::callsign::not_after(self.local, peer) {
                    self.accepting(f.conn_id, f.seq, now)
                } else {
                    self
                },
                ConnState::Disconnecting => self,
            }
        }
    }

    /// After a CONN_ACK.
    pub open spec fn on_conn_ack(self, f: FrameModel, now: u128) -> Self {
        if self.state == ConnState::Connecting && f.conn_id == self.conn_id && (
        f.id matches Some(id) && id.dst == self.local && self.remote == Some(id.src)) {
            ConnModel {
                state: ConnState::Connected,
                floor: Floor::Sending,
                silent_overs: 0,
                deadline: None,
                ..self
            }.telling(EventModel::Connected).heeding(f.advised_rung(), now)
        } else {
            self
        }
    }

    /// After a DISC.
    pub open spec fn on_disc(self, f: FrameModel) -> Self {
        if (self.state == ConnState::Connected || self.state == ConnState::Disconnecting)
            && f.conn_id == self.conn_id && self.addressed(f) {
            self.queueing(self.control(FrameType::DiscAck, 0)).closed(EventModel::Disconnected)
        } else {
            self
        }
    }

    /// After a DISC_ACK.
    pub open spec fn on_disc_ack(self, f: FrameModel) -> Self {
        if self.state == ConnState::Disconnecting && f.conn_id == self.conn_id && self.addressed(
            f,
        ) {
            self.closed(EventModel::Disconnected)
        } else {
            self
        }
    }

    /// After any frame of the session: the peer is alive, and its rung or
    /// recommendation counts.
    pub open spec fn hearing(self, f: FrameModel, now: u128) -> Self {
        ConnModel { silent_overs: 0, ..self }.adapting(f, now)
    }

    /// After an identification.
    pub open spec fn on_id(self, f: FrameModel, now: u128) -> Self {
        if self.in_session(f) && self.addressed(f) {
            self.hearing(f, now).maybe_over_ended(f)
        } else {
            self
        }
    }

    /// The fragment in a data frame.
    pub open spec fn fragment(f: FrameModel) -> Fragment {
        Fragment { payload: f.payload, end_of_msg: f.ends_msg() }
    }

    /// After a data frame of the session.
    pub open spec fn on_data(self, f: FrameModel, now: u128) -> Self {
        let s = self.hearing(f, now);
        let run = s.recv.delivers(f.seq, ConnModel::fragment(f));
        ConnModel {
            send: s.send.acked(f.ack_through, f.sack),
            recv: s.recv.accepted(f.seq, ConnModel::fragment(f)),
            partial: crate::delivery::partial_after(s.partial, run),
            events: s.events + crate::delivery::messages(s.partial, run).map_values(
                |m: Seq<u8>| EventModel::DataReceived(m),
            ),
            owe_ack: true,
            ..s
        }.maybe_over_ended(f)
    }

    /// After an acknowledgement of the session.
    pub open spec fn on_ack(self, f: FrameModel, now: u128) -> Self {
        let s = self.hearing(f, now);
        ConnModel { send: s.send.acked(f.ack_through, f.sack), ..s }.maybe_over_ended(f)
    }

    /// After a keepalive of the session.
    pub open spec fn on_keepalive(self, f: FrameModel, now: u128) -> Self {
        self.hearing(f, now).maybe_over_ended(f)
    }

    /// After any inbound frame.
    pub open spec fn received(self, f: FrameModel, now: u128) -> Self {
        match f.frame_type {
            FrameType::Conn => self.on_conn(f, now),
            FrameType::ConnAck => self.on_conn_ack(f, now),
            FrameType::Disc => self.on_disc(f),
            FrameType::DiscAck => self.on_disc_ack(f),
            FrameType::Id => self.on_id(f, now),
            FrameType::Data => if self.in_session(f) {
                self.on_data(f, now)
            } else {
                self
            },
            FrameType::Ack => if self.in_session(f) {
                self.on_ack(f, now)
            } else {
                self
            },
            FrameType::Keepalive => if self.in_session(f) {
                self.on_keepalive(f, now)
            } else {
                self
            },
            FrameType::Nak => self,
        }
    }
}

} // verus!
