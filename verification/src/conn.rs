//! The connection: half-duplex, turn-taking, one peer.
//!
//! A [`Connection`] does no I/O and reads no clock. It is driven by host intent
//! ([`Connection::connect`], [`Connection::send`], [`Connection::disconnect`]), by
//! inbound frames ([`Connection::handle_frame`]) and by the time
//! ([`Connection::handle_timeout`]); what comes out is the next frame to transmit
//! ([`Connection::poll_transmit`]) and the next event for the host
//! ([`Connection::poll_event`]).
//!
//! The floor passes in-band, with the frame that ends an over. The initiator owns the
//! first floor. At the end of a peer's over a station takes the floor only if it has
//! something to say, and otherwise leaves it free for either. A turn-recovery timer
//! takes the floor back when a reply stays away; sustained silence is reported, never
//! hidden. Closing clears all state of the session.
use crate::arq::{Reassembler, RecvBuffer, SendWindow, FIRST_SEQ};
use crate::frame::{Callsign, FrameType, LinkFrame, StationId};
use crate::mac::{ArqStrategy, Ladder};
use crate::modes::ModeHint;
use crate::profile::ModeProfile;
pub use crate::session::{ConnState, Floor};
use crate::session::{
    ConnModel, EventModel, DEAD_OVERS_TOLERATED, DOWNSHIFT_TO_BASE_OVERS, FNV_BASIS, FNV_PRIME,
    MAX_CONN_RETRIES, MAX_DISC_RETRIES, SNR_UNITS,
};
use crate::time::Duration;
use crate::transport::FrameErrorRate;
use std::collections::{HashSet, VecDeque};
use vstd::prelude::*;

verus! {

broadcast use vstd::std_specs::hash::group_hash_axioms;

/// Events surfaced to the host.
#[derive(Debug, Clone, PartialEq, Eq)]
pub enum HostEvent {
    /// The session is established.
    Connected,
    /// A whole, in-order host message was reassembled and delivered.
    DataReceived(Vec<u8>),
    /// The session was torn down cleanly.
    Disconnected,
    /// The link died of sustained silence.
    PeerLost,
    /// A connect attempt exhausted its retries.
    ConnectFailed,
}

impl View for HostEvent {
    type V = EventModel;

    open spec fn view(&self) -> EventModel {
        match *self {
            HostEvent::Connected => EventModel::Connected,
            HostEvent::DataReceived(m) => EventModel::DataReceived(m@),
            HostEvent::Disconnected => EventModel::Disconnected,
            HostEvent::PeerLost => EventModel::PeerLost,
            HostEvent::ConnectFailed => EventModel::ConnectFailed,
        }
    }
}

/// A half-duplex, connected-mode link connection to a single peer.
pub struct Connection {
    local: Callsign,
    remote: Option<Callsign>,
    remote_is_learned: bool,
    /// Profile of the active rung; every link timer derives from it.
    pub profile: ModeProfile,
    ladder: Ladder,
    conn_id: u16,
    state: ConnState,
    floor: Floor,
    send: SendWindow,
    /// The receive side of the ARQ.
    pub recv: RecvBuffer,
    reasm: Reassembler,
    msg_end_seqs: HashSet<u32>,
    outbox: VecDeque<LinkFrame>,
    events: VecDeque<HostEvent>,
    /// When the running timer is due.
    pub deadline: Option<Duration>,
    awaiting_reply: bool,
    owe_ack: bool,
    /// Whether acknowledgements carry the selective bitmap.
    pub sack_enabled: bool,
    current_rung: u8,
    /// Latest SNR measured on the peer, in thousandths of a decibel.
    pub snr_raw: Option<i32>,
    /// The same, falling at once and rising slowly, in [`SNR_UNITS`].
    pub snr_smoothed: Option<i64>,
    fer: FrameErrorRate,
    fer_samples: u32,
    initial_window: u32,
    silent_overs: u32,
    conn_retries: u32,
    disc_retries: u32,
}

impl View for Connection {
    type V = ConnModel;

    closed spec fn view(&self) -> ConnModel {
        ConnModel {
            local: self.local@,
            remote: match self.remote {
                Some(c) => Some(c@),
                None => None,
            },
            learns_remote: self.remote_is_learned,
            profile: self.profile,
            ladder: self.ladder.rungs@,
            conn_id: self.conn_id,
            state: self.state,
            floor: self.floor,
            send: self.send@,
            recv: self.recv@,
            partial: self.reasm@,
            msg_ends: self.msg_end_seqs@,
            outbox: self.outbox@.map_values(|f: LinkFrame| f@),
            events: self.events@.map_values(|e: HostEvent| e@),
            deadline: match self.deadline {
                Some(d) => Some(d.nanos),
                None => None,
            },
            awaiting_reply: self.awaiting_reply,
            owe_ack: self.owe_ack,
            sack_enabled: self.sack_enabled,
            current_rung: self.current_rung,
            snr_raw: self.snr_raw,
            snr_smoothed: self.snr_smoothed,
            fer: self.fer,
            fer_samples: self.fer_samples,
            initial_window: self.initial_window,
            silent_overs: self.silent_overs,
            conn_retries: self.conn_retries,
            disc_retries: self.disc_retries,
        }
    }
}

impl Connection {
    /// Construct the initiator, configured with the peer that it calls, over the
    /// registered modes with one profile on every rung.
    pub fn initiator(
        local: Callsign,
        remote: Callsign,
        conn_id: u16,
        profile: ModeProfile,
        window: u32,
    ) -> (c: Self)
        requires
            window >= 1,
        ensures
            c@.wf(),
            c@ == ConnModel::fresh(
                local@,
                Some(remote@),
                false,
                conn_id,
                crate::mac::uniform_ladder(profile),
                window,
            ),
    {
        Connection::with_ladder(
            local,
            Some(remote),
            false,
            conn_id,
            Ladder::standard_with_uniform_profile(profile),
            window,
        )
    }

    /// Construct an acceptor: a listener that learns the calling station from its CONN
    /// and adopts the session id in it.
    pub fn acceptor(local: Callsign, profile: ModeProfile, window: u32) -> (c: Self)
        requires
            window >= 1,
        ensures
            c@.wf(),
            c@ == ConnModel::fresh(
                local@,
                None,
                true,
                0,
                crate::mac::uniform_ladder(profile),
                window,
            ),
    {
        Connection::with_ladder(
            local,
            None,
            true,
            0,
            Ladder::standard_with_uniform_profile(profile),
            window,
        )
    }

    /// Construct the initiator over an explicit ladder.
    pub fn initiator_with_ladder(
        local: Callsign,
        remote: Callsign,
        conn_id: u16,
        ladder: Ladder,
        window: u32,
    ) -> (c: Self)
        requires
            window >= 1,
            ladder.wf(),
        ensures
            c@.wf(),
            c@ == ConnModel::fresh(local@, Some(remote@), false, conn_id, ladder.rungs@, window),
    {
        Connection::with_ladder(local, Some(remote), false, conn_id, ladder, window)
    }

    /// Construct an acceptor over an explicit ladder.
    pub fn acceptor_with_ladder(local: Callsign, ladder: Ladder, window: u32) -> (c: Self)
        requires
            window >= 1,
            ladder.wf(),
        ensures
            c@.wf(),
            c@ == ConnModel::fresh(local@, None, true, 0, ladder.rungs@, window),
    {
        Connection::with_ladder(local, None, true, 0, ladder, window)
    }

    fn with_ladder(
        local: Callsign,
        remote: Option<Callsign>,
        remote_is_learned: bool,
        conn_id: u16,
        ladder: Ladder,
        window: u32,
    ) -> (c: Self)
        requires
            window >= 1,
            ladder.wf(),
            !remote_is_learned ==> remote is Some,
        ensures
            c@.wf(),
            c@ == ConnModel::fresh(
                local@,
                match remote {
                    Some(r) => Some(r@),
                    None => None,
                },
                remote_is_learned,
                conn_id,
                ladder.rungs@,
                window,
            ),
    {
        let current_rung: u8 = ladder.default_rung();
        let route = ladder.rung(current_rung);
        proof {
            crate::mac::lemma_base(ladder.rungs@);
        }
        // Reading a callsign shows that it is a valid one.
        let _ = local.as_str();
        if let Some(r) = &remote {
            let _ = r.as_str();
        }
        let c = Connection {
            local,
            remote,
            remote_is_learned,
            profile: route.profile,
            ladder,
            conn_id,
            state: ConnState::Closed,
            floor: Floor::Listening,
            send: SendWindow::new(route.window.window),
            recv: RecvBuffer::new(route.window.window),
            reasm: Reassembler::new(),
            msg_end_seqs: HashSet::new(),
            outbox: VecDeque::new(),
            events: VecDeque::new(),
            deadline: None,
            awaiting_reply: false,
            owe_ack: false,
            sack_enabled: route.strategy == ArqStrategy::SelectiveRepeat,
            current_rung,
            snr_raw: None,
            snr_smoothed: None,
            fer: FrameErrorRate::none(),
            fer_samples: 0,
            initial_window: window,
            silent_overs: 0,
            conn_retries: 0,
            disc_retries: 0,
        };
        assert(c@.outbox =~= Seq::empty());
        assert(c@.events =~= Seq::empty());
        c
    }

    /// Select the ARQ strategy; to be applied before [`Connection::connect`].
    pub fn with_strategy(self, strategy: ArqStrategy) -> (c: Self)
        requires
            self@.wf(),
        ensures
            c@.wf(),
            c@ == self@.with_strategy(strategy),
    {
        let mut c = self;
        let window: u32 = match strategy {
            ArqStrategy::SelectiveRepeat => c.initial_window,
            ArqStrategy::WholeMessage => 1,
        };
        c.sack_enabled = strategy == ArqStrategy::SelectiveRepeat;
        c.send = SendWindow::new(window);
        c.recv = RecvBuffer::new(window);
        c
    }

    /// Current lifecycle state.
    pub fn state(&self) -> (s: ConnState)
        ensures
            s == self@.state,
    {
        self.state
    }

    /// Session id.
    pub fn conn_id(&self) -> (id: u16)
        ensures
            id == self@.conn_id,
    {
        self.conn_id
    }

    /// The mode to transmit under right now.
    pub fn current_hint(&self) -> (h: ModeHint)
        requires
            self@.wf(),
        ensures
            h == self@.route().mode,
    {
        self.ladder.rung(self.current_rung).mode
    }

    /// Current rung.
    pub fn current_rung(&self) -> (id: u8)
        ensures
            id == self@.current_rung,
    {
        self.current_rung
    }

    /// Whether the sequence space has room for a message of `len` bytes.
    pub fn can_send(&self, len: usize) -> (b: bool)
        requires
            self@.wf(),
        ensures
            b == self@.has_room(len as int),
    {
        let size: usize = self.fragment_size();
        let need: usize = crate::mac::frames_for(len, size);
        need as u64 <= self.send.remaining() as u64
    }

    fn fragment_size(&self) -> (n: usize)
        ensures
            n == self@.fragment_size(),
            n >= 1,
    {
        if self.profile.per_over_mtu < 1 {
            1
        } else {
            self.profile.per_over_mtu
        }
    }

    /// Build a periodic station identification. The peer must be known.
    pub fn make_id_frame(&self) -> (f: LinkFrame)
        requires
            self@.wf(),
            self@.remote is Some,
        ensures
            f@ == self@.control(FrameType::Id, 0),
    {
        self.make_control(FrameType::Id, 0)
    }

    /// Begin connecting. Nothing happens unless the connection is closed. The peer must
    /// be known.
    pub fn connect(&mut self, now: Duration)
        requires
            old(self)@.wf(),
            old(self)@.remote is Some,
        ensures
            final(self)@ == old(self)@.connecting(now.nanos),
            final(self)@.wf(),
    {
        if self.state != ConnState::Closed {
            return;
        }
        self.state = ConnState::Connecting;
        self.conn_retries = 0;
        let conn = self.make_control(FrameType::Conn, FIRST_SEQ);
        self.queue(conn);
        self.deadline = Some(now.saturating_add(self.profile.turn_recovery_timeout()));
    }

    /// Enqueue a host message for reliable, in-order delivery, cut into fragments of
    /// what one over carries. The sequence space must have room for them.
    pub fn send(&mut self, data: Vec<u8>)
        requires
            old(self)@.wf(),
            old(self)@.has_room(data@.len() as int),
        ensures
            final(self)@ == old(self)@.sending(data@),
            final(self)@.wf(),
    {
        let size: usize = self.fragment_size();
        let ghost frags = crate::delivery::fragments_of(data@, size as nat);
        let ghost w = self.send@;
        proof {
            crate::delivery::lemma_fragment_count(data@, size as nat);
            assert(frags.take(0) =~= Seq::empty());
            assert(data@.skip(0) =~= data@);
        }
        let mut at: usize = 0;
        let mut last: u32 = FIRST_SEQ;
        let mut more = true;
        let ghost mut n: int = 0;
        while more
            invariant
                size >= 1,
                at <= data@.len(),
                0 <= n <= frags.len(),
                old(self)@.wf(),
                old(self)@.has_room(data@.len() as int),
                size == old(self)@.fragment_size(),
                w == old(self)@.send,
                frags == crate::delivery::fragments_of(data@, size as nat),
                frags.len() == crate::mac::frames_needed(data@.len() as int, size as int),
                self.send@ == crate::session::enqueued_all(w, frags.take(n)),
                self.send@.next_seq == w.next_seq + n,
                self.send@.wf(),
                self@ == (ConnModel { send: self.send@, ..old(self)@ }),
                more ==> crate::delivery::fragments_of(data@.skip(at as int), size as nat)
                    == frags.skip(n),
                !more ==> n == frags.len() && n >= 1 && last == self.send@.next_seq - 1,
            decreases (if more { data@.len() - at + 1 } else { 0 }),
        {
            let ghost rest = data@.skip(at as int);
            let left: usize = data.len() - at;
            let len: usize = if left <= size {
                left
            } else {
                size
            };
            let mut chunk: Vec<u8> = Vec::new();
            chunk.extend_from_slice(vstd::slice::slice_subrange(data.as_slice(), at, at + len));
            proof {
                let tail = frags.skip(n);
                assert(tail.len() >= 1);
                assert(tail[0] == frags[n]);
                if left <= size {
                    assert(chunk@ =~= rest);
                } else {
                    assert(chunk@ =~= rest.take(size as int));
                    assert(rest.skip(size as int) =~= data@.skip(at + size));
                    assert(tail.drop_first() =~= frags.skip(n + 1));
                    assert(tail.drop_first() =~= crate::delivery::fragments_of(
                        rest.skip(size as int),
                        size as nat,
                    ));
                }
                assert(chunk@ == frags[n].payload);
                assert(frags.take(n + 1).drop_last() =~= frags.take(n));
            }
            last = self.send.enqueue(chunk);
            at = at + len;
            more = left > size;
            proof {
                n = n + 1;
                if !more {
                    assert(frags.skip(n - 1).len() == 1);
                }
            }
        }
        proof {
            assert(frags.take(frags.len() as int) =~= frags);
        }
        self.msg_end_seqs.insert(last);
    }

    /// Begin a clean teardown. Nothing happens unless a session is up.
    pub fn disconnect(&mut self, now: Duration)
        requires
            old(self)@.wf(),
        ensures
            final(self)@ == old(self)@.disconnecting(now.nanos),
            final(self)@.wf(),
    {
        if self.state != ConnState::Connected {
            return;
        }
        self.state = ConnState::Disconnecting;
        self.disc_retries = 0;
        let disc = self.make_control(FrameType::Disc, 0);
        self.queue(disc);
        self.deadline = Some(now.saturating_add(self.profile.turn_recovery_timeout()));
    }

    /// Next event for the host, if any.
    pub fn poll_event(&mut self) -> (e: Option<HostEvent>)
        requires
            old(self)@.wf(),
        ensures
            final(self)@.wf(),
            match e {
                Some(ev) => {
                    &&& old(self)@.events.len() > 0
                    &&& ev@ == old(self)@.events[0]
                    &&& final(self)@ == (ConnModel {
                        events: old(self)@.events.drop_first(),
                        ..old(self)@
                    })
                },
                None => old(self)@.events.len() == 0 && final(self)@ == old(self)@,
            },
    {
        let e = self.events.pop_front();
        proof {
            if e is Some {
                assert(self@.events =~= old(self)@.events.drop_first());
            } else {
                assert(self@.events =~= old(self)@.events);
            }
        }
        e
    }

    /// When the next timer is due.
    pub fn next_timeout(&self) -> (d: Option<Duration>)
        ensures
            match (d, self@.deadline) {
                (Some(t), Some(n)) => t.nanos == n,
                (None, None) => true,
                _ => false,
            },
    {
        self.deadline
    }

    fn queue(&mut self, f: LinkFrame)
        ensures
            final(self)@ == old(self)@.queueing(f@),
    {
        self.outbox.push_back(f);
        assert(self@.outbox =~= old(self)@.outbox.push(f@));
    }

    fn tell(&mut self, e: HostEvent)
        ensures
            final(self)@ == old(self)@.telling(e@),
    {
        self.events.push_back(e);
        assert(self@.events =~= old(self)@.events.push(e@));
    }

    /// The rung that this station recommends to the peer.
    pub fn recommended_rung(&self) -> (id: u8)
        requires
            self@.wf(),
        ensures
            id == self@.advice(),
    {
        self.ladder.adapt_rung(
            self.current_rung,
            self.snr_raw,
            in_whole_mdb(self.snr_smoothed),
            self.fer,
            self.fer_samples,
        )
    }

    fn station_id(&self) -> (s: StationId)
        requires
            self@.remote is Some,
        ensures
            s@ == self@.station(),
    {
        let dst = match &self.remote {
            Some(r) => r.clone(),
            None => self.local.clone(),
        };
        StationId::new(self.local.clone(), dst)
    }

    /// Build a control frame, with the station-ID block where its type carries one.
    fn make_control(&self, frame_type: FrameType, seq: u32) -> (f: LinkFrame)
        requires
            self@.wf(),
            frame_type.bears_id() ==> self@.remote is Some,
        ensures
            f@ == self@.control(frame_type, seq),
    {
        let f = if frame_type.is_id_bearing() {
            LinkFrame::id_control(frame_type, self.station_id(), self.conn_id, seq)
        } else {
            LinkFrame::control(frame_type, self.conn_id, seq)
        };
        f.with_mode(self.current_rung).with_rx_rung(self.recommended_rung())
    }

    /// Build a data frame, with the acknowledgement that rides on it.
    pub fn make_data(&self, seq: u32, payload: Vec<u8>) -> (f: LinkFrame)
        requires
            self@.wf(),
        ensures
            f@ == self@.data_frame(seq, payload@),
    {
        let mut f = LinkFrame::data(self.conn_id, seq, payload);
        f.ack_through = self.recv.ack_through();
        f.sack = self.sack_to_send();
        f.mode = self.current_rung;
        if self.msg_end_seqs.contains(&seq) {
            f = f.end_of_msg();
        }
        f.with_rx_rung(self.recommended_rung())
    }

    /// Build a bare acknowledgement.
    pub fn make_ack(&self) -> (f: LinkFrame)
        requires
            self@.wf(),
        ensures
            f@ == self@.ack_frame(),
    {
        LinkFrame::ack(self.conn_id, self.recv.ack_through(), self.sack_to_send()).with_mode(
            self.current_rung,
        ).with_rx_rung(self.recommended_rung())
    }

    fn sack_to_send(&self) -> (s: u32)
        requires
            self@.wf(),
        ensures
            s == self@.sack_to_send(),
    {
        if self.sack_enabled {
            self.recv.sack()
        } else {
            0
        }
    }

    fn want_floor(&self) -> (b: bool)
        requires
            self@.wf(),
        ensures
            b == self@.wants_floor(),
    {
        self.send.has_unacked() || self.owe_ack
    }

    /// Feed one inbound frame. A session is known by its id alone; frames that carry
    /// callsigns must also name the two stations.
    pub fn handle_frame(&mut self, frame: LinkFrame, now: Duration)
        requires
            old(self)@.wf(),
        ensures
            final(self)@ == old(self)@.received(frame@, now.nanos),
            final(self)@.wf(),
    {
        match frame.frame_type {
            FrameType::Conn => self.on_conn(&frame, now),
            FrameType::ConnAck => self.on_conn_ack(&frame, now),
            FrameType::Disc => self.on_disc(&frame),
            FrameType::DiscAck => self.on_disc_ack(&frame),
            FrameType::Id => self.on_id(&frame, now),
            FrameType::Data => if self.session_ok(&frame) {
                self.on_data(frame, now)
            },
            FrameType::Ack => if self.session_ok(&frame) {
                self.on_ack(&frame, now)
            },
            FrameType::Keepalive => if self.session_ok(&frame) {
                self.on_keepalive(&frame, now)
            },
            FrameType::Nak => {},
        }
    }

    /// Advance the timers to `now`.
    pub fn handle_timeout(&mut self, now: Duration)
        requires
            old(self)@.wf(),
        ensures
            final(self)@ == old(self)@.timed_out(now.nanos),
            final(self)@.wf(),
    {
        let due = match self.deadline {
            Some(d) => now.nanos >= d.nanos,
            None => false,
        };
        if !due {
            return;
        }
        match self.state {
            ConnState::Connecting => {
                if self.conn_retries + 1 > MAX_CONN_RETRIES {
                    self.close(HostEvent::ConnectFailed);
                } else {
                    self.conn_retries = self.conn_retries + 1;
                    let conn = self.make_control(FrameType::Conn, FIRST_SEQ);
                    self.queue(conn);
                    self.deadline = Some(now.saturating_add(self.profile.turn_recovery_timeout()));
                }
            },
            ConnState::Disconnecting => {
                if self.disc_retries + 1 > MAX_DISC_RETRIES {
                    self.close(HostEvent::Disconnected);
                } else {
                    self.disc_retries = self.disc_retries + 1;
                    let disc = self.make_control(FrameType::Disc, 0);
                    self.queue(disc);
                    self.deadline = Some(now.saturating_add(self.profile.turn_recovery_timeout()));
                }
            },
            ConnState::Connected => {
                if self.floor == Floor::Listening {
                    if self.awaiting_reply {
                        self.on_unanswered(now);
                    } else {
                        // The peer declined the floor: the link is quiescent.
                        self.floor = Floor::Idle;
                        self.deadline = None;
                    }
                }
            },
            ConnState::Closed => {},
        }
    }

    /// An over of ours went unanswered. Nothing was decoded, so no measurement speaks
    /// for a slower rung: the floor holder steps down by itself, falls to the base after
    /// a few, and gives up after more.
    fn on_unanswered(&mut self, now: Duration)
        requires
            old(self)@.wf(),
            old(self)@.state == ConnState::Connected,
        ensures
            final(self)@ == old(self)@.unanswered(now.nanos),
            final(self)@.wf(),
    {
        let base: u8 = self.ladder.base_rung();
        let silent: u32 = self.silent_overs + 1;
        let ghost counted = ConnModel { silent_overs: silent, ..old(self)@ };
        if self.current_rung != base && silent >= DOWNSHIFT_TO_BASE_OVERS {
            self.apply_rung(base, now);
            self.silent_overs = 0;
            self.floor = Floor::Sending;
            self.deadline = None;
            assert(self@ =~= old(self)@.unanswered(now.nanos));
        } else if silent > DEAD_OVERS_TOLERATED {
            self.close(HostEvent::PeerLost);
            assert(self@ =~= counted.closed(EventModel::PeerLost));
        } else {
            if self.current_rung != base {
                let down: u8 = self.current_rung + 1;
                self.apply_rung(down, now);
            }
            self.silent_overs = silent;
            self.floor = Floor::Sending;
            self.deadline = None;
            assert(self@ =~= old(self)@.unanswered(now.nanos));
        }
    }

    /// Next frame to transmit, if any: drains the current over frame by frame.
    pub fn poll_transmit(&mut self, now: Duration) -> (f: Option<LinkFrame>)
        requires
            old(self)@.wf(),
        ensures
            match (f, old(self)@.next_frame()) {
                (Some(frame), Some(m)) => frame@ == m,
                (None, None) => true,
                _ => false,
            },
            final(self)@ == old(self)@.transmitted(now.nanos),
            final(self)@.wf(),
    {
        if self.state == ConnState::Connected && self.outbox.len() == 0 {
            if self.floor == Floor::Idle && self.want_floor() {
                self.floor = Floor::Sending;
            }
            if self.floor == Floor::Sending {
                self.build_over();
            }
        }
        let ghost primed = self@;
        assert(primed == old(self)@.primed());
        let f = self.outbox.pop_front();
        match &f {
            Some(frame) => {
                assert(self@.outbox =~= primed.outbox.drop_first());
                if self.state == ConnState::Connected && frame.is_end_of_over() {
                    self.awaiting_reply = self.send.has_unacked();
                    if self.awaiting_reply {
                        self.floor = Floor::Listening;
                        let due = now.saturating_add(
                            self.profile.turn_recovery_timeout(),
                        ).saturating_add(self.backoff_jitter());
                        self.deadline = Some(due);
                    } else {
                        self.floor = Floor::Idle;
                        self.deadline = None;
                    }
                }
            },
            None => {
                assert(self@.outbox =~= primed.outbox);
            },
        }
        f
    }

    /// Feed a channel measurement, the receiver's view of the peer. A falling SNR counts
    /// at once and a rising one half way; no SNR leaves the estimate as it is.
    pub fn observe_quality(&mut self, snr_mdb: Option<i32>, fer: FrameErrorRate, fer_samples: u32)
        requires
            old(self)@.wf(),
        ensures
            final(self)@ == old(self)@.measured(snr_mdb, fer, fer_samples),
            final(self)@.wf(),
    {
        self.fer = fer;
        self.fer_samples = fer_samples;
        if let Some(reading) = snr_mdb {
            self.snr_raw = Some(reading);
            self.snr_smoothed = Some(smooth(self.snr_smoothed, reading));
        }
    }

    /// Switch to the available rung nearest to `id`: resize the ARQ in place, adopt the
    /// rung's profile, and re-arm a running timer from it, lest it fire before a slower
    /// over could complete.
    pub fn apply_rung(&mut self, id: u8, now: Duration)
        requires
            old(self)@.wf(),
        ensures
            final(self)@ == old(self)@.at_rung(id, now.nanos),
            final(self)@.wf(),
    {
        let to: u8 = self.ladder.clamp_available(id);
        if to == self.current_rung {
            return;
        }
        let old_family: u8 = self.ladder.family_of(self.current_rung);
        let route = self.ladder.rung(to);
        self.current_rung = to;
        self.send.reconfigure(route.window.window);
        self.recv.reconfigure(route.window.window);
        self.sack_enabled = route.strategy == ArqStrategy::SelectiveRepeat;
        self.profile = route.profile;
        if self.deadline.is_some() {
            self.deadline = Some(now.saturating_add(self.profile.turn_recovery_timeout()));
        }
        self.fer = FrameErrorRate::none();
        self.fer_samples = 0;
        if self.ladder.family_of(to) != old_family {
            self.snr_raw = None;
            self.snr_smoothed = None;
        }
    }

    /// Act on the peer's recommendation. The worse direction wins: the more robust of
    /// the peer's recommendation and our own is applied.
    pub fn apply_peer_feedback(&mut self, peer_rx_rung: u8, now: Duration)
        requires
            old(self)@.wf(),
        ensures
            final(self)@ == old(self)@.heeding(peer_rx_rung, now.nanos),
            final(self)@.wf(),
    {
        let own: u8 = self.recommended_rung();
        let target: u8 = if peer_rx_rung >= own {
            peer_rx_rung
        } else {
            own
        };
        self.apply_rung(target, now);
    }

    fn close(&mut self, event: HostEvent)
        requires
            old(self)@.wf(),
        ensures
            final(self)@ == old(self)@.closed(event@),
            final(self)@.wf(),
    {
        proof {
            crate::mac::lemma_base(self@.ladder);
        }
        self.state = ConnState::Closed;
        self.reset_session();
        self.tell(event);
    }

    fn reset_session(&mut self)
        requires
            crate::mac::ladder_wf(old(self)@.ladder),
            old(self)@.send.wf(),
            old(self)@.recv.wf(),
        ensures
            final(self)@ == old(self)@.reset(),
    {
        if self.remote_is_learned {
            self.remote = None;
        }
        let rung: u8 = self.ladder.default_rung();
        let route = self.ladder.rung(rung);
        self.send.reset();
        self.send.reconfigure(route.window.window);
        self.recv.reset();
        self.recv.reconfigure(route.window.window);
        self.reasm.reset();
        self.current_rung = rung;
        self.sack_enabled = route.strategy == ArqStrategy::SelectiveRepeat;
        self.snr_raw = None;
        self.snr_smoothed = None;
        self.fer = FrameErrorRate::none();
        self.fer_samples = 0;
        self.msg_end_seqs.clear();
        self.floor = Floor::Listening;
        self.awaiting_reply = false;
        self.owe_ack = false;
        self.silent_overs = 0;
        self.conn_retries = 0;
        self.disc_retries = 0;
        self.deadline = None;
        assert(self@.msg_ends =~= Set::empty());
    }

    /// Bounded jitter on the turn-recovery timer, so that two stations that lost the
    /// floor at the same instant do not collide again and again. It is reproducible,
    /// differs from retry to retry, and stays below half a turn-recovery timeout.
    pub fn backoff_jitter(&self) -> (d: Duration)
        ensures
            d.nanos == self@.jitter(),
    {
        let text = self.local.as_str();
        proof {
            crate::callsign::lemma_callsign_bytes(self.local@);
        }
        let bytes = text.as_bytes();
        let mut h: u64 = FNV_BASIS;
        let mut i: usize = 0;
        assert(bytes@.take(0) =~= Seq::empty());
        while i < bytes.len()
            invariant
                i <= bytes@.len(),
                h == crate::session::fnv1a(bytes@.take(i as int)),
            decreases bytes.len() - i,
        {
            proof {
                assert(bytes@.take(i + 1).drop_last() =~= bytes@.take(i as int));
            }
            h = (h ^ bytes[i] as u64).wrapping_mul(FNV_PRIME);
            i = i + 1;
        }
        assert(bytes@.take(bytes@.len() as int) =~= bytes@);
        h = h.wrapping_add(self.silent_overs as u64).wrapping_mul(FNV_PRIME);
        let half: u128 = self.profile.turn_recovery_timeout().as_millis() / 2;
        let whole: u128 = if half < 1 {
            1
        } else {
            half
        };
        let span: u64 = #[verifier::truncate] (whole as u64);
        if span == 0 {
            Duration::from_millis(0)
        } else {
            Duration::from_millis(h % span)
        }
    }

    fn session_ok(&self, frame: &LinkFrame) -> (b: bool)
        ensures
            b == self@.in_session(frame@),
    {
        self.state == ConnState::Connected && frame.conn_id == self.conn_id
    }

    /// Put the next over into the outbox; its last frame passes the floor.
    fn build_over(&mut self)
        requires
            old(self)@.wf(),
        ensures
            final(self)@ == old(self)@.with_over(),
            final(self)@.wf(),
    {
        let frames = self.send.over_frames();
        let ghost m = self@;
        let ghost data = m.send.over();
        let n: usize = frames.len();
        proof {
            assert(frames@.map_values(|e: (u32, Vec<u8>)| (e.0, e.1@)).len() == n);
            assert(m.outbox + m.over().take(0) =~= m.outbox);
        }
        if n == 0 {
            let f = if self.owe_ack {
                self.make_ack()
            } else {
                self.make_control(FrameType::Keepalive, 0)
            };
            let last = f.end_of_over();
            self.queue(last);
            assert(m.over() =~= seq![last@]);
            assert(self@.outbox =~= m.outbox + m.over());
        } else {
            let mut i: usize = 0;
            while i < n
                invariant
                    i <= n,
                    n == frames@.len(),
                    n > 0,
                    m.wf(),
                    data == m.send.over(),
                    data == frames@.map_values(|e: (u32, Vec<u8>)| (e.0, e.1@)),
                    self@ == (ConnModel { outbox: m.outbox + m.over().take(i as int), ..m }),
                decreases n - i,
            {
                let seq: u32 = frames[i].0;
                let payload = frames[i].1.clone();
                assert(payload@ =~= frames@[i as int].1@);
                assert(data[i as int] == (seq, payload@));
                let mut f = self.make_data(seq, payload);
                assert(f@ == m.data_frame(seq, payload@));
                assert(f@ == m.over_body()[i as int]);
                if i + 1 == n {
                    f = f.end_of_over();
                }
                assert(f@ == m.over()[i as int]);
                self.queue(f);
                assert(self@.outbox =~= m.outbox + m.over().take(i + 1));
                i = i + 1;
            }
            assert(m.over().take(n as int) =~= m.over());
        }
        self.owe_ack = false;
    }

    fn accept_connection_as_acceptor(&mut self, conn_id: u16, seq: u32, now: Duration)
        requires
            (ConnModel { state: ConnState::Closed, ..old(self)@ }).wf(),
            old(self)@.remote is Some,
        ensures
            final(self)@ == old(self)@.accepting(conn_id, seq, now.nanos),
            final(self)@.wf(),
    {
        self.conn_id = conn_id;
        self.state = ConnState::Connected;
        self.floor = Floor::Listening;
        self.awaiting_reply = false;
        self.silent_overs = 0;
        let due = now.saturating_add(self.profile.turn_recovery_timeout()).saturating_add(
            self.backoff_jitter(),
        );
        self.deadline = Some(due);
        self.tell(HostEvent::Connected);
        let ack = self.make_control(FrameType::ConnAck, seq);
        self.queue(ack);
    }

    fn remote_is(&self, peer: &Callsign) -> (b: bool)
        ensures
            b == (self@.remote == Some(peer@)),
    {
        match &self.remote {
            Some(r) => r.same(peer),
            None => false,
        }
    }

    fn on_conn(&mut self, frame: &LinkFrame, now: Duration)
        requires
            old(self)@.wf(),
        ensures
            final(self)@ == old(self)@.on_conn(frame@, now.nanos),
            final(self)@.wf(),
    {
        let peer = match &frame.id {
            Some(id) => {
                if !id.dst.same(&self.local) {
                    return;
                }
                id.src.clone()
            },
            None => return,
        };
        if frame.conn_id == crate::frame::CONN_ID_RESERVED {
            return;
        }
        match self.state {
            ConnState::Closed => {
                if self.remote_is_learned {
                    self.remote = Some(peer);
                } else if !self.remote_is(&peer) {
                    return;
                }
                self.accept_connection_as_acceptor(frame.conn_id, frame.seq, now);
            },
            ConnState::Connected => {
                if self.remote_is(&peer) {
                    if frame.conn_id == self.conn_id {
                        // The peer did not hear our acceptance: repeat it.
                        let ack = self.make_control(FrameType::ConnAck, frame.seq);
                        self.queue(ack);
                    } else {
                        // The peer lost the session and calls anew: drop the stale one.
                        proof {
                            crate::mac::lemma_base(self@.ladder);
                        }
                        self.reset_session();
                        self.remote = Some(peer);
                        self.accept_connection_as_acceptor(frame.conn_id, frame.seq, now);
                    }
                }
            },
            ConnState::Connecting => {
                // Both call at once: the higher callsign keeps the initiator's role.
                if self.remote_is(&peer) && self.local.is_not_after(&peer) {
                    self.accept_connection_as_acceptor(frame.conn_id, frame.seq, now);
                }
            },
            ConnState::Disconnecting => {},
        }
    }

    fn on_conn_ack(&mut self, frame: &LinkFrame, now: Duration)
        requires
            old(self)@.wf(),
        ensures
            final(self)@ == old(self)@.on_conn_ack(frame@, now.nanos),
            final(self)@.wf(),
    {
        if self.state == ConnState::Connecting && frame.conn_id == self.conn_id {
            match &frame.id {
                Some(id) => {
                    if !(id.dst.same(&self.local) && self.remote_is(&id.src)) {
                        return;
                    }
                },
                None => return,
            }
            self.state = ConnState::Connected;
            self.floor = Floor::Sending;
            self.silent_overs = 0;
            self.deadline = None;
            self.tell(HostEvent::Connected);
            self.apply_peer_feedback(frame.rx_rung(), now);
        }
    }

    fn on_disc(&mut self, frame: &LinkFrame)
        requires
            old(self)@.wf(),
        ensures
            final(self)@ == old(self)@.on_disc(frame@),
            final(self)@.wf(),
    {
        if (self.state == ConnState::Connected || self.state == ConnState::Disconnecting)
            && frame.conn_id == self.conn_id && self.id_addressed_to_us(frame) {
            let ack = self.make_control(FrameType::DiscAck, 0);
            self.queue(ack);
            self.close(HostEvent::Disconnected);
        }
    }

    fn on_disc_ack(&mut self, frame: &LinkFrame)
        requires
            old(self)@.wf(),
        ensures
            final(self)@ == old(self)@.on_disc_ack(frame@),
            final(self)@.wf(),
    {
        if self.state == ConnState::Disconnecting && frame.conn_id == self.conn_id
            && self.id_addressed_to_us(frame) {
            self.close(HostEvent::Disconnected);
        }
    }

    fn on_id(&mut self, frame: &LinkFrame, now: Duration)
        requires
            old(self)@.wf(),
        ensures
            final(self)@ == old(self)@.on_id(frame@, now.nanos),
            final(self)@.wf(),
    {
        if !self.session_ok(frame) || !self.id_addressed_to_us(frame) {
            return;
        }
        self.hear(frame, now);
        if frame.is_end_of_over() {
            self.on_over_end();
        }
    }

    /// The peer is alive, and its rung or recommendation counts.
    fn hear(&mut self, frame: &LinkFrame, now: Duration)
        requires
            old(self)@.wf(),
        ensures
            final(self)@ == old(self)@.hearing(frame@, now.nanos),
            final(self)@.wf(),
    {
        self.silent_overs = 0;
        self.adapt_on_inbound(frame, now);
    }

    fn adapt_on_inbound(&mut self, frame: &LinkFrame, now: Duration)
        requires
            old(self)@.wf(),
        ensures
            final(self)@ == old(self)@.adapting(frame@, now.nanos),
            final(self)@.wf(),
    {
        if self.awaiting_reply {
            self.apply_peer_feedback(frame.rx_rung(), now);
        } else {
            self.apply_rung(frame.mode, now);
        }
    }

    fn id_addressed_to_us(&self, frame: &LinkFrame) -> (b: bool)
        ensures
            b == self@.addressed(frame@),
    {
        match &frame.id {
            Some(id) => id.dst.same(&self.local) && match &self.remote {
                Some(r) => r.same(&id.src),
                None => true,
            },
            None => false,
        }
    }

    fn on_data(&mut self, frame: LinkFrame, now: Duration)
        requires
            old(self)@.wf(),
        ensures
            final(self)@ == old(self)@.on_data(frame@, now.nanos),
            final(self)@.wf(),
    {
        let ghost f = frame@;
        self.hear(&frame, now);
        let ghost s = self@;
        self.send.on_ack(frame.ack_through, frame.sack);
        let end_of_over = frame.is_end_of_over();
        let end_of_msg = frame.is_end_of_msg();
        let ghost run = s.recv.delivers(f.seq, ConnModel::fragment(f));
        let delivered = self.recv.accept(frame.seq, frame.payload, end_of_msg);
        let ghost all = delivered@;
        assert(all.map_values(|d: crate::arq::Delivered| d@) == run);
        let ghost told = |m: Seq<u8>| EventModel::DataReceived(m);
        let ghost t = ConnModel {
            send: s.send.acked(f.ack_through, f.sack),
            recv: s.recv.accepted(f.seq, ConnModel::fragment(f)),
            ..s
        };
        proof {
            assert(run.take(0) =~= Seq::empty());
            assert(s.events + crate::delivery::messages(s.partial, run.take(0)).map_values(told)
                =~= s.events);
        }
        let n: usize = delivered.len();
        let mut left = delivered;
        let mut i: usize = 0;
        while i < n
            invariant
                i <= n == run.len(),
                all.map_values(|d: crate::arq::Delivered| d@) == run,
                left@ == all.skip(i as int),
                all.len() == n,
                told == (|m: Seq<u8>| EventModel::DataReceived(m)),
                self@ == (ConnModel {
                    partial: crate::delivery::partial_after(s.partial, run.take(i as int)),
                    events: s.events + crate::delivery::messages(
                        s.partial,
                        run.take(i as int),
                    ).map_values(told),
                    ..t
                }),
            decreases n - i,
        {
            let ghost before = self@;
            let frag = left.remove(0);
            assert(left@ =~= all.skip(i + 1));
            assert(frag@ == run[i as int]);
            let ghost p = crate::delivery::partial_after(s.partial, run.take(i as int));
            let ghost got = crate::delivery::messages(s.partial, run.take(i as int));
            proof {
                let one = seq![run[i as int]];
                assert(run.take(i + 1) =~= run.take(i as int) + one);
                crate::delivery::lemma_messages_append(s.partial, run.take(i as int), one);
                assert(one.drop_first() =~= Seq::empty());
                reveal_with_fuel(crate::delivery::messages, 2);
                reveal_with_fuel(crate::delivery::partial_after, 2);
            }
            match self.reasm.push(frag) {
                Some(msg) => {
                    assert(crate::delivery::messages(p, seq![run[i as int]]) =~= seq![msg@]);
                    self.tell(HostEvent::DataReceived(msg));
                    assert((got + seq![msg@]).map_values(told) =~= got.map_values(told).push(
                        EventModel::DataReceived(msg@),
                    ));
                    assert(self@.events =~= s.events + (got + seq![msg@]).map_values(told));
                },
                None => {
                    assert(got + Seq::<Seq<u8>>::empty() =~= got);
                },
            }
            i = i + 1;
        }
        assert(run.take(n as int) =~= run);
        self.owe_ack = true;
        if end_of_over {
            self.on_over_end();
        }
    }

    fn on_ack(&mut self, frame: &LinkFrame, now: Duration)
        requires
            old(self)@.wf(),
        ensures
            final(self)@ == old(self)@.on_ack(frame@, now.nanos),
            final(self)@.wf(),
    {
        self.hear(frame, now);
        self.send.on_ack(frame.ack_through, frame.sack);
        if frame.is_end_of_over() {
            self.on_over_end();
        }
    }

    fn on_keepalive(&mut self, frame: &LinkFrame, now: Duration)
        requires
            old(self)@.wf(),
        ensures
            final(self)@ == old(self)@.on_keepalive(frame@, now.nanos),
            final(self)@.wf(),
    {
        self.hear(frame, now);
        if frame.is_end_of_over() {
            self.on_over_end();
        }
    }

    fn on_over_end(&mut self)
        requires
            old(self)@.wf(),
        ensures
            final(self)@ == old(self)@.over_ended(),
            final(self)@.wf(),
    {
        self.silent_overs = 0;
        if self.want_floor() {
            self.floor = Floor::Sending;
        } else {
            self.floor = Floor::Idle;
            self.awaiting_reply = false;
        }
        self.deadline = None;
    }
}

/// The SNR estimate after a reading: falling at once, rising half way, to the nearest
/// unit.
fn smooth(estimate: Option<i64>, reading: i32) -> (s: i64)
    requires
        estimate matches Some(e) ==> crate::session::is_estimate(e),
    ensures
        s == crate::session::smoothed(estimate, reading),
        crate::session::is_estimate(s),
{
    let level: i64 = reading as i64 * SNR_UNITS;
    match estimate {
        None => level,
        Some(e) => if level < e {
            level
        } else {
            // Shifted to be non-negative, so that the quotient rounds down.
            let shifted: i64 = level + e + 1 + 0x1000_0000_0000;
            shifted / 2 - 0x800_0000_0000
        },
    }
}

/// An SNR estimate in whole thousandths of a decibel, rounded down.
fn in_whole_mdb(estimate: Option<i64>) -> (w: Option<i32>)
    requires
        estimate matches Some(e) ==> crate::session::is_estimate(e),
    ensures
        w == crate::session::whole_mdb(estimate),
{
    match estimate {
        None => None,
        Some(e) => {
            // Shifted to be non-negative, so that the quotient rounds down.
            let shifted: i64 = e + 0x8000_0000 * SNR_UNITS;
            Some((shifted / SNR_UNITS - 0x8000_0000) as i32)
        },
    }
}

} // verus!
