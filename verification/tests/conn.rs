use sonde::arq::FIRST_SEQ;
use sonde::conn::{ConnState, Connection, HostEvent};
use sonde::frame::{FrameType, LinkFrame, StationId, CONN_ID_RESERVED};
use sonde::mac::{self, ArqStrategy, Ladder};
use sonde::profile::ModeProfile;
use sonde::session::SNR_UNITS;
use sonde::time::Duration;
use sonde::transport::FrameErrorRate;
use sonde::Callsign;

/// No frame of ten failed.
const CLEAN: FrameErrorRate = FrameErrorRate { failed: 0, total: 10 };


fn call(s: &str) -> Callsign {
    Callsign::new(s).unwrap()
}

/// A CONN from `K1ABC` to `W2XYZ` (the standard peer pair in these tests).
fn conn_from_k1abc(conn_id: u16, seq: u32) -> LinkFrame {
    LinkFrame::id_control(
        FrameType::Conn,
        StationId::new(call("K1ABC"), call("W2XYZ")),
        conn_id,
        seq,
    )
}

fn profile() -> ModeProfile {
    // Small per-over MTU so multi-frame messages are easy to force.
    ModeProfile::new(Duration::from_millis(10), 4)
}

fn messages(events: &[HostEvent]) -> Vec<Vec<u8>> {
    events
        .iter()
        .filter_map(|e| match e {
            HostEvent::DataReceived(d) => Some(d.clone()),
            _ => None,
        })
        .collect()
}

// ---- per-mode ModeProfile swap on a rung change -------

#[test]
fn apply_rung_swaps_the_mode_profile_to_the_target_rung() {
    // A multi-available-rung ladder (the synthetic algorithm fixture) carries the
    // standard distinct per-rung profiles. Switching rungs must swap the active
    // profile so per-mode timers (turn-recovery/over/keepalive) track the mode
    //.
    let ladder = Ladder::all_available();
    let mut c =
        Connection::initiator_with_ladder(call("K1ABC"), call("W2XYZ"), 0x1234, ladder, 8);
    // Construction adopts the default (most-robust available = deepest) rung.
    let before = c.profile.over_airtime();
    c.apply_rung(0, Duration::zero()); // climb to the fastest rung
    let after = c.profile.over_airtime();
    assert_ne!(
        before, after,
        "apply_rung must swap the ModeProfile to the target rung"
    );
    assert_eq!(
        after,
        Duration::from_millis(300),
        "fast rung's over-airtime is now active"
    );
    assert_eq!(
        c.profile.per_over_mtu(),
        1024,
        "fast rung's per-frame capacity is now active"
    );
}

#[test]
fn uniform_profile_ladder_keeps_the_injected_profile_across_rung_changes() {
    // The back-compat path: a profile-injecting constructor builds a uniform
    // ladder, so a rung change is a profile no-op (preserves injected timers/MTU).
    let mut c = Connection::initiator(call("K1ABC"), call("W2XYZ"), 0x1234, profile(), 8);
    let before = c.profile;
    // Force a rung change that clamp keeps real; uniform profile is unchanged.
    c.apply_rung(0, Duration::zero());
    assert_eq!(c.profile, before, "uniform-profile ladder: swap is a no-op");
    assert_eq!(c.profile, profile());
}

#[test]
fn apply_rung_rearms_an_outstanding_deadline_for_a_slower_profile() {
    // A turn-recovery deadline armed under a fast rung must be re-armed when we
    // downshift to a slower mode mid-wait — otherwise it fires a premature
    // retransmit before the slower over could even complete .
    let ladder = Ladder::all_available();
    let mut c =
        Connection::initiator_with_ladder(call("K1ABC"), call("W2XYZ"), 0x1234, ladder, 8);
    c.apply_rung(0, Duration::zero()); // fast rung (300 ms over-airtime)
    let now = Duration::from_secs(1);
    // Arm a turn-recovery deadline under the fast profile (as poll_transmit would).
    c.deadline = Some(now.saturating_add(c.profile.turn_recovery_timeout()));
    let fast_deadline = c.deadline.unwrap();
    // Downshift to the slowest rung at the same instant.
    c.apply_rung(4, now);
    let slow_deadline = c
        .deadline
        .expect("the deadline stays armed across a downshift");
    assert!(
        slow_deadline > fast_deadline,
        "a downshift to a slower mode must push the deadline out, not fire early"
    );
    assert_eq!(
        slow_deadline,
        now.saturating_add(c.profile.turn_recovery_timeout()),
        "re-armed from the new (slower) profile"
    );
}

#[test]
fn apply_rung_leaves_an_idle_link_without_a_deadline() {
    // No outstanding deadline (Idle floor) ⇒ a rung change must not fabricate one.
    let ladder = Ladder::all_available();
    let mut c =
        Connection::initiator_with_ladder(call("K1ABC"), call("W2XYZ"), 0x1234, ladder, 8);
    assert!(c.deadline.is_none());
    c.apply_rung(0, Duration::from_secs(1));
    assert!(c.deadline.is_none(), "no deadline to re-arm ⇒ stays None");
}

fn tick() -> Duration {
    Duration::from_millis(10)
}

/// A perfect (lossless) in-memory pipe between two connections, advancing a
/// logical clock. Returns once no frames moved in a full round (settled).
struct Pair {
    a: Connection,
    b: Connection,
    now: Duration,
    a_events: Vec<HostEvent>,
    b_events: Vec<HostEvent>,
}

impl Pair {
    fn new() -> Self {
        let a = Connection::initiator(call("K1ABC"), call("W2XYZ"), 0x1234, profile(), 8);
        let b = Connection::acceptor(call("W2XYZ"), profile(), 8);
        Self {
            a,
            b,
            now: Duration::zero(),
            a_events: Vec::new(),
            b_events: Vec::new(),
        }
    }

    fn drain_events(&mut self) {
        while let Some(e) = self.a.poll_event() {
            self.a_events.push(e);
        }
        while let Some(e) = self.b.poll_event() {
            self.b_events.push(e);
        }
    }

    /// One round: a transmits its over to b, then b to a, then timers fire.
    fn step(&mut self) -> bool {
        self.step_drop(None)
    }

    /// Like `step`, but drop the frame at `drop_a_idx` in A's over (to
    /// deterministically model a single in-transit loss A→B).
    fn step_drop(&mut self, drop_a_idx: Option<usize>) -> bool {
        let mut moved = false;
        let mut i = 0;
        while let Some(f) = self.a.poll_transmit(self.now) {
            moved = true;
            if Some(i) != drop_a_idx {
                self.b.handle_frame(f, self.now);
            }
            i += 1;
        }
        while let Some(f) = self.b.poll_transmit(self.now) {
            moved = true;
            self.a.handle_frame(f, self.now);
        }
        self.now = self.now.saturating_add(tick());
        self.a.handle_timeout(self.now);
        self.b.handle_timeout(self.now);
        self.drain_events();
        moved
    }

    fn b_messages(&self) -> Vec<Vec<u8>> {
        messages(&self.b_events)
    }

    fn a_messages(&self) -> Vec<Vec<u8>> {
        messages(&self.a_events)
    }

    fn run(&mut self, max_steps: usize) {
        for _ in 0..max_steps {
            if !self.step() {
                return;
            }
        }
    }
}

#[test]
fn handshake_connects_both_sides_initiator_holds_first_floor() {
    let mut p = Pair::new();
    p.a.connect(Duration::zero());
    p.run(20);
    assert_eq!(p.a.state(), ConnState::Connected);
    assert_eq!(p.b.state(), ConnState::Connected);
    assert!(p.a_events.contains(&HostEvent::Connected));
    assert!(p.b_events.contains(&HostEvent::Connected));
}

#[test]
fn single_small_message_is_delivered_byte_exact() {
    let mut p = Pair::new();
    p.a.connect(Duration::zero());
    p.run(20);
    p.a.send(b"hi".to_vec());
    p.run(40);
    assert_eq!(
        p.b_events
            .iter()
            .filter_map(|e| match e {
                HostEvent::DataReceived(d) => Some(d.clone()),
                _ => None,
            })
            .collect::<Vec<_>>(),
        vec![b"hi".to_vec()]
    );
}

#[test]
fn multi_frame_message_reassembles_in_order() {
    // per_over_mtu = 4 ⇒ this 10-byte message fragments across 3 frames.
    let mut p = Pair::new();
    p.a.connect(Duration::zero());
    p.run(20);
    p.a.send(b"0123456789".to_vec());
    p.run(60);
    let got: Vec<Vec<u8>> = p
        .b_events
        .iter()
        .filter_map(|e| match e {
            HostEvent::DataReceived(d) => Some(d.clone()),
            _ => None,
        })
        .collect();
    assert_eq!(got, vec![b"0123456789".to_vec()]);
}

#[test]
fn multiple_messages_arrive_in_order_without_duplication() {
    let mut p = Pair::new();
    p.a.connect(Duration::zero());
    p.run(20);
    p.a.send(b"first".to_vec());
    p.a.send(b"second".to_vec());
    p.a.send(b"third".to_vec());
    p.run(100);
    let got: Vec<Vec<u8>> = p
        .b_events
        .iter()
        .filter_map(|e| match e {
            HostEvent::DataReceived(d) => Some(d.clone()),
            _ => None,
        })
        .collect();
    assert_eq!(
        got,
        vec![b"first".to_vec(), b"second".to_vec(), b"third".to_vec()]
    );
}

#[test]
fn clean_teardown_disconnects_both_sides() {
    let mut p = Pair::new();
    p.a.connect(Duration::zero());
    p.run(20);
    p.a.disconnect(p.now);
    p.run(20);
    assert_eq!(p.a.state(), ConnState::Closed);
    assert_eq!(p.b.state(), ConnState::Closed);
    assert!(p.a_events.contains(&HostEvent::Disconnected));
    assert!(p.b_events.contains(&HostEvent::Disconnected));
}

#[test]
fn exchange_settles_after_delivery_no_duplicate_data() {
    // The quiescence rule must stop data chatter: the message is delivered
    // exactly once even though the idle link keeps a keepalive heartbeat.
    let mut p = Pair::new();
    p.a.connect(Duration::zero());
    p.run(20);
    p.a.send(b"x".to_vec());
    p.run(200);
    let count = p
        .b_events
        .iter()
        .filter(|e| matches!(e, HostEvent::DataReceived(_)))
        .count();
    assert_eq!(count, 1, "message delivered exactly once, no duplicates");
    assert_eq!(p.a.state(), ConnState::Connected);
    assert_eq!(p.b.state(), ConnState::Connected);
}

// ---- SM hardening -----------------

fn init() -> Connection {
    Connection::initiator(call("K1ABC"), call("W2XYZ"), 0x1234, profile(), 8)
}
fn acc() -> Connection {
    Connection::acceptor(call("W2XYZ"), profile(), 8)
}

#[test]
fn handshake_recovers_from_a_lost_conn() {
    let mut a = init();
    let mut b = acc();
    a.connect(Duration::zero());
    let lost = a.poll_transmit(Duration::zero()).unwrap();
    assert_eq!(lost.frame_type, FrameType::Conn); // dropped in transit

    let t = a.profile.turn_recovery_timeout();
    a.handle_timeout(t); // connect-retry fires
    let conn = a.poll_transmit(t).unwrap();
    assert_eq!(conn.frame_type, FrameType::Conn);
    b.handle_frame(conn, t);
    let ack = b.poll_transmit(t).unwrap();
    a.handle_frame(ack, t);

    assert_eq!(a.state(), ConnState::Connected);
    assert_eq!(b.state(), ConnState::Connected);
}

#[test]
fn handshake_recovers_from_a_lost_conn_ack() {
    let mut a = init();
    let mut b = acc();
    a.connect(Duration::zero());
    let conn = a.poll_transmit(Duration::zero()).unwrap();
    b.handle_frame(conn, Duration::zero());
    let lost_ack = b.poll_transmit(Duration::zero()).unwrap();
    assert_eq!(lost_ack.frame_type, FrameType::ConnAck); // dropped

    let t = a.profile.turn_recovery_timeout();
    a.handle_timeout(t); // A retransmits CONN
    let conn2 = a.poll_transmit(t).unwrap();
    b.handle_frame(conn2, t); // B resends CONN_ACK idempotently
    let ack = b.poll_transmit(t).unwrap();
    assert_eq!(ack.frame_type, FrameType::ConnAck);
    a.handle_frame(ack, t);

    assert_eq!(a.state(), ConnState::Connected);
    assert_eq!(b.state(), ConnState::Connected);
}

#[test]
fn frame_with_wrong_conn_id_is_rejected_half_open() {
    let mut b = acc();
    b.handle_frame(conn_from_k1abc(0x1234, FIRST_SEQ), Duration::zero());
    assert_eq!(b.state(), ConnState::Connected);
    while b.poll_event().is_some() {} // drain the Connected event
                                      // A DATA frame stamped with a *different* session id must be ignored.
    let stale = LinkFrame::data(0x9999, 1, b"x".to_vec())
        .end_of_msg()
        .end_of_over();
    b.handle_frame(stale, Duration::zero());
    assert!(
        b.poll_event().is_none(),
        "stale-session DATA must not deliver"
    );
}

#[test]
fn conn_addressed_to_a_different_station_is_ignored() {
    // With per-frame callsigns gone, a CONN is addressed by its station-ID
    // block. A listener must ignore a CONN whose DST is not itself (it is a
    // call to some other station that happens to be audible).
    let mut b = acc(); // local = W2XYZ
    let not_for_us = LinkFrame::id_control(
        FrameType::Conn,
        StationId::new(call("K1ABC"), call("N0BODY")),
        0x1234,
        FIRST_SEQ,
    );
    b.handle_frame(not_for_us, Duration::zero());
    assert_eq!(
        b.state(),
        ConnState::Closed,
        "a CONN for another station must not open a session"
    );
    assert!(b.poll_event().is_none());
}

#[test]
fn acceptor_learns_the_caller_and_ids_back_to_it() {
    // The listener has no pre-configured peer; it learns K1ABC from the CONN
    // and its CONN_ACK must identify back to that learned peer.
    let mut b = acc(); // local = W2XYZ, remote unknown
    b.handle_frame(conn_from_k1abc(0x1234, FIRST_SEQ), Duration::zero());
    let ack = b.poll_transmit(Duration::zero()).expect("CONN_ACK queued");
    assert_eq!(ack.frame_type, FrameType::ConnAck);
    let id = ack.id.expect("CONN_ACK is ID-bearing");
    assert_eq!(id.src.as_str(), "W2XYZ", "we identify as ourselves");
    assert_eq!(id.dst.as_str(), "K1ABC", "addressed to the learned caller");
}

#[test]
fn connected_peer_reconnect_with_new_conn_id_is_accepted() {
    // peer reboots / lost our DISC and sends a fresh CONN with a
    // NEW conn_id while we still think we're Connected. Accept it as a reconnect
    // (flush old session, adopt the new conn_id, CONN_ACK) — never wedge forever.
    let mut b = acc();
    b.handle_frame(conn_from_k1abc(0x1111, FIRST_SEQ), Duration::zero());
    assert_eq!(b.state(), ConnState::Connected);
    let _ = b.poll_transmit(Duration::zero()); // drain the first CONN_ACK
                                             // Peer reboots: fresh CONN, different conn_id, same station.
    b.handle_frame(conn_from_k1abc(0x2222, FIRST_SEQ), Duration::zero());
    assert_eq!(
        b.state(),
        ConnState::Connected,
        "still connected after reconnect"
    );
    assert_eq!(b.conn_id(), 0x2222, "adopted the reconnect's new conn_id");
    let ack = b
        .poll_transmit(Duration::zero())
        .expect("CONN_ACK for the reconnect");
    assert_eq!(ack.frame_type, FrameType::ConnAck);
    assert_eq!(ack.conn_id, 0x2222, "CONN_ACK carries the new conn_id");
}

#[test]
fn connected_replay_of_same_conn_id_just_resends_conn_ack() {
    // The idempotent path must still hold: a CONN replay with the SAME conn_id
    // (peer didn't hear our CONN_ACK) resends CONN_ACK without resetting.
    let mut b = acc();
    b.handle_frame(conn_from_k1abc(0x1111, FIRST_SEQ), Duration::zero());
    let _ = b.poll_transmit(Duration::zero());
    b.handle_frame(conn_from_k1abc(0x1111, FIRST_SEQ), Duration::zero());
    assert_eq!(b.conn_id(), 0x1111, "conn_id unchanged on idempotent replay");
    let ack = b.poll_transmit(Duration::zero()).expect("CONN_ACK resent");
    assert_eq!(ack.frame_type, FrameType::ConnAck);
}

#[test]
fn conn_bearing_the_reserved_zero_conn_id_is_rejected() {
    // conn_id 0 is reserved; a CONN proposing it is invalid and must
    // not establish a session (an uninitialized/garbage frame or a peer that
    // failed to pick a random nonzero id).
    let mut b = acc();
    b.handle_frame(
        conn_from_k1abc(CONN_ID_RESERVED, FIRST_SEQ),
        Duration::zero(),
    );
    assert_eq!(
        b.state(),
        ConnState::Closed,
        "reserved conn_id must not connect"
    );
    assert!(
        b.poll_transmit(Duration::zero()).is_none(),
        "no CONN_ACK for conn_id 0"
    );
}

#[test]
fn a_listener_clears_a_learned_peer_on_close_and_accepts_a_new_one() {
    let mut b = acc(); // learner
    b.handle_frame(conn_from_k1abc(0x1234, FIRST_SEQ), Duration::zero());
    while b.poll_event().is_some() {}
    // Peer disconnects → close → learned remote must clear.
    b.handle_frame(
        LinkFrame::id_control(
            FrameType::Disc,
            StationId::new(call("K1ABC"), call("W2XYZ")),
            0x1234,
            0,
        ),
        Duration::zero(),
    );
    assert_eq!(b.state(), ConnState::Closed);
    while b.poll_event().is_some() {}
    while b.poll_transmit(Duration::zero()).is_some() {} // flush the DISC_ACK
                                                       // A *different* station now calls; the listener must accept it.
    let other = LinkFrame::id_control(
        FrameType::Conn,
        StationId::new(call("N0CALL"), call("W2XYZ")),
        0x55AA,
        FIRST_SEQ,
    );
    b.handle_frame(other, Duration::zero());
    assert_eq!(b.state(), ConnState::Connected);
    let ack = b.poll_transmit(Duration::zero()).expect("CONN_ACK queued");
    assert_eq!(
        ack.id.unwrap().dst.as_str(),
        "N0CALL",
        "bound to the new peer"
    );
}

#[test]
fn lost_data_frame_is_recovered_by_selective_repeat() {
    let mut p = Pair::new();
    p.a.connect(Duration::zero());
    p.run(20);
    p.a.send(b"ABCDEFGHIJ".to_vec()); // 3 fragments (mtu=4)
    p.step_drop(Some(1)); // lose the middle fragment on the first over
    p.run(40);
    assert_eq!(p.b_messages(), vec![b"ABCDEFGHIJ".to_vec()]);
}

#[test]
fn duplicate_data_is_not_delivered_twice() {
    let mut b = acc();
    b.handle_frame(conn_from_k1abc(0x1234, FIRST_SEQ), Duration::zero());
    while b.poll_event().is_some() {}
    let data = || {
        LinkFrame::data(0x1234, 1, b"hi".to_vec())
            .end_of_msg()
            .end_of_over()
    };
    b.handle_frame(data(), Duration::zero());
    b.handle_frame(data(), Duration::zero()); // a retransmit the receiver already has
    let n = std::iter::from_fn(|| b.poll_event())
        .filter(|e| matches!(e, HostEvent::DataReceived(_)))
        .count();
    assert_eq!(n, 1);
}

#[test]
fn simultaneous_connect_resolves_by_callsign_tiebreak() {
    // Both stations initiate at once (CONN/CONN collision).
    let mut a = Connection::initiator(call("K1ABC"), call("W2XYZ"), 0x1111, profile(), 8);
    let mut b = Connection::initiator(call("W2XYZ"), call("K1ABC"), 0x2222, profile(), 8);
    a.connect(Duration::zero());
    b.connect(Duration::zero());
    // Exchange a few rounds in both directions.
    for _ in 0..6 {
        while let Some(f) = a.poll_transmit(Duration::zero()) {
            b.handle_frame(f, Duration::zero());
        }
        while let Some(f) = b.poll_transmit(Duration::zero()) {
            a.handle_frame(f, Duration::zero());
        }
    }
    assert_eq!(a.state(), ConnState::Connected);
    assert_eq!(b.state(), ConnState::Connected);
    // Exactly one took the acceptor role ⇒ both agree on a single conn_id.
    assert_eq!(a.conn_id(), b.conn_id());
}

#[test]
fn sustained_silence_yields_peer_lost_not_a_hang() {
    let mut p = Pair::new();
    p.a.connect(Duration::zero());
    p.run(20);
    p.a.send(b"x".to_vec());
    // Every A→B frame is lost forever; A must eventually give up explicitly.
    for _ in 0..60 {
        p.step_drop(Some(0));
        if p.a.state() == ConnState::Closed {
            break;
        }
    }
    assert_eq!(p.a.state(), ConnState::Closed);
    assert!(p.a_events.contains(&HostEvent::PeerLost));
    assert!(
        p.b_messages().is_empty(),
        "never delivered ⇒ no silent corruption"
    );
}

#[test]
fn backoff_jitter_is_deterministic_bounded_and_station_specific() {
    let a = init();
    let b = acc();
    // Deterministic: same inputs ⇒ same jitter.
    assert_eq!(a.backoff_jitter(), a.backoff_jitter());
    // Station-specific: the two callsigns spread, avoiding phase-lock.
    assert_ne!(a.backoff_jitter(), b.backoff_jitter());
    // Bounded to < half a turn-recovery so death detection is never starved.
    assert!(a.backoff_jitter() < a.profile.turn_recovery_timeout());
}

#[test]
fn sack_disabled_suppresses_the_bitmap_even_with_a_buffered_gap() {
    // Selective-repeat receiver with a real out-of-order gap buffered. The
    // default mode today is the WholeMessage floor, so request SelectiveRepeat
    // explicitly to exercise the SACK path (dormant until an OFDM mode lands).
    let mut b = acc().with_strategy(ArqStrategy::SelectiveRepeat);
    b.handle_frame(conn_from_k1abc(0x1234, FIRST_SEQ), Duration::zero());
    // seq 2 arrives before seq 1 ⇒ a gap is buffered ⇒ recv.sack() != 0.
    b.handle_frame(LinkFrame::data(0x1234, 2, b"x".to_vec()), Duration::zero());
    assert_ne!(b.recv.sack(), 0, "precondition: a gap is buffered");
    assert_ne!(b.make_ack().sack, 0, "selective repeat advertises the gap");

    // The floor WholeMessage strategy must suppress the bitmap (no NACK).
    b.sack_enabled = false;
    assert_eq!(b.make_ack().sack, 0, "floor advertises no SACK");
    assert_eq!(b.make_data(9, b"y".to_vec()).sack, 0);
}

#[test]
fn floor_whole_message_delivers_multi_fragment_in_order_with_no_sack() {
    // Stop-and-wait (window 1, no SACK) over a perfect pipe still delivers a
    // multi-fragment message byte-exact and in order.
    let mut a = Connection::initiator(call("K1ABC"), call("W2XYZ"), 0x1234, profile(), 8)
        .with_strategy(ArqStrategy::WholeMessage);
    let mut b = Connection::acceptor(call("W2XYZ"), profile(), 8)
        .with_strategy(ArqStrategy::WholeMessage);
    a.connect(Duration::zero());
    a.send(b"floor-msg!".to_vec()); // 10 bytes, mtu 4 ⇒ 3 fragments
    let mut now = Duration::zero();
    let mut got = Vec::new();
    for _ in 0..80 {
        while let Some(f) = a.poll_transmit(now) {
            b.handle_frame(f, now);
        }
        while let Some(f) = b.poll_transmit(now) {
            assert_eq!(f.sack, 0, "floor peer never advertises a SACK");
            a.handle_frame(f, now);
        }
        now = now.saturating_add(tick());
        a.handle_timeout(now);
        b.handle_timeout(now);
        while let Some(e) = b.poll_event() {
            if let HostEvent::DataReceived(d) = e {
                got.push(d);
            }
        }
    }
    assert_eq!(got, vec![b"floor-msg!".to_vec()]);
}

// ---- bidirectional floor + session reset -----

#[test]
fn acceptor_can_originate_data_to_the_initiator() {
    // The acceptor, idle and listening, must be able to acquire the floor and
    // send its own host data — not wait forever on an idle initiator.
    let mut p = Pair::new();
    p.a.connect(Duration::zero());
    p.run(20); // settle to idle
    p.b.send(b"from-acceptor".to_vec());
    p.run(80);
    assert_eq!(p.a_messages(), vec![b"from-acceptor".to_vec()]);
}

#[test]
fn both_directions_deliver_in_one_session() {
    let mut p = Pair::new();
    p.a.connect(Duration::zero());
    p.run(20);
    p.a.send(b"a->b".to_vec());
    p.b.send(b"b->a".to_vec());
    p.run(120);
    assert_eq!(p.b_messages(), vec![b"a->b".to_vec()]);
    assert_eq!(p.a_messages(), vec![b"b->a".to_vec()]);
}

#[test]
fn disconnect_resets_arq_and_reassembly_so_a_reconnect_is_clean() {
    let mut b = acc();
    b.handle_frame(conn_from_k1abc(0x1234, FIRST_SEQ), Duration::zero());
    while b.poll_event().is_some() {}
    // A partial message: one fragment, NOT end-of-msg ⇒ reassembler holds it
    // and the receive high-water advances.
    b.handle_frame(
        LinkFrame::data(0x1234, 1, b"STALE".to_vec()),
        Duration::zero(),
    );
    assert_eq!(b.recv.ack_through(), 1, "precondition: recv advanced");

    // Peer disconnects.
    b.handle_frame(
        LinkFrame::id_control(
            FrameType::Disc,
            StationId::new(call("K1ABC"), call("W2XYZ")),
            0x1234,
            0,
        ),
        Duration::zero(),
    );
    assert_eq!(b.state(), ConnState::Closed);
    assert_eq!(b.recv.ack_through(), 0, "recv buffer reset on close");

    // Reconnect (new session id) and send a clean, complete single-fragment
    // message. It must deliver exactly itself — the stale "STALE" fragment
    // must NOT bleed into it.
    while b.poll_event().is_some() {}
    b.handle_frame(conn_from_k1abc(0xBEEF, FIRST_SEQ), Duration::zero());
    while b.poll_event().is_some() {}
    b.handle_frame(
        LinkFrame::data(0xBEEF, 1, b"CLEAN".to_vec())
            .end_of_msg()
            .end_of_over(),
        Duration::zero(),
    );
    let got: Vec<Vec<u8>> = std::iter::from_fn(|| b.poll_event())
        .filter_map(|e| match e {
            HostEvent::DataReceived(d) => Some(d),
            _ => None,
        })
        .collect();
    assert_eq!(
        got,
        vec![b"CLEAN".to_vec()],
        "no stale reassembly bleed-through"
    );
}

// ---- measurement-based symmetric adaptation ---------------------

#[test]
fn observe_quality_falls_immediately_and_rises_smoothly() {
    let mut c = init();
    c.observe_quality(Some(20000), CLEAN, 10);
    assert_eq!(c.snr_smoothed, Some(20000 * SNR_UNITS), "first reading seeds the estimate");
    c.observe_quality(Some(0), CLEAN, 10);
    assert_eq!(c.snr_smoothed, Some(0), "a falling SNR is applied immediately");
    c.observe_quality(Some(10000), CLEAN, 10);
    assert_eq!(
        c.snr_smoothed, Some(5000 * SNR_UNITS),
        "a rising SNR is EWMA-smoothed (0.5·10+0.5·0)"
    );
    assert_eq!(
        c.snr_raw, Some(10000),
        "raw tracks the latest reading (for downshift)"
    );
}

// With only ONE registered mode today (the wideband floor), the link holds
// that single real rung and never selects a fabricated mode. The rich multi-rung
// adaptation ALGORITHM is unit-tested in mac (`adapt_rung_with`, synthetic
// all-available ladder); these tests pin the link's honest single-mode behavior.

#[test]
fn the_single_registered_mode_is_held_for_any_measurement() {
    // No fabricated OFDM mode is ever recommended/selected; the link recommends
    // the one real mode (the floor = base_rung) regardless of the channel.
    let mut c = init();
    let base = mac::base_rung();
    assert_eq!(
        c.current_rung(),
        base,
        "starts at the only real mode, not OFDM"
    );
    assert_eq!(c.recommended_rung(), base, "no measurement ⇒ the real mode");
    c.observe_quality(Some(-15000), CLEAN, 10);
    assert_eq!(
        c.recommended_rung(),
        base,
        "a collapse can't go below the only mode"
    );
    c.observe_quality(Some(25000), CLEAN, 10);
    assert_eq!(
        c.recommended_rung(),
        base,
        "no faster mode is registered to climb to"
    );
}

#[test]
fn peer_feedback_never_selects_an_unavailable_mode() {
    // Even if a (skewed) peer commands a different rung, the clamp keeps us on
    // the one real mode — nothing fabricated is ever applied.
    let mut c = init();
    let base = mac::base_rung();
    c.apply_peer_feedback(0, Duration::zero()); // "go to the fastest OFDM rung" — unavailable
    assert_eq!(c.current_rung(), base);
    c.apply_peer_feedback(mac::NUM_RUNGS - 1, Duration::zero()); // "deep-floor" — unavailable
    assert_eq!(c.current_rung(), base);
}

#[test]
fn link_holds_the_floor_under_bad_feedback_and_still_delivers() {
    // The receiver reports a poor channel; with one registered mode the sender
    // cannot downshift further (the floor IS the base) — it holds and delivers.
    let mut p = Pair::new();
    p.a.connect(Duration::zero());
    p.run(20);
    let base = mac::base_rung();
    p.a.send(b"hello".to_vec());
    p.b.observe_quality(Some(-15000), CLEAN, 10);
    p.run(60);
    assert_eq!(p.a.current_rung(), base, "holds the one real mode");
    assert_eq!(p.b_messages(), vec![b"hello".to_vec()], "still delivers");
}

#[test]
fn a_recoverable_fade_still_delivers_at_the_single_mode() {
    // Drop a couple of overs (a transient fade), then let the channel clear: the
    // message still delivers, and the link never leaves the one real mode.
    let mut p = Pair::new();
    p.a.connect(Duration::zero());
    p.run(20);
    let base = mac::base_rung();
    p.a.send(b"x".to_vec());
    // Drive steps explicitly (so the turn-recovery timer fires through the
    // transient drops); `run` would early-exit on the first no-movement step.
    for i in 0..200 {
        if i < 2 {
            p.step_drop(Some(0)); // a transient fade: two lost overs
        } else {
            p.step();
        }
    }
    assert_eq!(p.a.current_rung(), base, "never selects a fabricated mode");
    assert_eq!(
        p.b_messages(),
        vec![b"x".to_vec()],
        "delivers after the fade"
    );
}

#[test]
fn multi_fragment_delivery_is_byte_exact_at_the_single_mode() {
    let mut p = Pair::new();
    p.a.connect(Duration::zero());
    p.run(20);
    p.a.send(b"0123456789".to_vec()); // 3 fragments at the test mtu
    p.run(200);
    assert_eq!(p.b_messages(), vec![b"0123456789".to_vec()]);
}

#[test]
fn a_rise_of_a_thousandth_is_taken_half_way() {
    let mut c = init();
    c.observe_quality(Some(0), CLEAN, 10);
    c.observe_quality(Some(1), CLEAN, 10);
    assert_eq!(c.snr_smoothed, Some(SNR_UNITS / 2));
    c.observe_quality(Some(1), CLEAN, 10);
    assert_eq!(c.snr_smoothed, Some(3 * SNR_UNITS / 4));
    c.observe_quality(Some(-3), CLEAN, 10);
    assert_eq!(c.snr_smoothed, Some(-3 * SNR_UNITS));
    c.observe_quality(Some(0), CLEAN, 10);
    assert_eq!(c.snr_smoothed, Some(-3 * SNR_UNITS / 2));
}

#[test]
fn a_steady_reading_is_reached() {
    let mut c = Connection::initiator_with_ladder(
        call("K1ABC"),
        call("W2XYZ"),
        0x1234,
        Ladder::all_available(),
        8,
    );
    // Just what the wide-band floor must be cleared by from the deep floor.
    let threshold = -9_000;
    c.observe_quality(Some(-40_000), CLEAN, 10);
    c.observe_quality(Some(threshold), CLEAN, 10);
    assert_eq!(c.recommended_rung(), mac::BASE_RUNG);
    for _ in 0..30 {
        c.observe_quality(Some(threshold), CLEAN, 10);
    }
    assert_eq!(c.snr_smoothed, Some(i64::from(threshold) * SNR_UNITS));
    assert_eq!(c.recommended_rung(), mac::BASE_RUNG - 1);
}
