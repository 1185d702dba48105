use sonde::clock::Clock;
use sonde::conn::{ConnState, Connection, HostEvent};
use sonde::driver::{Driver, ID_INTERVAL_SECS, TX_POLL_INTERVAL_MS};
use sonde::frame::{FrameType, LinkFrame};
use sonde::mac::Ladder;
use sonde::modes::{ModeHint, ModeTable};
use sonde::profile::ModeProfile;
use sonde::time::Duration;
use sonde::transport::{ChannelQualityReport, PhyError, PhyTransport, RxFrame, TxToken};
use sonde::Callsign;
use std::cell::{Cell, RefCell};
use std::collections::VecDeque;
use std::rc::Rc;

fn call(s: &str) -> Callsign {
    Callsign::new(s).unwrap()
}

fn profile() -> ModeProfile {
    ModeProfile::new(Duration::from_millis(10), 4)
}

/// A manually-advanced clock shared between drivers and PHY doubles.
#[derive(Clone)]
struct ManualClock(Rc<Cell<Duration>>);
impl ManualClock {
    fn new() -> Self {
        Self(Rc::new(Cell::new(Duration::zero())))
    }
    fn advance(&self, d: Duration) {
        self.0.set(self.0.get().saturating_add(d));
    }
}
impl Clock for ManualClock {
    fn now(&self) -> Duration {
        self.0.get()
    }
}

/// A lossless in-memory half-duplex wire (immediate delivery; tx completes
/// synchronously, so nothing is ever in flight).
type Queues = Rc<RefCell<[VecDeque<Vec<u8>>; 2]>>;
struct WireEnd {
    q: Queues,
    side: usize,
}
impl PhyTransport for WireEnd {
    fn send_frame(&mut self, payload: &[u8], _hint: ModeHint) -> Result<TxToken, PhyError> {
        self.q.borrow_mut()[1 - self.side].push_back(payload.to_vec());
        Ok(TxToken(0))
    }
    fn drain_rx(&mut self) -> Vec<RxFrame> {
        let mode = ModeTable::default().resolve(ModeHint::MainAuto, None);
        self.q.borrow_mut()[self.side]
            .drain(..)
            .map(|bytes| RxFrame::new(bytes, mode, Some(10_000), true))
            .collect()
    }
    fn channel_quality(&self) -> ChannelQualityReport {
        ChannelQualityReport::empty()
    }
    fn tx_in_flight(&self) -> usize {
        0
    }
}
fn wire() -> (WireEnd, WireEnd) {
    let q: Queues = Rc::new(RefCell::new([VecDeque::new(), VecDeque::new()]));
    (
        WireEnd {
            q: Rc::clone(&q),
            side: 0,
        },
        WireEnd { q, side: 1 },
    )
}

/// A wire end that also reports a fixed `channel_quality()` — to prove the
/// Driver feeds the PHY measurement into mode adaptation end-to-end.
struct MeasuringWire {
    q: Queues,
    side: usize,
    snr_db: Rc<Cell<f32>>,
    frames_total: u32,
    frames_failed: u32,
}
impl PhyTransport for MeasuringWire {
    fn send_frame(&mut self, payload: &[u8], _hint: ModeHint) -> Result<TxToken, PhyError> {
        self.q.borrow_mut()[1 - self.side].push_back(payload.to_vec());
        Ok(TxToken(0))
    }
    fn drain_rx(&mut self) -> Vec<RxFrame> {
        let mode = ModeTable::default().resolve(ModeHint::MainAuto, None);
        self.q.borrow_mut()[self.side]
            .drain(..)
            .map(|bytes| RxFrame::new(bytes, mode, Some(10_000), true))
            .collect()
    }
    fn channel_quality(&self) -> ChannelQualityReport {
        ChannelQualityReport::from_parts(
            Some((self.snr_db.get() * 1000.0).floor() as i32),
            self.frames_total,
            self.frames_failed,
        )
    }
    fn tx_in_flight(&self) -> usize {
        0
    }
}

/// A transport whose `send_frame` always fails (to exercise error capture).
struct ErrPhy;
impl PhyTransport for ErrPhy {
    fn send_frame(&mut self, _payload: &[u8], _hint: ModeHint) -> Result<TxToken, PhyError> {
        Err(PhyError::AudioIo("boom".into()))
    }
    fn drain_rx(&mut self) -> Vec<RxFrame> {
        Vec::new()
    }
    fn channel_quality(&self) -> ChannelQualityReport {
        ChannelQualityReport::empty()
    }
    fn tx_in_flight(&self) -> usize {
        0
    }
}

/// A transport that reports `tx_in_flight() == 1` for `key_duration` after
/// each `send_frame` — models a worker that holds PTT for a real interval.
struct KeyedPhy {
    clk: ManualClock,
    key_duration: Duration,
    busy_until: Cell<Option<Duration>>,
}
impl PhyTransport for KeyedPhy {
    fn send_frame(&mut self, _payload: &[u8], _hint: ModeHint) -> Result<TxToken, PhyError> {
        self.busy_until
            .set(Some(self.clk.now().saturating_add(self.key_duration)));
        Ok(TxToken(0))
    }
    fn drain_rx(&mut self) -> Vec<RxFrame> {
        Vec::new()
    }
    fn channel_quality(&self) -> ChannelQualityReport {
        ChannelQualityReport::empty()
    }
    fn tx_in_flight(&self) -> usize {
        match self.busy_until.get() {
            Some(t) if self.clk.now() < t => 1,
            _ => 0,
        }
    }
}

/// Like `WireEnd` but also records every frame this end transmits, so a test
/// can inspect the on-air stream (e.g. for periodic-ID frames).
struct RecordingWire {
    q: Queues,
    side: usize,
    sent: Rc<RefCell<Vec<Vec<u8>>>>,
}
impl PhyTransport for RecordingWire {
    fn send_frame(&mut self, payload: &[u8], _hint: ModeHint) -> Result<TxToken, PhyError> {
        self.sent.borrow_mut().push(payload.to_vec());
        self.q.borrow_mut()[1 - self.side].push_back(payload.to_vec());
        Ok(TxToken(0))
    }
    fn drain_rx(&mut self) -> Vec<RxFrame> {
        let mode = ModeTable::default().resolve(ModeHint::MainAuto, None);
        self.q.borrow_mut()[self.side]
            .drain(..)
            .map(|bytes| RxFrame::new(bytes, mode, Some(10_000), true))
            .collect()
    }
    fn channel_quality(&self) -> ChannelQualityReport {
        ChannelQualityReport::empty()
    }
    fn tx_in_flight(&self) -> usize {
        0
    }
}

/// A recording wire pair; returns (endA, endB, A's sent log, B's sent log).
#[allow(clippy::type_complexity)]
fn recording_wire() -> (
    RecordingWire,
    RecordingWire,
    Rc<RefCell<Vec<Vec<u8>>>>,
    Rc<RefCell<Vec<Vec<u8>>>>,
) {
    let q: Queues = Rc::new(RefCell::new([VecDeque::new(), VecDeque::new()]));
    let a_sent = Rc::new(RefCell::new(Vec::new()));
    let b_sent = Rc::new(RefCell::new(Vec::new()));
    (
        RecordingWire {
            q: Rc::clone(&q),
            side: 0,
            sent: Rc::clone(&a_sent),
        },
        RecordingWire {
            q,
            side: 1,
            sent: Rc::clone(&b_sent),
        },
        a_sent,
        b_sent,
    )
}

/// Count `ID`-type frames in a recorded transmit log.
fn id_frame_count(sent: &Rc<RefCell<Vec<Vec<u8>>>>) -> usize {
    sent.borrow()
        .iter()
        .filter_map(|b| LinkFrame::decode(b).ok())
        .filter(|f| f.frame_type == FrameType::Id)
        .count()
}

fn messages(events: &[HostEvent]) -> Vec<Vec<u8>> {
    events
        .iter()
        .filter_map(|e| match e {
            HostEvent::DataReceived(d) => Some(d.clone()),
            _ => None,
        })
        .collect()
}

#[test]
fn driver_delivers_a_message_over_a_real_phytransport_in_real_time() {
    let clk = ManualClock::new();
    let (ea, eb) = wire();
    let mut a = Driver::new(
        ea,
        Connection::initiator(call("K1ABC"), call("W2XYZ"), 0x1234, profile(), 8),
        clk.clone(),
    );
    let mut b = Driver::new(
        eb,
        Connection::acceptor(call("W2XYZ"), profile(), 8),
        clk.clone(),
    );
    a.connect();
    let mut b_ev = Vec::new();
    a.send(b"driven".to_vec());
    for _ in 0..200 {
        a.poll();
        b_ev.extend(b.poll());
        clk.advance(Duration::from_millis(5));
    }
    assert_eq!(messages(&b_ev), vec![b"driven".to_vec()]);
}

#[test]
fn a_failed_id_bearing_send_does_not_advance_the_id_cadence() {
    // If an ID-bearing frame's send_frame fails, the Part-97
    // periodic-ID cadence must NOT advance — else a later SUCCESSFUL TX could
    // skip a required station ID (the driver wrongly believing one aired).
    let clk = ManualClock::new();
    let mut a = Driver::new(
        ErrPhy,
        Connection::initiator(call("K1ABC"), call("W2XYZ"), 0x1234, profile(), 8),
        clk.clone(),
    );
    a.connect();
    a.poll(); // flushes the CONN (ID-bearing); ErrPhy fails every send
    assert!(
        !a.take_errors().is_empty(),
        "the failed CONN send is surfaced"
    );
    assert!(
        a.last_id().is_none(),
        "a failed ID-bearing send must not advance the ID cadence"
    );
}

#[test]
fn driver_climbs_on_a_channel_that_the_phy_reports_clean() {
    // Both stations start on the most robust rung of a full ladder. B's PHY reports a
    // good channel with no failures; B advises a faster rung and A obeys.
    let clk = ManualClock::new();
    let q: Queues = Rc::new(RefCell::new([VecDeque::new(), VecDeque::new()]));
    let end = |side: usize| MeasuringWire {
        q: Rc::clone(&q),
        side,
        snr_db: Rc::new(Cell::new(25.0)),
        frames_total: 10,
        frames_failed: 0,
    };
    let mut a = Driver::new(
        end(0),
        Connection::initiator_with_ladder(
            call("K1ABC"),
            call("W2XYZ"),
            0x1234,
            Ladder::all_available(),
            8,
        ),
        clk.clone(),
    );
    let mut b = Driver::new(
        end(1),
        Connection::acceptor_with_ladder(call("W2XYZ"), Ladder::all_available(), 8),
        clk.clone(),
    );
    a.connect();
    let start = a.current_rung();
    a.send(b"adapt".to_vec());
    let mut b_ev = Vec::new();
    for _ in 0..400 {
        a.poll();
        b_ev.extend(b.poll());
        clk.advance(Duration::from_millis(200));
    }
    assert!(a.current_rung() < start, "A climbs on B's advice");
    assert!(messages(&b_ev).contains(&b"adapt".to_vec()));
}

#[test]
fn driver_adapts_the_rung_from_the_phys_channel_quality() {
    // End-to-end glue: B's PHY reports a poor channel; B folds it into adaptation
    // and feeds back a robust rung, and the floor-holding sender A obeys (its
    // rung climbs toward BASE). Before that both PHYs report a good channel, which
    // takes both stations to the fastest rung of a full ladder.
    let clk = ManualClock::new();
    let q: Queues = Rc::new(RefCell::new([VecDeque::new(), VecDeque::new()]));
    let snr_db = Rc::new(Cell::new(25.0_f32));
    let end = |side: usize| MeasuringWire {
        q: Rc::clone(&q),
        side,
        snr_db: Rc::clone(&snr_db),
        frames_total: 10,
        frames_failed: 0,
    };
    let mut a = Driver::new(
        end(0),
        Connection::initiator_with_ladder(
            call("K1ABC"),
            call("W2XYZ"),
            0x1234,
            Ladder::all_available(),
            8,
        ),
        clk.clone(),
    );
    let mut b = Driver::new(
        end(1),
        Connection::acceptor_with_ladder(call("W2XYZ"), Ladder::all_available(), 8),
        clk.clone(),
    );
    a.connect();
    let mut b_ev = Vec::new();
    for _ in 0..8 {
        a.send(b"up".to_vec());
        for _ in 0..100 {
            a.poll();
            b_ev.extend(b.poll());
            clk.advance(Duration::from_millis(200));
        }
    }
    let start = a.current_rung();
    assert_eq!(start, 0, "A starts on the fastest rung");

    snr_db.set(-15.0); // a collapsed channel on A's overs
    a.send(b"adapt".to_vec());
    for _ in 0..400 {
        a.poll();
        b_ev.extend(b.poll());
        clk.advance(Duration::from_millis(200));
    }
    assert!(
        a.current_rung() > start,
        "A downshifts from B's poor-channel feedback (end-to-end through the Driver)"
    );
    assert!(
        messages(&b_ev).contains(&b"adapt".to_vec()),
        "and the message still delivers"
    );
}

#[test]
fn send_frame_errors_are_captured_not_dropped() {
    let clk = ManualClock::new();
    let mut a = Driver::new(
        ErrPhy,
        Connection::initiator(call("K1ABC"), call("W2XYZ"), 0x1234, profile(), 8),
        clk.clone(),
    );
    a.connect();
    a.poll();
    assert!(
        !a.take_errors().is_empty(),
        "the failed send must be surfaced"
    );
    assert!(a.take_errors().is_empty(), "errors drain on take");
}

#[test]
fn logical_clock_freezes_for_the_real_keying_interval() {
    // The PHY keys for far longer than the connect-retry budget. Because the
    // link's clock is frozen on ACTUAL keying (tx_in_flight), the connect
    // timer must NOT fire during keying — the attempt stays Connecting
    // rather than exhausting retries. (Without the freeze, real time would
    // blow through MAX_CONN_RETRIES * turn_recovery and close the link.)
    let clk = ManualClock::new();
    let phy = KeyedPhy {
        clk: clk.clone(),
        key_duration: Duration::from_secs(10),
        busy_until: Cell::new(None),
    };
    let mut a = Driver::new(
        phy,
        Connection::initiator(call("K1ABC"), call("W2XYZ"), 0x1234, profile(), 8),
        clk.clone(),
    );
    a.connect(); // turn-recovery is 20 ms logical
    for _ in 0..50 {
        a.poll();
        clk.advance(Duration::from_millis(100)); // 5 s real, all during keying
    }
    assert_eq!(
        a.state(),
        ConnState::Connecting,
        "frozen logical clock ⇒ no spurious retry/timeout while keying"
    );
}

#[test]
fn periodic_id_is_emitted_after_the_real_interval_and_not_before() {
    // Part-97 ≤10-min cadence in REAL time. A connects (the CONN is the start
    // ID — no separate ID frame yet), then after ID_INTERVAL of real time A
    // must fold a periodic ID into its next over.
    let clk = ManualClock::new();
    let (ea, eb, a_sent, _b_sent) = recording_wire();
    let mut a = Driver::new(
        ea,
        Connection::initiator(call("K1ABC"), call("W2XYZ"), 0x1234, profile(), 8),
        clk.clone(),
    );
    let mut b = Driver::new(
        eb,
        Connection::acceptor(call("W2XYZ"), profile(), 8),
        clk.clone(),
    );
    a.connect();
    // Settle the handshake + an initial exchange, well under ID_INTERVAL.
    a.send(b"hi".to_vec());
    for _ in 0..40 {
        a.poll();
        b.poll();
        clk.advance(Duration::from_millis(50)); // 2 s total real ≪ 9 min
    }
    assert_eq!(a.state(), ConnState::Connected);
    assert_eq!(
        id_frame_count(&a_sent),
        0,
        "no periodic ID before the interval (CONN already identified the start)"
    );

    // Jump real time past the cadence, then give A something to transmit.
    clk.advance(Duration::from_secs(ID_INTERVAL_SECS + 1));
    a.send(b"after".to_vec());
    let mut b_ev = Vec::new();
    for _ in 0..60 {
        a.poll();
        b_ev.extend(b.poll());
        clk.advance(Duration::from_millis(50));
    }
    assert!(
        id_frame_count(&a_sent) >= 1,
        "A folds a periodic ID into its over once ID_INTERVAL of real time has passed"
    );
    // The whole message still delivers — the ID frame rides along in the over,
    // it does not disrupt delivery.
    assert!(messages(&b_ev).contains(&b"after".to_vec()));
}

#[test]
fn next_wakeup_polls_soon_while_keying() {
    let clk = ManualClock::new();
    let phy = KeyedPhy {
        clk: clk.clone(),
        key_duration: Duration::from_secs(5),
        busy_until: Cell::new(None),
    };
    let mut a = Driver::new(
        phy,
        Connection::initiator(call("K1ABC"), call("W2XYZ"), 0x1234, profile(), 8),
        clk.clone(),
    );
    a.connect();
    a.poll(); // flush CONN → worker is now keying
    assert_eq!(
        a.next_wakeup(),
        Some(clk.now().saturating_add(Duration::from_millis(TX_POLL_INTERVAL_MS))),
        "while keying, poll again soon to detect completion"
    );
}
