use sonde::frame::LinkFrame;
use sonde::mac::{Ladder, BASE_RUNG};
use sonde::time::Duration;
use sonde::transport::FrameErrorRate;
use sonde::{Callsign, ConnState, Connection, HostEvent, ModeProfile};

fn call(s: &str) -> Callsign {
    Callsign::new(s).unwrap()
}

/// A generator of coin flips that are the same every time.
struct Dice(u32);

impl Dice {
    fn below(&mut self, n: usize) -> usize {
        self.0 = self.0.wrapping_mul(1_103_515_245).wrapping_add(12_345);
        (self.0 >> 16) as usize % n
    }
}

/// Two stations, the frames on the air in each direction, and what the hosts were told.
struct Pair {
    conns: [Connection; 2],
    air: [Vec<LinkFrame>; 2],
    told: [Vec<Vec<u8>>; 2],
    now: Duration,
}

impl Pair {
    fn new(a: Connection, b: Connection) -> Self {
        Pair {
            conns: [a, b],
            air: [Vec::new(), Vec::new()],
            told: [Vec::new(), Vec::new()],
            now: Duration::zero(),
        }
    }

    fn advance(&mut self, ms: u64) {
        self.now = self.now.saturating_add(Duration::from_millis(ms));
    }

    /// Put everything that a station has to say on the air.
    fn transmit(&mut self, side: usize) {
        while let Some(f) = self.conns[side].poll_transmit(self.now) {
            self.air[side].push(f);
        }
    }

    fn hear(&mut self, side: usize, f: LinkFrame) {
        self.conns[side].handle_frame(f, self.now);
        self.take_events(side);
    }

    fn take_events(&mut self, side: usize) {
        while let Some(e) = self.conns[side].poll_event() {
            if let HostEvent::DataReceived(m) = e {
                self.told[side].push(m);
            }
        }
    }
}

#[test]
fn each_host_is_told_what_the_other_sent_in_order() {
    let profile = ModeProfile::new(Duration::from_millis(10), 4);
    let mut p = Pair::new(
        Connection::initiator(call("K1ABC"), call("W2XYZ"), 0x1234, profile, 8),
        Connection::acceptor(call("W2XYZ"), profile, 8),
    );
    let mut dice = Dice(7);
    let sent: [Vec<Vec<u8>>; 2] = [
        (0u8..9).map(|i| vec![i; i as usize]).collect(),
        (0u8..6).map(|i| vec![100 + i; 3 * i as usize]).collect(),
    ];
    p.conns[0].connect(p.now);
    for side in 0..2 {
        for m in &sent[side] {
            p.conns[side].send(m.clone());
        }
    }
    for _ in 0..20_000 {
        for side in 0..2 {
            p.transmit(side);
            // Of all that was ever said, hear anything any number of times, or nothing.
            for _ in 0..dice.below(4) {
                let said = p.air[1 - side].len();
                if said > 0 {
                    let back = dice.below(said.min(6));
                    let f = p.air[1 - side][said - 1 - back].clone();
                    p.hear(side, f);
                }
            }
            p.conns[side].handle_timeout(p.now);
            p.take_events(side);
            let got = &p.told[side];
            assert!(got.len() <= sent[1 - side].len());
            assert_eq!(got[..], sent[1 - side][..got.len()]);
        }
        p.advance(3);
        if p.told[0].len() == sent[1].len() && p.told[1].len() == sent[0].len() {
            break;
        }
    }
    assert_eq!(p.told[1], sent[0]);
    assert_eq!(p.told[0], sent[1]);
}

#[test]
fn link_falls_to_the_base_mode_when_faster_ones_stop_decoding() {
    let mut p = Pair::new(
        Connection::initiator_with_ladder(
            call("K1ABC"),
            call("W2XYZ"),
            0x1234,
            Ladder::all_available(),
            8,
        ),
        Connection::acceptor_with_ladder(call("W2XYZ"), Ladder::all_available(), 8),
    );
    let clean = FrameErrorRate {
        failed: 0,
        total: 10,
    };
    p.conns[0].connect(p.now);
    let mut base_only = false;
    let mut lost = 0;
    for round in 0..4_000 {
        if round < 200 && round % 10 == 0 {
            p.conns[0].send(b"up".to_vec());
        }
        if round == 200 {
            assert_eq!(p.conns[0].current_rung(), 0, "both climbed");
            base_only = true;
            p.conns[0].send(b"still here".to_vec());
        }
        for side in 0..2 {
            p.transmit(side);
            for f in std::mem::take(&mut p.air[side]) {
                if base_only && f.mode != BASE_RUNG {
                    lost += 1;
                    continue;
                }
                if !base_only {
                    p.conns[1 - side].observe_quality(Some(25_000), clean, 10);
                }
                p.hear(1 - side, f);
            }
            p.conns[side].handle_timeout(p.now);
            p.take_events(side);
        }
        p.advance(200);
    }
    assert!(lost > 0, "the faster modes were tried first");
    assert_eq!(p.told[1].last().unwrap(), b"still here");
    assert_eq!(p.conns[0].state(), ConnState::Connected);
    assert_eq!(p.conns[1].state(), ConnState::Connected);
}
