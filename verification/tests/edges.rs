use sonde::arq::{Delivered, Reassembler, RecvBuffer, SendWindow, FIRST_SEQ};
use sonde::bits::{pack, unpack};
use sonde::clock::{Clock, SystemClock};
use sonde::coded_framing::{blocks_for_payload, deframe_info_bits, frame_info_bits};
use sonde::conn::{ConnState, Connection, HostEvent};
use sonde::driver::{Driver, TxPacing, ID_INTERVAL_SECS};
use sonde::frame::{
    FrameType, LinkFrame, StationId, HEADER_LEN, LINK_MTU, LINK_OVERHEAD, MAGIC, VERSION,
};
use sonde::host::HostCommand;
use sonde::mac::{self, Ladder, BASE_RUNG, NUM_RUNGS};
use sonde::modes::{ModeFamily, ModeHint, ModeTable};
use sonde::null_phy::NullPhy;
use sonde::profile::ModeProfile;
use sonde::time::Duration;
use sonde::transport::{ChannelQualityReport, FrameErrorRate, PhyError, PhyTransport};
use sonde::{Callsign, FrameError, Link};

const CRC32: crc::Crc<u32> = crc::Crc::<u32>::new(&crc::CRC_32_ISO_HDLC);

fn call(s: &str) -> Callsign {
    Callsign::new(s).unwrap()
}

fn station() -> StationId {
    StationId::new(call("K1ABC"), call("W2XYZ"))
}

fn profile() -> ModeProfile {
    ModeProfile::new(Duration::from_millis(10), 4)
}

/// Put the right checksum behind a frame that was tampered with.
fn reseal(bytes: &mut [u8]) {
    let n = bytes.len() - 4;
    let crc = CRC32.checksum(&bytes[..n]);
    bytes[n..].copy_from_slice(&crc.to_be_bytes());
}

#[test]
fn a_frame_lies_on_the_wire_as_described() {
    let bytes = LinkFrame::data(0x1234, 0x0A0B_0C0D, vec![0xEE])
        .end_of_over()
        .with_mode(3)
        .encode()
        .unwrap();
    assert_eq!(&bytes[..2], &MAGIC);
    assert_eq!(bytes[2], VERSION);
    assert_eq!(&bytes[5..7], &[0x12, 0x34]);
    assert_eq!(&bytes[7..11], &[0x0A, 0x0B, 0x0C, 0x0D]);
    assert_eq!(bytes[19], 3);
    assert_eq!(&bytes[20..22], &[0, 1]);
    assert_eq!(bytes[HEADER_LEN], 0xEE);
    assert_eq!(bytes.len(), LINK_OVERHEAD + 1);
    let crc = CRC32.checksum(&bytes[..HEADER_LEN + 1]);
    assert_eq!(&bytes[HEADER_LEN + 1..], &crc.to_be_bytes());
    // What was decoded encodes to the same bytes.
    assert_eq!(LinkFrame::decode(&bytes).unwrap().encode().unwrap(), bytes);
}

#[test]
fn unknown_type_is_refused() {
    let mut bytes = LinkFrame::data(1, 1, vec![]).encode().unwrap();
    bytes[3] = 0xEE;
    reseal(&mut bytes);
    assert_eq!(LinkFrame::decode(&bytes), Err(FrameError::UnknownType(0xEE)));
    for t in 0..=255u8 {
        if let Ok(f) = FrameType::from_u8(t) {
            assert_eq!(f.to_u8(), t);
        }
    }
}

#[test]
fn presence_of_the_station_must_fit_the_type() {
    let mut f = LinkFrame::data(1, 1, b"x".to_vec());
    f.id = Some(station());
    assert_eq!(
        f.encode(),
        Err(FrameError::IdPresenceMismatch {
            frame_type: FrameType::Data.to_u8(),
            has_id: true,
        })
    );
    let mut g = LinkFrame::id_frame(station(), 1);
    g.payload = b"x".to_vec();
    assert_eq!(g.encode(), Err(FrameError::IdFrameHasPayload));
}

#[test]
fn largest_payload_encodes_and_one_more_byte_does_not() {
    let f = LinkFrame::data(1, 1, vec![7; LINK_MTU]);
    let bytes = f.encode().unwrap();
    assert_eq!(bytes.len(), 65535);
    assert_eq!(LinkFrame::decode(&bytes), Ok(f));
    assert_eq!(
        LinkFrame::data(1, 1, vec![7; LINK_MTU + 1]).encode(),
        Err(FrameError::PayloadTooLarge {
            len: LINK_MTU + 1,
            max: LINK_MTU,
        })
    );
}

#[test]
fn a_longer_region_than_can_be_encoded_still_decodes() {
    // The length field reaches past what an encoder writes.
    let mut bytes = LinkFrame::data(1, 1, vec![]).encode().unwrap();
    bytes.truncate(HEADER_LEN);
    bytes[20] = 0xFF;
    bytes[21] = 0xFF;
    bytes.extend_from_slice(&vec![0u8; 65535 + 4]);
    reseal(&mut bytes);
    assert_eq!(LinkFrame::decode(&bytes).unwrap().payload.len(), 65535);
}

#[test]
fn a_callsign_on_the_wire_must_be_text() {
    assert!(matches!(
        Callsign::from_wire(&[0xFF, 0xFE, 0, 0, 0, 0, 0, 0, 0, 0]),
        Err(FrameError::BadCallsign(_))
    ));
    let w = call("VE3AB/P").to_wire();
    assert_eq!(w, b"VE3AB/P\0\0\0");
    assert_eq!(Callsign::from_wire(&w).unwrap().as_str(), "VE3AB/P");
    // Lower case is brought to upper case, also off the wire.
    assert_eq!(Callsign::new("ve3ab/p").unwrap().as_str(), "VE3AB/P");
    assert!(call("K1ABC").same(&call("k1abc")));
    assert!(call("K1ABC").is_not_after(&call("W2XYZ")));
    assert!(!call("W2XYZ").is_not_after(&call("K1ABC")));
}

#[test]
fn durations_saturate() {
    let max = Duration::from_nanos(u128::MAX);
    assert_eq!(max.saturating_add(Duration::from_secs(1)), max);
    assert_eq!(Duration::zero().saturating_sub(max), Duration::zero());
    assert_eq!(max.saturating_mul(2), max);
    assert_eq!(Duration::from_secs(2).as_millis(), 2000);
    assert_eq!(Duration::from_millis(3).saturating_mul(4), Duration::from_millis(12));
}

#[test]
fn system_clock_does_not_run_backwards() {
    let c = SystemClock::new();
    let a = c.now();
    let b = c.now();
    assert!(a <= b);
}

#[test]
fn acknowledgements_at_the_edge_of_the_numbers_are_harmless() {
    let mut w = SendWindow::new(4);
    w.enqueue(b"a".to_vec());
    w.on_ack(u32::MAX, u32::MAX);
    assert!(!w.has_unacked());
    let mut r = RecvBuffer::new(4);
    assert!(r.accept(u32::MAX, b"x".to_vec(), true).is_empty());
    assert_eq!(r.ack_through(), FIRST_SEQ - 1);
}

#[test]
fn delivery_is_in_order_and_exactly_once_for_any_arrival_order() {
    let mut seed: u32 = 0xBADC_0DE;
    for _ in 0..50 {
        let mut r = RecvBuffer::new(8);
        let mut whole = Reassembler::new();
        let mut got = Vec::new();
        let mut out = Vec::new();
        while got.len() < 20 {
            seed = seed.wrapping_mul(1_103_515_245).wrapping_add(12_345);
            let at = r.ack_through() + 1;
            let seq = at.saturating_sub(2).max(1) + (seed >> 16) % 8;
            for d in r.accept(seq, vec![seq as u8], seq % 4 == 0) {
                got.push(d.payload[0]);
                if let Some(m) = whole.push(d) {
                    out.push(m);
                }
            }
        }
        let want: Vec<u8> = (1..=got.len() as u8).collect();
        assert_eq!(got, want);
        assert_eq!(out[0], vec![1, 2, 3, 4]);
    }
}

#[test]
fn a_reset_reassembler_forgets_a_partial_message() {
    let mut a = Reassembler::new();
    a.push(Delivered {
        payload: b"half".to_vec(),
        end_of_msg: false,
    });
    a.reset();
    assert_eq!(
        a.push(Delivered {
            payload: b"whole".to_vec(),
            end_of_msg: true,
        }),
        Some(b"whole".to_vec())
    );
}

#[test]
fn bits_round_trip_most_significant_first() {
    assert_eq!(unpack(&[0b1000_0001]), vec![1, 0, 0, 0, 0, 0, 0, 1]);
    assert_eq!(pack(&unpack(b"sonde")), b"sonde");
}

#[test]
fn deframing_names_what_is_missing() {
    assert_eq!(
        deframe_info_bits(&[0; 15]),
        Err(PhyError::FrameDetect(
            "coded frame shorter than length header".to_string()
        ))
    );
    let framed = frame_info_bits(&[9; 40], 100);
    assert_eq!(framed.len(), 400);
    assert_eq!(blocks_for_payload(40, 100), 4);
    assert_eq!(
        deframe_info_bits(&framed[..300]),
        Err(PhyError::FrameDetect(
            "declared payload 40 bytes needs 336 bits, have 300".to_string()
        ))
    );
}

#[test]
fn frame_error_rates_compare_exactly() {
    let r = FrameErrorRate { failed: 1, total: 5 };
    assert!(r.is_at_least(200) && !r.is_at_least(201));
    assert!(r.is_at_most(200) && !r.is_at_most(199));
    let none = FrameErrorRate::none();
    assert!(none.is_at_most(0) && !none.is_at_least(1));
}

#[test]
fn the_single_mode_ladder_holds_one_rung() {
    let l = Ladder::standard_with_uniform_profile(profile());
    assert_eq!(l.base_rung(), mac::base_rung());
    for id in 0..=NUM_RUNGS {
        assert_eq!(l.clamp_available(id), mac::base_rung());
    }
    assert_eq!(mac::family_of(0), mac::family_of(2));
    assert_ne!(mac::family_of(2), mac::family_of(3));
    assert_eq!(mac::ladder().len(), NUM_RUNGS as usize);
    assert_eq!(mac::frames_for(0, 10), 1);
    assert_eq!(mac::frames_for(21, 10), 3);
}

#[test]
fn worse_channels_get_more_robust_rungs_all_along_the_scale() {
    let at = |mdb: i32| {
        mac::recommended_rung(&ChannelQualityReport::from_parts(Some(mdb), 10, 0))
    };
    let mut last = BASE_RUNG;
    for mdb in (-30_000..30_000).step_by(500) {
        let r = at(mdb);
        assert!(r <= last);
        last = r;
    }
    assert_eq!(last, 0);
}

#[test]
fn mode_table_knows_its_families() {
    let t = ModeTable::default();
    assert_eq!(
        t.distinct_families(),
        vec![ModeFamily::OfdmMain, ModeFamily::RobustnessFloor]
    );
    assert!(t.descriptor("fm").is_none());
    let pinned = t.resolve(ModeHint::MainPinned("ofdm-narrow"), None);
    assert_eq!((pinned.short_name(), pinned.wire_id()), ("ofdm-narrow", 2));
}

#[test]
fn a_listener_hears_no_data_before_a_call() {
    let mut b = Connection::acceptor(call("W2XYZ"), profile(), 8);
    b.handle_frame(
        LinkFrame::data(7, 1, b"x".to_vec()).end_of_msg(),
        Duration::zero(),
    );
    assert_eq!(b.state(), ConnState::Closed);
    assert!(b.poll_event().is_none());
    assert!(b.poll_transmit(Duration::zero()).is_none());
    assert!(b.next_timeout().is_none());
}

#[test]
fn an_unanswered_call_fails_after_its_retries() {
    let mut a = Connection::initiator(call("K1ABC"), call("W2XYZ"), 9, profile(), 8);
    a.connect(Duration::zero());
    let mut calls = 0;
    for _ in 0..200 {
        let Some(t) = a.next_timeout() else { break };
        while let Some(f) = a.poll_transmit(t) {
            assert_eq!(f.frame_type, FrameType::Conn);
            calls += 1;
        }
        a.handle_timeout(t);
    }
    assert_eq!(a.state(), ConnState::Closed);
    assert!(calls > 1, "the call was repeated");
    let mut events = Vec::new();
    while let Some(e) = a.poll_event() {
        events.push(e);
    }
    assert_eq!(events.len(), 1);
    assert!(!events.contains(&HostEvent::Connected));
}

#[test]
fn room_is_left_for_messages() {
    let a = Connection::initiator(call("K1ABC"), call("W2XYZ"), 9, profile(), 8);
    assert!(a.can_send(1_000_000));
}

#[test]
fn pacing_freezes_and_resumes() {
    let at = Duration::from_millis;
    let mut p = TxPacing::new();
    assert!(p.id_due(at(0)), "never identified");
    p.hand_over(at(100), true, true);
    assert_eq!(p.logical_at(at(900), at(900)), at(100), "stands still");
    assert_eq!(p.wakeup(at(900), None), Some(at(920)));
    p.settle(at(1100), 1);
    assert!(p.tx_active, "still in flight");
    p.settle(at(1100), 0);
    assert_eq!(p.logical_at(at(1300), at(1300)), at(300), "runs on");
    assert_eq!(p.wakeup(at(1300), Some(at(400))), Some(at(1400)));
    assert_eq!(p.wakeup(at(1300), None), None);
    assert!(!p.id_due(at(1300)));
    assert!(p.id_due(Duration::from_secs(ID_INTERVAL_SECS + 1)));
}

#[test]
fn loopback_hands_back_what_it_is_given() {
    let mut p = NullPhy::new();
    let t0 = p.send_frame(b"a", ModeHint::MainAuto).unwrap();
    let t1 = p.send_frame(b"b", ModeHint::Floor).unwrap();
    assert_eq!(t1.0, t0.0 + 1);
    let rx = p.drain_rx();
    assert_eq!(rx.len(), 2);
    assert_eq!(rx[0].payload(), b"a");
    assert_eq!(rx[1].payload(), b"b");
    assert!(p.drain_rx().is_empty());
    assert_eq!(p.tx_in_flight(), 0);
    assert_eq!(p.channel_quality().recent_frames_total(), 0);
}

#[test]
fn a_station_that_hears_itself_does_not_connect() {
    // Over a loopback the caller hears only its own calls, which are not for it.
    let conn = Connection::initiator(call("K1ABC"), call("W2XYZ"), 9, profile(), 8);
    let mut link = Link::new(NullPhy::new(), conn, ModeHint::Floor);
    link.command(HostCommand::Connect, Duration::zero());
    for i in 0..5 {
        link.poll(Duration::from_millis(i));
    }
    assert_eq!(link.state(), ConnState::Connecting);
    let conn = Connection::initiator(call("K1ABC"), call("W2XYZ"), 9, profile(), 8);
    let mut driver = Driver::new(NullPhy::new(), conn, SystemClock::new());
    driver.command(HostCommand::Connect);
    driver.poll();
    assert_eq!(driver.state(), ConnState::Connecting);
    assert!(driver.last_id().is_some(), "the call identified the station");
}
