use sonde::frame::{
    FrameType, LinkFrame, StationId, HEADER_LEN, LINK_MTU, LINK_OVERHEAD, STATION_ID_LEN,
};
use sonde::{Callsign, FrameError};

const CRC32: crc::Crc<u32> = crc::Crc::<u32>::new(&crc::CRC_32_ISO_HDLC);


fn call(s: &str) -> Callsign {
    Callsign::new(s).unwrap()
}

fn station() -> StationId {
    StationId::new(call("K1ABC"), call("W2XYZ"))
}

#[test]
fn overhead_dropped_to_26_bytes() {
    // The callsign-removal win: 20 bytes (SRC+DST) gone from every frame.
    assert_eq!(HEADER_LEN, 22);
    assert_eq!(LINK_OVERHEAD, 26);
}

#[test]
fn data_frame_round_trips_with_no_callsigns() {
    let f = LinkFrame::data(0x1234, 42, b"hello over".to_vec());
    let bytes = f.encode().unwrap();
    assert_eq!(bytes.len(), LINK_OVERHEAD + 10);
    let g = LinkFrame::decode(&bytes).unwrap();
    assert_eq!(f, g);
    assert_eq!(g.id, None, "data plane carries no station id");
    assert_eq!(g.conn_id, 0x1234);
    assert_eq!(g.payload, b"hello over");
    assert!(!g.is_end_of_over());
}

#[test]
fn end_of_over_turn_token_round_trips() {
    let f = LinkFrame::data(1, 7, b"x".to_vec()).end_of_over();
    assert!(f.is_end_of_over());
    let g = LinkFrame::decode(&f.encode().unwrap()).unwrap();
    assert!(g.is_end_of_over());
}

#[test]
fn end_of_msg_is_independent_of_end_of_over() {
    let mid = LinkFrame::data(1, 3, b"frag".to_vec()).end_of_msg();
    assert!(mid.is_end_of_msg());
    assert!(!mid.is_end_of_over());
    let g = LinkFrame::decode(&mid.encode().unwrap()).unwrap();
    assert!(g.is_end_of_msg());
    assert!(!g.is_end_of_over());

    let both = LinkFrame::data(1, 4, b"last".to_vec())
        .end_of_msg()
        .end_of_over();
    assert!(both.is_end_of_msg());
    assert!(both.is_end_of_over());
}

#[test]
fn ack_frame_round_trips_with_sack_and_zero_len() {
    let f = LinkFrame::ack(0x1234, 100, 0b1011);
    let bytes = f.encode().unwrap();
    let g = LinkFrame::decode(&bytes).unwrap();
    assert_eq!(g.frame_type, FrameType::Ack);
    assert_eq!(g.ack_through, 100);
    assert_eq!(g.sack, 0b1011);
    assert!(g.payload.is_empty());
    assert_eq!(g.id, None);
    assert_eq!(u16::from_be_bytes([bytes[20], bytes[21]]), 0); // LEN at offset 20
}

#[test]
fn mode_id_round_trips_at_offset_19() {
    let f = LinkFrame::data(1, 5, b"x".to_vec()).with_mode(3);
    let bytes = f.encode().unwrap();
    assert_eq!(bytes[19], 3, "MODE at offset 19");
    let g = LinkFrame::decode(&bytes).unwrap();
    assert_eq!(g.mode, 3);
    // Default mode is 0 when not stamped (on an ID-bearing CONN here).
    let h = LinkFrame::id_control(FrameType::Conn, station(), 1, 1);
    assert_eq!(LinkFrame::decode(&h.encode().unwrap()).unwrap().mode, 0);
}

#[test]
fn conn_id_round_trips_at_offset_5() {
    let f = LinkFrame::data(0xBEEF, 1, b"x".to_vec());
    let bytes = f.encode().unwrap();
    assert_eq!(u16::from_be_bytes([bytes[5], bytes[6]]), 0xBEEF);
}

#[test]
fn id_bearing_control_frames_round_trip_the_station_id() {
    for t in [
        FrameType::Conn,
        FrameType::ConnAck,
        FrameType::Disc,
        FrameType::DiscAck,
    ] {
        let f = LinkFrame::id_control(t, station(), 7, 9);
        let g = LinkFrame::decode(&f.encode().unwrap()).unwrap();
        assert_eq!(g.frame_type, t);
        assert_eq!(g.conn_id, 7);
        assert_eq!(g.id, Some(station()));
        assert_eq!(g.id.unwrap().src.as_str(), "K1ABC");
    }
}

#[test]
fn periodic_id_frame_round_trips() {
    let f = LinkFrame::id_frame(station(), 0x1234).with_mode(2);
    let bytes = f.encode().unwrap();
    let g = LinkFrame::decode(&bytes).unwrap();
    assert_eq!(g.frame_type, FrameType::Id);
    assert_eq!(g.conn_id, 0x1234);
    assert_eq!(g.mode, 2);
    assert_eq!(g.id, Some(station()));
}

#[test]
fn non_id_bearing_control_frames_carry_no_callsigns() {
    for t in [FrameType::Keepalive, FrameType::Nak] {
        let f = LinkFrame::control(t, 7, 9);
        let g = LinkFrame::decode(&f.encode().unwrap()).unwrap();
        assert_eq!(g.frame_type, t);
        assert_eq!(g.id, None);
        assert!(g.payload.is_empty());
    }
}

#[test]
fn encode_rejects_id_bearing_type_without_a_station_id() {
    // A CONN built without callsigns must not silently go out callsign-less.
    let bad = LinkFrame::control(FrameType::Conn, 1, 1);
    assert_eq!(
        bad.encode(),
        Err(FrameError::IdPresenceMismatch {
            frame_type: FrameType::Conn.to_u8(),
            has_id: false,
        })
    );
}

#[test]
fn decode_rejects_id_bearing_frame_with_wrong_region_length() {
    // Forge a CONN whose region is not the 20-byte station-id block.
    let mut f = LinkFrame::data(1, 1, vec![0u8; 5]);
    f.frame_type = FrameType::Conn; // bypass the encode invariant via raw field
    f.id = None;
    // Encode would reject (presence mismatch); build the wire bytes by hand
    // off a DATA frame, then flip the TYPE byte and re-CRC.
    let data = LinkFrame::data(1, 1, vec![0u8; 5]);
    let mut bytes = data.encode().unwrap();
    bytes[3] = FrameType::Conn.to_u8(); // now an ID-bearing type with LEN=5
    let crc = CRC32.checksum(&bytes[..HEADER_LEN + 5]);
    bytes[HEADER_LEN + 5..].copy_from_slice(&crc.to_be_bytes());
    assert_eq!(
        LinkFrame::decode(&bytes),
        Err(FrameError::BadStationIdLen { got: 5 })
    );
}

#[test]
fn crc_rejects_a_flipped_payload_byte() {
    let f = LinkFrame::data(1, 1, b"payload".to_vec());
    let mut bytes = f.encode().unwrap();
    bytes[HEADER_LEN] ^= 0x01;
    assert_eq!(LinkFrame::decode(&bytes), Err(FrameError::BadCrc));
}

#[test]
fn crc_rejects_a_flipped_header_byte() {
    let f = LinkFrame::data(1, 1, b"x".to_vec());
    let mut bytes = f.encode().unwrap();
    bytes[7] ^= 0xFF; // corrupt SEQ (now at offset 7)
    assert_eq!(LinkFrame::decode(&bytes), Err(FrameError::BadCrc));
}

#[test]
fn truncated_buffer_is_too_short() {
    assert!(matches!(
        LinkFrame::decode(&[0u8; 10]),
        Err(FrameError::TooShort { .. })
    ));
}

#[test]
fn declared_length_longer_than_buffer_is_length_mismatch() {
    let f = LinkFrame::data(1, 1, b"abc".to_vec());
    let mut bytes = f.encode().unwrap();
    let fake = (1000u16).to_be_bytes();
    bytes[20] = fake[0];
    bytes[21] = fake[1];
    assert!(matches!(
        LinkFrame::decode(&bytes),
        Err(FrameError::LengthMismatch { .. })
    ));
}

#[test]
fn bad_magic_rejected() {
    let f = LinkFrame::id_control(FrameType::Conn, station(), 0, 0);
    let mut bytes = f.encode().unwrap();
    bytes[0] = 0x00;
    assert_eq!(LinkFrame::decode(&bytes), Err(FrameError::BadMagic));
}

#[test]
fn old_version_byte_is_rejected_not_misparsed() {
    let f = LinkFrame::data(1, 1, b"x".to_vec());
    let mut bytes = f.encode().unwrap();
    bytes[2] = 1; // a v1 frame
                  // CRC will also fail, but version is checked first.
    assert_eq!(
        LinkFrame::decode(&bytes),
        Err(FrameError::BadVersion { got: 1 })
    );
}

#[test]
fn callsign_validation() {
    assert!(Callsign::new("K1ABC").is_ok());
    assert!(Callsign::new("VE3AB/P").is_ok());
    assert_eq!(Callsign::new("k1abc").unwrap().as_str(), "K1ABC");
    assert!(Callsign::new("").is_err());
    assert!(Callsign::new("TOOLONGCALL1").is_err());
    assert!(Callsign::new("AB CD").is_err());
    assert!(Callsign::new("AB-CD").is_err());
}

#[test]
fn non_canonical_callsign_padding_is_rejected() {
    let f = LinkFrame::id_control(FrameType::Conn, station(), 1, 1);
    let mut bytes = f.encode().unwrap();
    // SRC field is region[0..10] at HEADER_LEN..HEADER_LEN+10; "K1ABC" is 5
    // chars, so byte HEADER_LEN+6 is padding. Smuggle a byte after the NUL.
    bytes[HEADER_LEN + 6] = b'X';
    let crc = CRC32.checksum(&bytes[..HEADER_LEN + STATION_ID_LEN]);
    bytes[HEADER_LEN + STATION_ID_LEN..].copy_from_slice(&crc.to_be_bytes());
    assert!(matches!(
        LinkFrame::decode(&bytes),
        Err(FrameError::BadCallsign(_))
    ));
}

#[test]
fn mtu_is_enforced_on_encode() {
    let f = LinkFrame::data(1, 1, vec![0u8; LINK_MTU + 1]);
    assert!(matches!(
        f.encode(),
        Err(FrameError::PayloadTooLarge { .. })
    ));
}

#[test]
fn rx_rung_packs_into_flags_without_disturbing_end_tokens() {
    // rx_rung coexists with both END flags and survives a wire round-trip.
    let f = LinkFrame::data(1, 1, b"x".to_vec())
        .end_of_over()
        .end_of_msg()
        .with_rx_rung(4);
    assert_eq!(f.rx_rung(), 4);
    assert!(f.is_end_of_over());
    assert!(f.is_end_of_msg());
    let g = LinkFrame::decode(&f.encode().unwrap()).unwrap();
    assert_eq!(g.rx_rung(), 4);
    assert!(g.is_end_of_over());
    assert!(g.is_end_of_msg());
    // Default is 0 when not stamped.
    assert_eq!(LinkFrame::data(1, 1, vec![]).rx_rung(), 0);
    // Restamping replaces only the rx_rung bits, leaving the END tokens.
    let h = f.with_rx_rung(1);
    assert_eq!(h.rx_rung(), 1);
    assert!(h.is_end_of_over());
    assert!(h.is_end_of_msg());
}

#[test]
fn is_id_bearing_classification() {
    for t in [
        FrameType::Conn,
        FrameType::ConnAck,
        FrameType::Disc,
        FrameType::DiscAck,
        FrameType::Id,
    ] {
        assert!(t.is_id_bearing(), "{t:?} should be id-bearing");
    }
    for t in [
        FrameType::Data,
        FrameType::Ack,
        FrameType::Nak,
        FrameType::Keepalive,
    ] {
        assert!(!t.is_id_bearing(), "{t:?} should not be id-bearing");
    }
}

#[test]
fn no_corrupted_byte_passes_for_a_frame() {
    for f in [
        LinkFrame::data(0x1234, 7, b"payload".to_vec()).end_of_msg(),
        LinkFrame::id_control(FrameType::Conn, station(), 1, 1),
        LinkFrame::ack(9, 3, 0x8000_0001),
    ] {
        let bytes = f.encode().unwrap();
        assert_eq!(LinkFrame::decode(&bytes).unwrap(), f);
        for i in 0..bytes.len() {
            for d in 1..=255u8 {
                let mut bad = bytes.clone();
                bad[i] ^= d;
                assert!(LinkFrame::decode(&bad).is_err(), "byte {i} changed by {d}");
            }
        }
    }
}

#[test]
fn checksum_is_the_ieee_one() {
    for f in [
        LinkFrame::data(0, 0, Vec::new()),
        LinkFrame::data(0xFFFF, u32::MAX, (0..=255).collect()),
    ] {
        let bytes = f.encode().unwrap();
        let (body, crc) = bytes.split_at(bytes.len() - 4);
        assert_eq!(crc, sonde::narrow_fsk::crc32_ieee(body).to_be_bytes());
    }
}
