use sonde::narrow_fsk::{crc32_ieee, NarrowFskFloor, NfskDecode, ScanPlan, SAMPLES_PER_SYMBOL};
use sonde::transport::PhyError;

/// Keys in which each symbol's tone stands out.
fn keys_of(tones: &[usize]) -> Vec<u32> {
    tones
        .iter()
        .flat_map(|&t| (0..8).map(move |k| if k == t { 1000 } else { 10 + k as u32 }))
        .collect()
}

#[test]
fn nfsk_clean_capture_round_trips_byte_exact() {
    let floor = NarrowFskFloor::new();
    for payload in [&b"CQ CQ DE K1ABC"[..], &b""[..], &b"A\x00\x00"[..]] {
        let tones = floor.transmit_with_preamble(payload).unwrap();
        assert_eq!(
            floor.receive_scan(&keys_of(&tones)),
            NfskDecode::Frame(payload.to_vec())
        );
    }
}

#[test]
fn a_wrong_tone_is_caught_by_the_crc() {
    let floor = NarrowFskFloor::new();
    let mut tones = floor.transmit_with_preamble(b"HELLO").unwrap();
    tones[9] ^= 1;
    assert_eq!(floor.receive_scan(&keys_of(&tones)), NfskDecode::Detected);
}

#[test]
fn a_frame_cut_short_is_detected_only() {
    let floor = NarrowFskFloor::new();
    let tones = floor.transmit_with_preamble(b"HELLO").unwrap();
    let cut = &tones[..tones.len() - 3];
    assert_eq!(floor.receive_scan(&keys_of(cut)), NfskDecode::Detected);
    assert_eq!(floor.receive_scan(&[]), NfskDecode::Detected);
}

#[test]
fn bare_tones_carry_bytes_without_a_frame() {
    let floor = NarrowFskFloor::new();
    let tones = floor.transmit(b"AB");
    // 0100_0001 0100_0010 in threes, the last one filled up.
    assert_eq!(tones, vec![2, 0, 2, 4, 1, 0]);
    assert_eq!(floor.demod_bytes(&tones), b"AB");
    assert_eq!(floor.receive(&keys_of(&floor.transmit(b"AB\x00"))), b"AB");
}

#[test]
fn bare_payload_loses_only_the_zeros_at_its_end() {
    let floor = NarrowFskFloor::new();
    for (sent, back) in [
        (&b""[..], &b""[..]),
        (&b"\x00\x00"[..], &b""[..]),
        (&b"\x00A\x00B\x00\x00"[..], &b"\x00A\x00B"[..]),
        (&b"whole"[..], &b"whole"[..]),
    ] {
        assert_eq!(floor.receive(&keys_of(&floor.transmit(sent))), back);
    }
}

#[test]
fn crc_check_value() {
    assert_eq!(crc32_ieee(b"123456789"), 0xCBF4_3926);
}

#[test]
fn oversized_payload_is_refused() {
    let big = vec![0u8; 65536];
    assert_eq!(
        NarrowFskFloor::new().transmit_with_preamble(&big),
        Err(PhyError::PayloadTooLarge {
            actual: 65536,
            capacity: 65535,
        })
    );
}

#[test]
fn scan_plan_follows_the_preamble() {
    let floor = NarrowFskFloor::new();
    assert_eq!(floor.plan_scan(None, 100_000), ScanPlan::NoSignal);
    assert_eq!(floor.plan_scan(Some(80), 400), ScanPlan::Truncated);
    assert_eq!(
        floor.plan_scan(Some(80), 400 + 2 * SAMPLES_PER_SYMBOL + 5),
        ScanPlan::Demodulate {
            body_start: 400,
            symbols: 2,
        }
    );
}

#[test]
fn tones_are_centred_at_1500_hz() {
    let floor = NarrowFskFloor::new();
    assert_eq!(floor.tone_freq_hz(0) + floor.tone_freq_hz(7), 3000);
    assert_eq!(floor.tone_freq_hz(3), 1475);
}
