use sonde::transport::PhyError;
use sonde::wideband_lowdensity::{
    locate_synced_body, receive_multi_with_sync, receive_multi_with_sync_scan, BlockReader,
    ReceiveStep, Span, SyncDecodeOutcome, SyncLocate, WidebandLowDensityFloor, WindowTap,
    ANALYTIC_PAD, PREAMBLE_LEN_SAMPLES, WINDOW_ROLLOFF_SAMPLES,
};

/// A floor whose code changes nothing: one block to a symbol.
fn floor() -> WidebandLowDensityFloor {
    WidebandLowDensityFloor {
        subcarriers: 99,
        data_bits_per_symbol: 74,
        fft_size: 2048,
        cp_len: 512,
        block_info_bits: 74,
        block_coded_bits: 74,
    }
}

/// A floor whose code repeats every bit four times: several symbols to a block.
fn repeating_floor() -> WidebandLowDensityFloor {
    WidebandLowDensityFloor {
        block_info_bits: 100,
        block_coded_bits: 400,
        ..floor()
    }
}

/// The bits of every symbol of a payload, with a code that repeats each bit.
fn modulate(f: &WidebandLowDensityFloor, payload: &[u8]) -> Vec<Vec<u8>> {
    let repeat = f.block_coded_bits / f.block_info_bits;
    let mut symbols = Vec::new();
    for block in f.transmit_multi(payload).unwrap() {
        let coded: Vec<u8> = block
            .iter()
            .flat_map(|&b| std::iter::repeat(b).take(repeat))
            .collect();
        symbols.extend(f.symbol_bits(&coded));
    }
    symbols
}

/// Read a frame from its symbols, of which `samples` samples were captured.
fn demodulate(
    f: &WidebandLowDensityFloor,
    symbols: &[Vec<u8>],
    samples: usize,
) -> Result<Vec<u8>, PhyError> {
    let repeat = f.block_coded_bits / f.block_info_bits;
    let mut reader = BlockReader::new(f.block_info_bits);
    loop {
        match f.receive_multi(samples, &reader) {
            ReceiveStep::Done(r) => return r,
            ReceiveStep::Decode { spans, .. } => {
                let mut coded = Vec::new();
                for s in spans {
                    coded.extend_from_slice(&symbols[s.start / f.symbol_size_samples()]);
                }
                coded.truncate(f.block_coded_bits);
                let info: Vec<u8> = coded.chunks(repeat).map(|c| c[0]).collect();
                reader.accept(&info);
            }
        }
    }
}

fn assert_multi_roundtrip(payload: &[u8]) {
    for f in [floor(), repeating_floor()] {
        let symbols = modulate(&f, payload);
        let samples = f.windowed_len(symbols.len());
        let decoded = demodulate(&f, &symbols, samples).unwrap();
        assert_eq!(
            decoded,
            payload,
            "roundtrip failed for {}-byte payload",
            payload.len()
        );
    }
}

#[test]
fn multi_roundtrip_empty_payload() {
    assert_multi_roundtrip(b"");
}

#[test]
fn multi_roundtrip_1_byte_payload() {
    assert_multi_roundtrip(b"X");
}

#[test]
fn multi_roundtrip_5_byte_payload() {
    assert_multi_roundtrip(b"HELLO");
}

#[test]
fn multi_roundtrip_7_byte_payload() {
    assert_multi_roundtrip(b"BORDER!");
}

#[test]
fn multi_roundtrip_8_byte_payload() {
    assert_multi_roundtrip(b"OVERFLOW");
}

#[test]
fn multi_roundtrip_10_byte_payload() {
    assert_multi_roundtrip(b"TenBytePay");
}

#[test]
fn multi_roundtrip_100_byte_payload() {
    let payload: Vec<u8> = (0..100).map(|i| (i % 251) as u8).collect();
    assert_multi_roundtrip(&payload);
}

#[test]
fn multi_roundtrip_1000_byte_payload() {
    // No off-by-one in the block count and the length header shifts the alignment.
    let payload: Vec<u8> = (0..1000).map(|i| (i % 251) as u8).collect();
    assert_multi_roundtrip(&payload);
}

#[test]
fn multi_roundtrip_preserves_trailing_zero_bytes() {
    // The length header keeps trailing 0x00 recoverable.
    assert_multi_roundtrip(b"AB\x00\x00\x00");
}

#[test]
fn multi_roundtrip_preserves_leading_zero_bytes() {
    assert_multi_roundtrip(b"\x00\x00DATA");
}

#[test]
fn multi_roundtrip_all_zeros_payload() {
    assert_multi_roundtrip(&[0u8; 30]);
}

#[test]
fn coded_round_trip_large_multiblock_payload() {
    let payload: Vec<u8> = (0..600).map(|i| (i % 251) as u8).collect();
    assert_multi_roundtrip(&payload);
}

#[test]
fn transmit_multi_payload_too_large_rejects() {
    let oversized = vec![0u8; u16::MAX as usize + 1];
    let err = floor().transmit_multi(&oversized).unwrap_err();
    assert_eq!(
        err,
        PhyError::PayloadTooLarge {
            actual: 65536,
            capacity: 65535,
        }
    );
}

#[test]
fn largest_payload_is_accepted() {
    let payload = vec![0x5Au8; u16::MAX as usize];
    let blocks = floor().transmit_multi(&payload).unwrap();
    assert_eq!(blocks.len(), (16 + 65535 * 8 + 73) / 74);
}

#[test]
fn receive_multi_rejects_input_shorter_than_one_block() {
    let f = floor();
    let reader = BlockReader::new(f.block_info_bits);
    match f.receive_multi(10, &reader) {
        ReceiveStep::Done(Err(PhyError::FrameDetect(m))) => {
            assert_eq!(m, "input 10 samples < one coded block (1 symbols)");
        }
        _ => panic!("ten samples hold no block"),
    }
}

#[test]
fn receive_multi_rejects_truncated_multiblock() {
    // The header in the first block declares many blocks; with the samples of that one
    // alone the later ones are truncated.
    let f = floor();
    let payload: Vec<u8> = (0..600).map(|i| (i % 251) as u8).collect();
    let symbols = modulate(&f, &payload);
    let one_block = f.symbol_size_samples() * f.symbols_per_block();
    assert!(f.windowed_len(symbols.len()) > one_block);
    assert_eq!(
        demodulate(&f, &symbols, one_block),
        Err(PhyError::FrameDetect("coded block truncated".to_string()))
    );
}

#[test]
fn sync_scan_reports_no_signal_on_silence() {
    let located = locate_synced_body(None, 20_000);
    assert_eq!(
        receive_multi_with_sync_scan(located, None, Ok(Vec::new())),
        SyncDecodeOutcome::NoSignal
    );
}

#[test]
fn sync_scan_reports_frame_on_clean_capture() {
    let f = floor();
    let symbols = modulate(&f, b"scan ok");
    let body = f.windowed_len(symbols.len());
    let located = locate_synced_body(Some(ANALYTIC_PAD), PREAMBLE_LEN_SAMPLES + body);
    let decoded = demodulate(&f, &symbols, body);
    match receive_multi_with_sync_scan(located, Some(12_500), decoded) {
        SyncDecodeOutcome::Frame {
            start_sample,
            payload: got,
            snr_mdb,
        } => {
            assert_eq!(start_sample, 0, "clean capture aligns at sample 0");
            assert_eq!(got, b"scan ok");
            assert_eq!(snr_mdb, Some(12_500));
        }
        other => panic!("expected Frame, got {other:?}"),
    }
}

#[test]
fn sync_scan_reports_detected_decode_failed_on_truncated_body() {
    let f = floor();
    let payload: Vec<u8> = (0..600).map(|i| (i % 251) as u8).collect();
    let symbols = modulate(&f, &payload);
    let one_block = f.symbol_size_samples() * f.symbols_per_block();
    let located = locate_synced_body(Some(ANALYTIC_PAD), PREAMBLE_LEN_SAMPLES + one_block);
    let decoded = demodulate(&f, &symbols, one_block);
    assert_eq!(
        receive_multi_with_sync_scan(located, Some(3_000), decoded),
        SyncDecodeOutcome::DetectedDecodeFailed {
            start_sample: 0,
            snr_mdb: Some(3_000),
        }
    );
}

#[test]
fn multi_with_preamble_returns_frame_detect_on_silence() {
    let located = locate_synced_body(None, 20_000);
    match receive_multi_with_sync(located, Ok(vec![1])) {
        Err(PhyError::FrameDetect(m)) => assert!(m.starts_with("preamble not detected")),
        other => panic!("silence gave {other:?}"),
    }
}

#[test]
fn preamble_at_the_end_has_no_body() {
    let located = locate_synced_body(Some(ANALYTIC_PAD + 100), 388);
    assert_eq!(located, SyncLocate::NoBody { start_sample: 100 });
    assert_eq!(
        receive_multi_with_sync(located, Ok(vec![1])),
        Err(PhyError::FrameDetect(
            "preamble detected at sample 100 but no body samples follow".to_string()
        ))
    );
    assert_eq!(
        receive_multi_with_sync_scan(located, Some(1), Ok(vec![1])),
        SyncDecodeOutcome::DetectedDecodeFailed {
            start_sample: 100,
            snr_mdb: None,
        }
    );
}

#[test]
fn body_starts_a_guard_before_the_end_of_the_preamble() {
    assert_eq!(
        locate_synced_body(Some(ANALYTIC_PAD + 1000), 5000),
        SyncLocate::Body {
            start_sample: 1000,
            body_start: 1288,
        }
    );
    // A lag within the padding is taken for the start.
    assert_eq!(
        locate_synced_body(Some(5), 5000),
        SyncLocate::Body {
            start_sample: 0,
            body_start: 288,
        }
    );
}

#[test]
fn decoded_body_keeps_its_error() {
    let located = SyncLocate::Body {
        start_sample: 7,
        body_start: 295,
    };
    let e = || PhyError::FecDecode("no".to_string());
    assert_eq!(receive_multi_with_sync(located, Err(e())), Err(e()));
    assert_eq!(
        receive_multi_with_sync(located, Ok(vec![9])),
        Ok((7, vec![9]))
    );
}

#[test]
fn a_block_of_several_symbols_is_padded_with_zeros() {
    let f = repeating_floor();
    assert_eq!(f.symbols_per_block(), 6);
    let symbols = f.symbol_bits(&[1u8; 400]);
    assert_eq!(symbols.len(), 6);
    assert!(symbols.iter().all(|s| s.len() == 74));
    assert_eq!(symbols[5].iter().filter(|&&b| b == 1).count(), 400 - 5 * 74);
    assert_eq!(symbols[5][30], 0);
    assert!(f.symbol_bits(&[]).is_empty());
}

#[test]
fn spans_of_a_block_lie_end_to_end() {
    let f = repeating_floor();
    let block = 6 * 2560;
    let spans = f.demodulate_block_symbols(2 * block, 1).unwrap();
    assert_eq!(spans.len(), 6);
    assert_eq!(
        spans[0],
        Span {
            start: block,
            end: block + 2560,
        }
    );
    assert_eq!(spans[5].end, 2 * block);
    assert!(f.demodulate_block_symbols(2 * block - 1, 1).is_err());
    assert_eq!(f.body_symbols(2559).len(), 0);
    assert_eq!(f.body_symbols(5200).len(), 2);
}

#[test]
fn windowing_leaves_symbol_bodies_alone() {
    let f = floor();
    assert_eq!(f.windowed_len(0), 0);
    assert_eq!(f.windowed_len(3), 3 * 2560 + WINDOW_ROLLOFF_SAMPLES);
    assert_eq!(
        f.window_taps(3, 2560 + 512),
        vec![WindowTap {
            symbol: 1,
            index: 512,
            ramp: None,
        }]
    );
    // The start of a symbol rises while the continuation of the one before falls.
    assert_eq!(
        f.window_taps(3, 2560 + 10),
        vec![
            WindowTap {
                symbol: 0,
                index: 522,
                ramp: Some(117),
            },
            WindowTap {
                symbol: 1,
                index: 10,
                ramp: Some(10),
            },
        ]
    );
    // After the last symbol only its continuation is left.
    assert_eq!(f.window_taps(3, 3 * 2560 + 127).len(), 1);
    assert!(f.window_taps(3, 3 * 2560 + 128).is_empty());
}

#[test]
fn every_subcarrier_carries_one_bit() {
    assert_eq!(floor().bits_per_subcarrier(), vec![1u8; 99]);
}

/// Read a capture of silence, a preamble and the body of a payload, cut to `samples`.
fn receive_after(
    f: &WidebandLowDensityFloor,
    silence: usize,
    payload: &[u8],
    samples: usize,
) -> Result<(usize, Vec<u8>), PhyError> {
    let symbols = modulate(f, payload);
    let located = locate_synced_body(Some(ANALYTIC_PAD + silence), samples);
    let body_start = match located {
        SyncLocate::Body { body_start, .. } => body_start,
        other => panic!("no body: {other:?}"),
    };
    receive_multi_with_sync(located, demodulate(f, &symbols, samples - body_start))
}

fn assert_multi_sync_roundtrip(payload: &[u8]) {
    for f in [floor(), repeating_floor()] {
        let body = f.windowed_len(modulate(&f, payload).len());
        let (start, decoded) =
            receive_after(&f, 0, payload, PREAMBLE_LEN_SAMPLES + body).unwrap();
        assert_eq!(start, 0, "preamble should start at sample 0");
        assert_eq!(decoded, payload);
    }
}

#[test]
fn multi_with_preamble_roundtrip_1_byte_payload() {
    assert_multi_sync_roundtrip(b"X");
}

#[test]
fn multi_with_preamble_roundtrip_9_byte_payload() {
    assert_multi_sync_roundtrip(b"NINEBYTES");
}

#[test]
fn multi_with_preamble_roundtrip_100_byte_payload() {
    let payload: Vec<u8> = (0..100).map(|i| (i % 251) as u8).collect();
    assert_multi_sync_roundtrip(&payload);
}

#[test]
fn multi_with_preamble_roundtrip_1000_byte_payload() {
    let payload: Vec<u8> = (0..1000).map(|i| (i % 251) as u8).collect();
    assert_multi_sync_roundtrip(&payload);
}

#[test]
fn multi_with_preamble_roundtrip_empty_payload() {
    assert_multi_sync_roundtrip(b"");
}

#[test]
fn multi_with_preamble_roundtrip_preserves_trailing_zeros() {
    assert_multi_sync_roundtrip(b"AB\x00\x00\x00");
}

#[test]
fn multi_with_preamble_handles_leading_silence() {
    let f = floor();
    let payload: Vec<u8> = (0..50).map(|i| (i * 7 % 251) as u8).collect();
    let body = f.windowed_len(modulate(&f, &payload).len());
    let (start, decoded) =
        receive_after(&f, 2_000, &payload, 2_000 + PREAMBLE_LEN_SAMPLES + body).unwrap();
    assert_eq!(start, 2_000);
    assert_eq!(decoded, payload);
}

#[test]
fn receive_multi_with_sync_rejects_truncated_after_preamble() {
    let f = floor();
    let payload: Vec<u8> = (0..600).map(|i| (i % 251) as u8).collect();
    let trunc_len = PREAMBLE_LEN_SAMPLES + f.symbol_size_samples() * f.symbols_per_block();
    assert!(matches!(
        receive_after(&f, 0, &payload, trunc_len),
        Err(PhyError::FrameDetect(_))
    ));
}

#[test]
fn coded_round_trip_identity_fec_various_lengths() {
    for payload in [
        &b""[..],
        &b"X"[..],
        &b"hello floor mode"[..],
        &[0u8; 30][..],
        &b"AB\x00\x00\x00"[..],
    ] {
        assert_multi_sync_roundtrip(payload);
    }
}
