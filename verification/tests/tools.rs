use sonde::floor_rate14::{build, lay_out, K, M, N};
use sonde::image_fit::{fit_jpeg, fit_quality, quality_step, FitError, Picture, QualityStep};
use sonde::modem_args::{mode_hint, parse, parse_number, task, Task};
use sonde::modes::{ModeHint, ModeTable};
use sonde::sitrep::build_payload;

/// Deterministic pixels that compress badly, so that the quality has to fall.
fn noise_image(w: u32, h: u32) -> Picture {
    let mut state: u32 = 0x1234_5678;
    let mut rgb = Vec::new();
    for _ in 0..w * h {
        state = state.wrapping_mul(1_103_515_245).wrapping_add(12_345);
        let v = (state >> 16) as u8;
        rgb.extend_from_slice(&[v, v.wrapping_add(40), v.wrapping_add(80)]);
    }
    Picture::new(w, h, rgb).unwrap()
}

#[test]
fn fits_under_budget() {
    let img = noise_image(640, 480);
    let bytes = fit_jpeg(&img, 200, 5000).expect("should fit");
    assert!(bytes.len() <= 5000, "got {} bytes", bytes.len());
    // Valid JPEG SOI marker.
    assert_eq!(&bytes[0..2], &[0xFF, 0xD8]);
    let back = image::load_from_memory(&bytes).unwrap();
    assert_eq!((back.width(), back.height()), (200, 150));
}

#[test]
fn quality_falls_until_the_picture_fits() {
    let img = noise_image(64, 64);
    let best = fit_quality(&img, 1_000_000).unwrap();
    let tight = fit_quality(&img, best.len() - 1).unwrap();
    assert!(tight.len() < best.len());
    assert_eq!(
        fit_quality(&img, 10),
        Err(FitError::TooLarge { target_bytes: 10 })
    );
}

#[test]
fn pictures_that_no_jpeg_can_hold_are_refused() {
    let empty = Picture::new(0, 5, vec![]).unwrap();
    assert_eq!(fit_quality(&empty, 1000), Err(FitError::Encode));
    let img = noise_image(4, 4);
    assert_eq!(fit_jpeg(&img, 70_000, 1000), Err(FitError::Encode));
    assert!(Picture::new(2, 2, vec![0; 11]).is_none());
}

#[test]
fn quality_steps_by_five_from_ninety_to_ten() {
    let mut q = 90;
    let mut tried = vec![q];
    while let QualityStep::Lower(next) = quality_step(q, 2, 1) {
        q = next;
        tried.push(q);
    }
    assert_eq!(tried.len(), 17);
    assert_eq!(tried.last(), Some(&10));
    assert_eq!(quality_step(10, 2, 1), QualityStep::GiveUp);
    assert_eq!(quality_step(10, 1, 1), QualityStep::Keep);
}

#[test]
fn offsets_partition_the_payload_contiguously() {
    let img = vec![0xABu8; 100];
    let (bytes, off) = build_payload(
        "KK6XYZ",
        "Position: 34-12.34N / 118-29.10W (DM04xf)",
        "Levee breach.",
        &img,
    );
    assert_eq!(off.total_len, bytes.len());
    assert_eq!(off.image_byte_len, 100);
    // Fields are contiguous and cover the whole payload.
    assert_eq!(off.fields[0].start, 0);
    assert_eq!(off.fields[0].end, off.fields[1].start);
    assert_eq!(off.fields[1].end, off.fields[2].start);
    assert_eq!(off.fields.last().unwrap().end, bytes.len());
    // Image region equals the appended image bytes.
    let img_field = &off.fields[2];
    assert_eq!(&bytes[img_field.start..img_field.end], img.as_slice());
}

#[test]
fn report_text_is_exact() {
    let (bytes, off) = build_payload("K1ABC", "Position: ?", "Été.", &[1, 2]);
    let text = "To: EMCOMM-NET\nFrom: K1ABC\nSubject: SITREP - Disaster Area Recon\n\
                Date: 2026-06-14 18:30Z\nPosition: ?\n\nÉté.\n\n--- attachment: recon.jpg (2 bytes) ---\n";
    assert_eq!(&bytes[..bytes.len() - 2], text.as_bytes());
    assert_eq!(&bytes[bytes.len() - 2..], &[1, 2]);
    let labels: Vec<&str> = off.fields.iter().map(|f| f.label.as_str()).collect();
    assert_eq!(labels, ["header", "body", "image"]);
}

#[test]
fn build_is_encodable() {
    // The parity half is unit lower triangular: accumulation encodes it.
    let h = build();
    assert_eq!(h.n, N);
    assert_eq!(h.k, K);
    assert_eq!(h.rows.len(), M);
    for (i, row) in h.rows.iter().enumerate() {
        assert_eq!(row.iter().max(), Some(&(K + i)));
    }
    let data: Vec<bool> = (0..K).map(|i| i % 3 == 0 || i % 7 == 2).collect();
    let mut word = data.clone();
    for row in &h.rows {
        let sum = row[..row.len() - 1].iter().fold(false, |s, &c| s ^ word[c]);
        word.push(sum);
    }
    for row in &h.rows {
        assert!(!row.iter().fold(false, |s, &c| s ^ word[c]));
    }
}

#[test]
fn build_is_deterministic() {
    assert_eq!(build().rows, build().rows, "construction must be reproducible");
}

#[test]
fn data_degree_three_and_parity_dual_diagonal() {
    let h = build();
    let mut col_deg = vec![0usize; N];
    for row in &h.rows {
        for &c in row {
            col_deg[c] += 1;
        }
    }
    for (c, &deg) in col_deg.iter().enumerate().take(K) {
        assert_eq!(deg, 3, "data column {c} must have degree 3");
    }
    for (i, row) in h.rows.iter().enumerate() {
        let data_edges = row.iter().filter(|&&c| c < K).count();
        assert_eq!(data_edges, 1, "check row {i} must carry exactly one data edge");
        assert!(row.contains(&(K + i)), "row {i} missing diagonal parity");
        if i > 0 {
            assert!(row.contains(&(K + i - 1)), "row {i} missing subdiagonal parity");
        }
        assert!(row.windows(2).all(|w| w[0] < w[1]), "row {i} is in order");
    }
}

#[test]
fn the_data_columns_are_shuffled() {
    let edges: Vec<usize> = build().rows.iter().map(|r| r[0]).collect();
    let straight: Vec<usize> = (0..M).map(|i| i / 3).collect();
    assert_ne!(edges, straight);
    assert_eq!(
        lay_out(&vec![7, 3]),
        vec![vec![7, K], vec![3, K, K + 1]]
    );
}

fn args(words: &[&str]) -> Vec<String> {
    words.iter().map(|w| w.to_string()).collect()
}

#[test]
fn command_line_is_read_in_order() {
    let a = parse(&args(&[
        "--loopback",
        "--send",
        "--mode",
        "--mode",
        "ofdm-wide",
        "--max-airtime",
        "+12",
        "--ptt-device",
        "/dev/ttyUSB0",
    ]))
    .unwrap();
    assert!(a.loopback && !a.help);
    assert_eq!(a.send.as_deref(), Some("--mode"), "a value may look like a flag");
    assert_eq!(a.mode, "ofdm-wide");
    assert_eq!(a.max_airtime_secs, 12);
    assert_eq!(a.ptt_device.as_deref(), Some("/dev/ttyUSB0"));
    assert_eq!(
        task(&a),
        Ok(Task::Loopback {
            payload: "--mode".to_string(),
            hint: ModeHint::MainPinned("ofdm-wide"),
        })
    );
    let d = parse(&vec![]).unwrap();
    assert_eq!((d.mode.as_str(), d.max_airtime_secs), ("floor-wblo", 30));
    assert!(parse(&args(&["-h"])).unwrap().help);
}

#[test]
fn command_line_errors_name_the_argument() {
    assert_eq!(parse(&args(&["--send"])), Err("--send needs a value".to_string()));
    assert_eq!(
        parse(&args(&["--max-airtime", "1x"])),
        Err("bad --max-airtime".to_string())
    );
    assert_eq!(parse(&args(&["-x", "--send"])), Err("unknown argument: -x".to_string()));
    let mut a = parse(&args(&["--mode", "fm"])).unwrap();
    assert_eq!(task(&a), Err("unknown --mode fm".to_string()));
    a.mode = "floor-nfsk".to_string();
    assert_eq!(task(&a), Err("nothing to do: pass --send <TEXT>".to_string()));
    a.send = Some("hi".to_string());
    assert_eq!(
        task(&a),
        Ok(Task::Radio {
            payload: "hi".to_string(),
            hint: ModeHint::FloorCrowdedBand,
        })
    );
}

#[test]
fn numbers_are_read_as_the_standard_library_reads_them() {
    for s in [
        "0", "007", "+5", "18446744073709551615", "18446744073709551616", "", "+", "-1", "1_0",
        " 1", "1 ", "++1", "٣", "99999999999999999999",
    ] {
        assert_eq!(parse_number(s), s.parse::<u64>().ok(), "{s:?}");
    }
}

#[test]
fn mode_names_have_hints() {
    assert_eq!(mode_hint("floor-wblo"), Some(ModeHint::Floor));
    assert_eq!(mode_hint("floor-nfsk"), Some(ModeHint::FloorCrowdedBand));
    assert_eq!(mode_hint("ofdm-mid"), Some(ModeHint::MainPinned("ofdm-mid")));
    assert_eq!(mode_hint("OFDM-MID"), None);
}

#[test]
fn a_named_mode_is_the_mode_that_is_resolved() {
    let table = ModeTable::default();
    for name in ["floor-wblo", "floor-nfsk", "ofdm-narrow", "ofdm-mid", "ofdm-wide"] {
        let hint = mode_hint(name).expect("a mode of the command line");
        for snr in [None, Some(-20_000), Some(15_000), Some(40_000)] {
            assert_eq!(table.resolve(hint, snr).short_name(), name);
        }
    }
}
