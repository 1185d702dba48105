use sonde::capabilities::{airtime, capability_of, meta_for, snapshot, Measured};
use sonde::modes::{ModeFamily, ModeHint, ModeTable};
use sonde::quality::{QualitySnapshot, FER_WINDOW, STALE_AFTER_NOSIGNAL_WINDOWS};
use sonde::registry::{
    floor_scan, hint_for_family, label_rx, route_tx, DecodeScan, DecodedFrame, Registered, RxWindow,
};
use sonde::time::Duration;
use sonde::transport::RxFrame;
use sonde::wideband_lowdensity::SyncDecodeOutcome;
use std::collections::BTreeSet;

fn wave(mode_name: &'static str, family: ModeFamily) -> Registered {
    Registered {
        mode_name: Some(mode_name),
        family,
    }
}

/// The five standard waveforms, each with a measured frame of one second.
fn standard() -> Vec<Measured> {
    ["ofdm-wide", "ofdm-mid", "ofdm-narrow", "floor-wblo", "floor-nfsk"]
        .iter()
        .map(|n| Measured {
            mode_name: Some(n),
            frame_samples: Some(48_000),
        })
        .collect()
}

#[test]
fn standard_registry_publishes_complete_capabilities() {
    let caps = snapshot(&standard());
    assert_eq!(caps.len(), 5, "all 5 standard modes publish a capability");
    // wire_ids unique and in 0..=7, the link's three-bit rx_rung field.
    let uniq: BTreeSet<u8> = caps.iter().map(|c| c.wire_id).collect();
    assert_eq!(uniq.len(), caps.len(), "wire_ids unique");
    assert!(caps.iter().all(|c| c.wire_id <= 7), "wire_ids in 0..=7");
    for c in &caps {
        assert!(c.per_frame_payload_bytes > 0, "{} capacity > 0", c.mode_name);
        assert!(c.per_frame_airtime.nanos > 0, "{} airtime > 0", c.mode_name);
        assert_eq!(c.per_frame_airtime, Duration::from_secs(1));
    }
}

#[test]
fn ladder_sorts_by_measured_knee_extremes() {
    let mut caps = snapshot(&standard());
    caps.sort_by_key(|c| c.knee_snr_mdb);
    assert_eq!(caps.first().unwrap().mode_name, "ofdm-narrow");
    assert_eq!(caps.last().unwrap().mode_name, "ofdm-wide");
}

#[test]
fn empty_registry_publishes_nothing() {
    assert!(snapshot(&vec![]).is_empty());
}

#[test]
fn waveforms_outside_the_catalogue_are_not_published() {
    let caps = snapshot(&vec![
        Measured {
            mode_name: None,
            frame_samples: Some(1),
        },
        Measured {
            mode_name: Some("fm-test"),
            frame_samples: Some(1),
        },
        Measured {
            mode_name: Some("floor-wblo"),
            frame_samples: None,
        },
        Measured {
            mode_name: Some("floor-nfsk"),
            frame_samples: Some(24_000),
        },
    ]);
    assert_eq!(caps.len(), 1);
    assert_eq!(caps[0].mode_name, "floor-nfsk");
    assert_eq!(caps[0].per_frame_airtime, Duration::from_millis(500));
    assert_eq!(capability_of(None, 5), None);
}

#[test]
fn airtime_is_rounded_to_the_nanosecond() {
    assert_eq!(airtime(1), Duration::from_nanos(20_833));
    assert_eq!(airtime(2), Duration::from_nanos(41_667));
    assert_eq!(airtime(48_000), Duration::from_secs(1));
}

#[test]
fn knees_and_capacities_are_the_measured_ones() {
    let of = |n: &str| meta_for(n).map(|m| (m.knee_snr_mdb, m.per_frame_payload_bytes));
    assert_eq!(of("ofdm-wide"), Some((6_700, 79)));
    assert_eq!(of("ofdm-mid"), Some((3_000, 79)));
    assert_eq!(of("ofdm-narrow"), Some((-1_200, 79)));
    assert_eq!(of("floor-wblo"), Some((3_400, 58)));
    assert_eq!(of("floor-nfsk"), Some((4_800, 12)));
    assert_eq!(of("ofdm"), None);
}

#[test]
fn quality_window_is_recent_and_bounded() {
    let mut q = QualitySnapshot::default();
    // Fill past the window with clean overs; the rate stays 0, the count caps.
    for _ in 0..(FER_WINDOW + 4) {
        q.record_over(false, Some(20_000));
    }
    let r = q.report();
    assert_eq!(r.recent_frames_total(), FER_WINDOW as u32, "window is bounded");
    assert_eq!(r.frame_error_rate().failed, 0);
    assert_eq!(r.aggregate_snr_mdb(), Some(20_000), "raw latest-over SNR");

    // A burst of failures pushes the rate up within the window …
    for _ in 0..FER_WINDOW {
        q.record_over(true, Some(2_000));
    }
    let e = q.report().frame_error_rate();
    assert_eq!(e.failed, e.total, "window now all failures");
    assert!(e.total > 0);

    // … and a run of clean overs recovers it (recent, not lifetime).
    for _ in 0..FER_WINDOW {
        q.record_over(false, Some(18_000));
    }
    assert_eq!(q.report().frame_error_rate().failed, 0, "recovers within window");
}

#[test]
fn quality_window_goes_stale_after_sustained_silence() {
    let mut q = QualitySnapshot::default();
    q.record_over(false, Some(25_000));
    assert!(q.report().aggregate_snr_mdb().is_some(), "fresh reading");
    // Sustained dead air ages the report back to "no measurement".
    for _ in 0..STALE_AFTER_NOSIGNAL_WINDOWS {
        q.record_no_signal();
    }
    assert!(
        q.report().aggregate_snr_mdb().is_none(),
        "stale report reverts to no-measurement"
    );
}

#[test]
fn tx_drops_an_over_with_no_waveform_for_its_family_instead_of_substituting() {
    // Only a floor waveform is registered. MainAuto resolves to the OFDM family, which
    // no registered waveform serves, so the over is dropped and not keyed as floor.
    let registry = vec![Registered {
        mode_name: None,
        family: ModeFamily::RobustnessFloor,
    }];
    let modes = ModeTable::default();
    let main = modes.resolve(ModeHint::MainAuto, None);
    assert_eq!(route_tx(&registry, main), None);
    let floor = modes.resolve(ModeHint::Floor, None);
    assert_eq!(route_tx(&registry, floor), Some(0));
}

/// What arrives when the waveform that a mode is routed to is the one that decodes it.
fn over_the_air(
    registry: &Vec<Registered>,
    hint: ModeHint,
    payload: &[u8],
    snr_mdb: Option<i32>,
    quality: &mut QualitySnapshot,
) -> Option<RxFrame> {
    let mode = ModeTable::default().resolve(hint, quality.report().aggregate_snr_mdb());
    let by = &registry[route_tx(registry, mode)?];
    RxWindow::new().observe(
        DecodeScan::Frame(DecodedFrame {
            payload: payload.to_vec(),
            family: by.family,
            snr_mdb,
        }),
        by,
        quality,
    )
}

#[test]
fn nfsk_and_wideband_floor_route_per_mode_within_the_floor_family() {
    let registry = vec![
        wave("floor-nfsk", ModeFamily::RobustnessFloor),
        wave("floor-wblo", ModeFamily::RobustnessFloor),
    ];
    let modes = ModeTable::default();
    let at = |h| route_tx(&registry, modes.resolve(h, None));
    assert_eq!(at(ModeHint::FloorCrowdedBand), Some(0));
    assert_eq!(at(ModeHint::Floor), Some(1));
    assert_eq!(at(ModeHint::MainAuto), None);

    let mut q = QualitySnapshot::default();
    let nfsk_payload = b"crowded-band nfsk over runtime";
    let f = over_the_air(&registry, ModeHint::FloorCrowdedBand, nfsk_payload, None, &mut q)
        .expect("nfsk over round-trips");
    assert_eq!(f.payload(), nfsk_payload);
    assert_eq!(f.mode.short_name(), "floor-nfsk", "RX labels the nFSK mode");
    assert_eq!(f.mode.family(), ModeFamily::RobustnessFloor);
    assert_eq!(
        label_rx(&registry[0], ModeFamily::RobustnessFloor).short_name(),
        "floor-nfsk"
    );

    // Both are of the floor family: routing goes by mode, not by family first.
    let wblo_payload = b"wideband floor over runtime";
    let f = over_the_air(&registry, ModeHint::Floor, wblo_payload, Some(9_000), &mut q)
        .expect("wblo over round-trips");
    assert_eq!(f.payload(), wblo_payload);
    assert_eq!(
        f.mode.short_name(),
        "floor-wblo",
        "RX labels the wide-band floor mode"
    );
}

#[test]
fn mainauto_uses_measured_snr_to_pick_the_fast_rung() {
    // Only ofdm-wide is registered. A clean over reports a high SNR.
    let registry = vec![wave("ofdm-wide", ModeFamily::OfdmMain)];
    let modes = ModeTable::default();
    let name = |snr| modes.resolve(ModeHint::MainAuto, snr).short_name();
    assert_eq!(name(Some(30_000)), "ofdm-wide");
    assert_eq!(name(None), "ofdm-mid");

    let mut q = QualitySnapshot::default();
    let pinned = ModeHint::MainPinned("ofdm-wide");
    let primed = over_the_air(&registry, pinned, b"prime the snr", Some(30_000), &mut q)
        .expect("primer over round-trips");
    assert_eq!(primed.mode.short_name(), "ofdm-wide");

    let measured = q.report().aggregate_snr_mdb();
    let auto = modes.resolve(ModeHint::MainAuto, measured);
    assert_eq!(auto.short_name(), "ofdm-wide", "resolved from the measured SNR");
    assert_eq!(route_tx(&registry, auto), Some(0));
    let f = over_the_air(&registry, ModeHint::MainAuto, b"auto picks wide", Some(30_000), &mut q)
        .expect("MainAuto over round-trips");
    assert_eq!(f.payload(), b"auto picks wide");
    assert_eq!(f.mode.short_name(), "ofdm-wide");
}

#[test]
fn a_family_stands_in_where_the_mode_itself_is_not_registered() {
    let registry = vec![wave("ofdm-narrow", ModeFamily::OfdmMain)];
    let wide = ModeTable::default().resolve(ModeHint::MainPinned("ofdm-wide"), None);
    assert_eq!(route_tx(&registry, wide), Some(0));
    assert_eq!(route_tx(&vec![], wide), None);
}

#[test]
fn detected_but_failed_frame_counts_as_an_rx_error() {
    let by = wave("floor-wblo", ModeFamily::RobustnessFloor);
    let mut q = QualitySnapshot::default();
    let mut w = RxWindow::new();
    let scan = floor_scan(SyncDecodeOutcome::DetectedDecodeFailed {
        start_sample: 3,
        snr_mdb: Some(-2_000),
    });
    assert!(w.observe(scan, &by, &mut q).is_none());
    assert!(w.observe(DecodeScan::NoSignal, &by, &mut q).is_none());
    w.close(&mut q);
    let r = q.report();
    assert_eq!(r.frame_error_rate().failed, 1);
    assert_eq!(r.recent_frames_total(), 1, "the only frame seen was a failure");
    assert_eq!(r.aggregate_snr_mdb(), Some(-2_000));
}

#[test]
fn channel_quality_counts_a_received_frame() {
    let by = wave("floor-nfsk", ModeFamily::RobustnessFloor);
    let mut q = QualitySnapshot::default();
    assert_eq!(q.report().recent_frames_total(), 0);
    let mut w = RxWindow::new();
    let rx = w
        .observe(
            DecodeScan::Frame(DecodedFrame {
                payload: b"quality".to_vec(),
                family: ModeFamily::RobustnessFloor,
                snr_mdb: Some(9_000),
            }),
            &by,
            &mut q,
        )
        .unwrap();
    assert_eq!(rx.payload(), b"quality");
    assert_eq!(rx.mode.short_name(), "floor-nfsk", "labelled by the waveform");
    assert!(rx.decode_ok);
    assert_eq!(q.report().recent_frames_total(), 1);
    assert_eq!(q.report().frame_error_rate().failed, 0);
}

#[test]
fn silence_is_no_frame() {
    let mut q = QualitySnapshot::default();
    RxWindow::new().close(&mut q);
    assert_eq!(q.report().recent_frames_total(), 0);
    assert_eq!(floor_scan(SyncDecodeOutcome::NoSignal), DecodeScan::NoSignal);
}

#[test]
fn an_unnamed_waveform_is_labelled_by_its_family() {
    let by = Registered {
        mode_name: None,
        family: ModeFamily::OfdmMain,
    };
    assert_eq!(label_rx(&by, ModeFamily::OfdmMain).short_name(), "ofdm-mid");
    assert_eq!(hint_for_family(ModeFamily::RobustnessFloor), ModeHint::Floor);
}
