use sonde::mac::{adapt_rung, recommended_rung, route, rung, ArqStrategy, BASE_RUNG};
use sonde::modes::ModeHint;
use sonde::time::Duration;
use sonde::transport::{ChannelQualityReport, FrameErrorRate};

fn mdb(snr_db: f32) -> Option<i32> {
    if snr_db.is_nan() {
        None
    } else {
        Some((snr_db * 1000.0).floor() as i32)
    }
}

/// `failed` of `total` frames, as a rate.
fn rate(failed: u32, total: u32) -> FrameErrorRate {
    FrameErrorRate { failed, total }
}


fn quality(snr_db: f32, total: u32, failed: u32) -> ChannelQualityReport {
    ChannelQualityReport::from_parts(mdb(snr_db), total, failed)
}

#[test]
fn clean_high_snr_channel_picks_fast_ofdm_selective_repeat() {
    let r = route(8192, &quality(25.0, 100, 0));
    assert_eq!(r.mode, ModeHint::MainAuto);
    assert_eq!(r.strategy, ArqStrategy::SelectiveRepeat);
    assert!(r.window.window > 1);
}

#[test]
fn high_fer_degrades_the_rung_even_at_decent_snr() {
    // 20 dB raw, but half the frames are failing ⇒ effective ~0 dB ⇒ a
    // narrower, slower rung than SNR alone would pick.
    let clean = route(8192, &quality(20.0, 100, 0));
    let degraded = route(8192, &quality(20.0, 100, 50));
    assert!(
        degraded.window.window < clean.window.window,
        "high FER must shrink the window"
    );
    assert!(
        degraded.profile.over_airtime() >= clean.profile.over_airtime(),
        "high FER must not speed the timers up"
    );
}

#[test]
fn low_snr_drops_to_the_floor_whole_message() {
    let r = route(8192, &quality(-6.0, 100, 0));
    assert_eq!(r.mode, ModeHint::Floor);
    assert_eq!(r.strategy, ArqStrategy::WholeMessage);
    assert_eq!(r.window.window, 1);
}

#[test]
fn very_low_snr_uses_the_deep_floor_nfsk_bottom_rung() {
    let r = route(8192, &quality(-25.0, 100, 0));
    assert_eq!(r.mode, ModeHint::FloorCrowdedBand);
    assert_eq!(r.strategy, ArqStrategy::WholeMessage);
    // The deep-floor over is tens of seconds (airtime-aware timers).
    assert!(r.profile.over_airtime() >= Duration::from_secs(10));
}

#[test]
fn no_measurement_falls_back_to_mid_ofdm() {
    let r = route(8192, &ChannelQualityReport::empty());
    assert_eq!(r.mode, ModeHint::MainAuto);
    assert_eq!(r.strategy, ArqStrategy::SelectiveRepeat);
}

#[test]
fn ladder_over_airtime_increases_monotonically_down_the_rungs() {
    // Descending SNR ⇒ non-decreasing over-airtime (slower, more robust).
    let snrs = [25.0f32, 12.0, 3.0, -6.0, -25.0];
    let airtimes: Vec<_> = snrs
        .iter()
        .map(|&s| route(8192, &quality(s, 100, 0)).profile.over_airtime())
        .collect();
    for w in airtimes.windows(2) {
        assert!(
            w[1] >= w[0],
            "airtime must not decrease as the channel worsens"
        );
    }
}

#[test]
fn window_never_exceeds_frames_the_payload_needs() {
    // A tiny payload on a clean channel: window capped to a single frame.
    let r = route(10, &quality(25.0, 100, 0));
    assert_eq!(r.window.window, 1);
}

#[test]
fn rung_addresses_specific_ladder_modes() {
    let top = rung(0);
    assert_eq!(top.mode, ModeHint::MainAuto);
    assert_eq!(top.strategy, ArqStrategy::SelectiveRepeat);
    assert!(top.window.window > 1, "fast rung is not payload-capped");

    let base = rung(BASE_RUNG);
    assert_eq!(base.mode, ModeHint::FloorCrowdedBand);
    assert_eq!(base.strategy, ArqStrategy::WholeMessage);
    assert_eq!(base.window.window, 1, "deep-floor base is whole-message");
    // Out-of-range clamps to the base rung.
    assert_eq!(rung(99), rung(BASE_RUNG));
}

#[test]
fn recommended_rung_increases_as_the_channel_worsens() {
    assert!(
        recommended_rung(&quality(25.0, 100, 0)) < recommended_rung(&quality(-25.0, 100, 0))
    );
    assert_eq!(recommended_rung(&quality(-25.0, 100, 0)), BASE_RUNG);
}

// ---- adapt_rung: measurement-based, symmetric, FER-gated --------

#[test]
fn adapt_downshifts_to_the_rung_raw_snr_supports_multistep_and_crossfamily() {
    // From rung 1, a collapse to -15 dB supports only BASE → jump straight there.
    assert_eq!(adapt_rung(1, mdb(-15.0), mdb(-15.0), rate(0, 10), 10), BASE_RUNG);
    // A sag to 5 dB supports rung 2 (floor 0 dB) → 1 → 2.
    assert_eq!(adapt_rung(1, mdb(5.0), mdb(5.0), rate(0, 10), 10), 2);
}

#[test]
fn adapt_fer_forces_a_downshift_even_at_good_snr_but_only_when_credible() {
    // Raw SNR fine for rung 1, but credibly-high FER → step down one.
    assert_eq!(adapt_rung(1, mdb(20.0), mdb(20.0), rate(1, 2), 8), 2);
    // Same FER with too few samples ⇒ not credible ⇒ no FER-driven shift.
    assert_eq!(adapt_rung(1, mdb(20.0), mdb(20.0), rate(1, 2), 1), 1);
}

#[test]
fn adapt_upshift_needs_the_margin_above_the_floor() {
    // 20 dB clears rung 1 (8+3) but NOT rung 0 (18+3=21) → hold at rung 1.
    assert_eq!(adapt_rung(1, mdb(20.0), mdb(20.0), rate(0, 10), 8), 1);
    // 25 dB clears rung 0's floor+margin → climb to 0 (free within OFDM family).
    assert_eq!(adapt_rung(1, mdb(25.0), mdb(25.0), rate(0, 10), 8), 0);
}

#[test]
fn adapt_upshift_is_gated_by_credible_low_fer() {
    // Great SNR but credibly-high FER → FER-downshift wins, never an upshift.
    assert_eq!(adapt_rung(2, mdb(25.0), mdb(25.0), rate(3, 10), 8), 3);
    // Great SNR, low FER, but too few samples → hold (not yet credible to climb).
    assert_eq!(adapt_rung(2, mdb(25.0), mdb(25.0), rate(0, 10), 1), 2);
}

#[test]
fn adapt_upshift_across_a_family_is_capped_to_one_step() {
    // At rung 3 (floor family) a great channel only steps into the OFDM family
    // at its most-robust rung (2) — it does not leap to rung 0.
    assert_eq!(adapt_rung(3, mdb(25.0), mdb(25.0), rate(0, 10), 8), 2);
    // The next decision then climbs freely within OFDM.
    assert_eq!(adapt_rung(2, mdb(25.0), mdb(25.0), rate(0, 10), 8), 0);
}

#[test]
fn adapt_holds_in_the_dead_band_and_without_a_measurement() {
    // 12 dB at rung 1: supports rung 1, and 12 < rung-1-floor+margin for going
    // faster ⇒ neither up nor down ⇒ hold (the dead-band).
    assert_eq!(adapt_rung(1, mdb(12.0), mdb(12.0), rate(0, 10), 8), 1);
    // No measurement (NaN SNR, no samples) ⇒ hold the current rung.
    assert_eq!(adapt_rung(1, mdb(f32::NAN), mdb(f32::NAN), rate(0, 10), 0), 1);
}

#[test]
fn a_higher_error_rate_never_gets_a_faster_rung() {
    // Rates over different numbers of frames, from lower to higher.
    let rates = [(0, 0), (0, 7), (1, 50), (1, 7), (3, 10), (2, 3), (5, 5)];
    for snr in [-20.0, -5.0, 5.0, 15.0, 25.0] {
        let rungs: Vec<u8> = rates
            .iter()
            .map(|&(failed, total)| recommended_rung(&quality(snr, total, failed)))
            .collect();
        assert!(rungs.windows(2).all(|w| w[0] <= w[1]), "{snr}: {rungs:?}");
    }
}
