use sonde::constellations::Constellation;
use sonde::equalizer::{OfdmEqualizer, Tap};
use sonde::ofdm_receiver::{
    curvature_pilot, data_carriers, noise_bins, noise_taps, smoothing_taps, DataCarrier, NoiseTap,
};
use sonde::preamble::{
    analytic_gain, DetectPlan, PreambleDetector, PreambleGenerator, PREAMBLE_HALF_LEN,
    PREAMBLE_LEN, PREAMBLE_ROOT,
};

#[test]
fn channel_is_interpolated_between_pilots_and_held_outside() {
    let taps = OfdmEqualizer::new(vec![2, 6, 7], 10).estimate_channel();
    assert_eq!(taps.len(), 10);
    assert_eq!(taps[0], Tap::Pilot { bin: 2 });
    assert_eq!(taps[2], Tap::Pilot { bin: 2 });
    assert_eq!(
        taps[3],
        Tap::Blend {
            from: 2,
            to: 6,
            along: 1,
            span: 4,
        }
    );
    assert_eq!(taps[6], Tap::Pilot { bin: 6 });
    assert_eq!(taps[7], Tap::Pilot { bin: 7 });
    assert_eq!(taps[9], Tap::Pilot { bin: 7 });
    assert_eq!(
        OfdmEqualizer::new(vec![], 2).estimate_channel(),
        vec![Tap::Unit, Tap::Unit]
    );
}

#[test]
fn noise_is_measured_clear_of_the_signal() {
    let occupied: Vec<usize> = (15..=113).collect();
    let bins = noise_bins(2048, &occupied);
    assert_eq!(bins.first(), Some(&122), "past the band and its guard");
    assert!(bins.contains(&1926) && !bins.contains(&1927), "before the mirror's guard");
    assert!(bins.contains(&2042) && !bins.contains(&2041), "past the mirror's guard");
    assert!(!bins.contains(&1016) && !bins.contains(&1032), "clear of Nyquist");
    assert!(bins.contains(&1015) && bins.contains(&1033));
    assert_eq!(bins.len(), 894 + 894 + 6);
    assert!(noise_bins(2048, &[]).is_empty());
}

#[test]
fn noise_model_follows_the_pilots() {
    let taps = noise_taps(&vec![2, 6, 10], 12);
    assert_eq!(taps[1], NoiseTap::Edge);
    assert_eq!(
        taps[2],
        NoiseTap::Between {
            pilot: 0,
            along: 0,
            span: 4,
        }
    );
    assert_eq!(
        taps[6],
        NoiseTap::Between {
            pilot: 1,
            along: 0,
            span: 4,
        }
    );
    assert_eq!(
        taps[10],
        NoiseTap::Between {
            pilot: 1,
            along: 4,
            span: 4,
        }
    );
    assert_eq!(taps[11], NoiseTap::Edge);
    assert_eq!(noise_taps(&vec![1], 2), vec![NoiseTap::Flat, NoiseTap::Flat]);
}

#[test]
fn edge_pilots_take_the_curvature_of_their_neighbour() {
    assert_eq!(curvature_pilot(0, 2), None);
    assert_eq!(curvature_pilot(0, 5), Some(1));
    assert_eq!(curvature_pilot(2, 5), Some(2));
    assert_eq!(curvature_pilot(4, 5), Some(3));
}

#[test]
fn pilots_are_smoothed_by_a_triangle() {
    assert_eq!(
        smoothing_taps(5, 20),
        vec![(1, 1), (2, 2), (3, 3), (4, 4), (5, 5), (6, 4), (7, 3), (8, 2), (9, 1)]
    );
    assert_eq!(smoothing_taps(0, 3), vec![(0, 5), (1, 4), (2, 3)]);
    assert_eq!(smoothing_taps(0, 1), vec![(0, 5)]);
}

#[test]
fn data_carriers_skip_pilots_and_empty_loads() {
    assert_eq!(
        data_carriers(&[10, 11, 12, 13, 14], &[12], &[1, 0, 9, 4, 6]),
        vec![
            DataCarrier {
                bin: 10,
                constellation: Constellation::Bpsk,
            },
            DataCarrier {
                bin: 13,
                constellation: Constellation::Qam16,
            },
            DataCarrier {
                bin: 14,
                constellation: Constellation::Qam64,
            },
        ]
    );
}

#[test]
fn preamble_is_a_repeated_pair() {
    let phases = PreambleGenerator::new().generate();
    assert_eq!(phases.len(), PREAMBLE_LEN);
    assert_eq!(phases[..PREAMBLE_HALF_LEN], phases[PREAMBLE_HALF_LEN..]);
    assert_eq!(phases[0], 0);
    assert_eq!(phases[1], 2 * PREAMBLE_ROOT as u32);
    assert_eq!(phases[159], 29 * 159 * 160);
}

#[test]
fn detector_is_loaded_with_one_half() {
    let phases = PreambleGenerator::new().generate();
    let d = PreambleDetector::new();
    assert_eq!(d.half_template(), &phases[..PREAMBLE_HALF_LEN]);
    assert_eq!(d.half_template()[2], 6 * PREAMBLE_ROOT as u32);
    assert_eq!(
        PreambleDetector::default().half_template(),
        d.half_template()
    );
}

#[test]
fn detector_takes_the_first_strongest_loud_lag() {
    let d = PreambleDetector::new();
    assert_eq!(
        d.schmidl_cox(&[5, 9, 7, 7, 2], &[true, false, true, true, true]),
        Some(2)
    );
    assert_eq!(d.schmidl_cox(&[0, 0], &[true, true]), None);
    assert_eq!(d.schmidl_cox(&[3], &[false]), None);
    assert_eq!(d.peak_normalized(&[1, 4, 4]), Some(1));
    assert_eq!(d.peak_normalized(&[0, 0]), Some(0));
    assert_eq!(d.peak_normalized(&[]), None);
}

#[test]
fn refinement_window_brackets_the_lag() {
    let d = PreambleDetector::new();
    assert_eq!(d.detect_analytic(1000, false, 5000), DetectPlan::Nothing);
    assert_eq!(
        d.detect_analytic(1000, true, 5000),
        DetectPlan::Refine { lo: 840, hi: 1320 }
    );
    assert_eq!(
        d.detect_analytic(0, true, 320),
        DetectPlan::Refine { lo: 0, hi: 320 }
    );
    assert_eq!(
        d.detect_analytic(90, true, 100),
        DetectPlan::Coarse { start_sample: 90 }
    );
}

#[test]
fn analytic_gains_balance_for_even_and_odd_lengths() {
    let gains = |n: usize| (0..n).map(|k| analytic_gain(k, n)).collect::<Vec<_>>();
    assert_eq!(gains(6), vec![1, 2, 2, 1, 0, 0]);
    assert_eq!(gains(5), vec![1, 2, 2, 0, 0]);
    assert_eq!(gains(1), vec![1]);
}
