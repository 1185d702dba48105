use sonde::profile::ModeProfile;
use sonde::time::Duration;

fn secs(d: Duration) -> f64 {
    d.nanos as f64 / 1e9
}

fn ofdm() -> ModeProfile {
    ModeProfile::new(Duration::from_millis(500), 4096)
}

fn deep_floor() -> ModeProfile {
    ModeProfile::new(Duration::from_secs(30), 16)
}

#[test]
fn timers_are_ordered_recovery_lt_over_lt_keepalive() {
    let p = ofdm();
    assert!(p.turn_recovery_timeout() < p.over_timeout());
    assert!(p.over_timeout() < p.keepalive_interval());
}

#[test]
fn timers_scale_linearly_with_over_airtime() {
    let fast = ofdm();
    let slow = deep_floor();
    // 30s / 0.5s = 60x the airtime ⇒ 60x every timer.
    let ratio = secs(slow.over_airtime()) / secs(fast.over_airtime());
    let approx =
        |a: Duration, b: Duration| (secs(a) / secs(b) - ratio).abs() < 1e-9;
    assert!(approx(
        slow.turn_recovery_timeout(),
        fast.turn_recovery_timeout()
    ));
    assert!(approx(slow.over_timeout(), fast.over_timeout()));
    assert!(approx(slow.keepalive_interval(), fast.keepalive_interval()));
}

#[test]
fn deep_floor_over_timeout_is_tens_of_seconds_not_subsecond() {
    // The whole point of airtime-derived timing: a deep-floor over must not be
    // declared late after a flat sub-second budget.
    assert!(deep_floor().over_timeout() >= Duration::from_secs(30));
}
