use freemkv_engine::speed::{display_window_nanos, Rate, SpeedEstimator};

const SEC: u64 = 1_000_000_000;
const T0: u64 = 5_000 * SEC;
const BYTES_PER_MIB: f64 = 1024.0 * 1024.0;

fn mbs(r: Rate) -> f64 {
    r.bytes as f64 / BYTES_PER_MIB / (r.nanos as f64 / SEC as f64)
}

#[test]
fn first_sample_returns_zero() {
    let mut s = SpeedEstimator::new();
    let t0 = T0;
    let speed = mbs(s.observe(t0, 20 * 1024 * 1024 * 1024));
    assert_eq!(speed, 0.0, "first sample must not synthesize a speed");
    assert_eq!(s.sample_count(), 1, "first sample is recorded for the next");
}

#[test]
fn second_sample_matches_physical_rate() {
    let mut s = SpeedEstimator::new();
    let t0 = T0;
    let _ = s.observe(t0, 1_000_000_000);
    let speed = mbs(s.observe(t0 + SEC, 1_000_000_000 + 70 * 1_048_576));
    assert!((speed - 70.0).abs() < 1.0, "expected ~70 MB/s, got {speed}");
}

#[test]
fn caps_absurd_instantaneous() {
    let mut s = SpeedEstimator::new();
    let t0 = T0;
    let _ = s.observe(t0, 0);
    let speed = mbs(s.observe(t0 + SEC, 80 * 1024 * 1024 * 1024));
    assert!(speed <= 1024.0, "speed {speed} MB/s not capped");
}

#[test]
fn steady_state_converges() {
    let mut s = SpeedEstimator::new();
    let mut t = T0;
    let mut bytes: u64 = 1_000_000_000;
    let _ = s.observe(t, bytes);
    let mut last = 0.0;
    for _ in 0..20 {
        t += SEC;
        bytes += 70 * 1_048_576;
        last = mbs(s.observe(t, bytes));
    }
    assert!((last - 70.0).abs() < 2.0, "expected ~70 MB/s, got {last}");
}

#[test]
fn stall_drops_out_of_display_within_window() {
    let mut s = SpeedEstimator::new();
    let mut t = T0;
    let mut bytes: u64 = 0;
    let _ = s.observe(t, bytes);
    for _ in 0..10 {
        t += SEC;
        bytes += 70 * 1_048_576;
        let _ = s.observe(t, bytes);
    }
    let healthy = mbs(s.observe(t, bytes));
    assert!((healthy - 70.0).abs() < 2.0, "pre-stall ~70, got {healthy}");

    for _ in 0..12 {
        t += SEC;
        bytes += 1_048_576;
        let _ = s.observe(t, bytes);
    }
    let during = mbs(s.observe(t, bytes));
    assert!(during < 20.0, "stall must dip display, got {during} MB/s");

    for _ in 0..(10 + 2) {
        t += SEC;
        bytes += 70 * 1_048_576;
        let _ = s.observe(t, bytes);
    }
    let recovered = mbs(s.observe(t, bytes));
    assert!(
        (recovered - 70.0).abs() < 2.0,
        "display must return to ~70 once stall ages out, got {recovered}"
    );
}

#[test]
fn responsive_mode_holds_fixed_window() {
    let mut s = SpeedEstimator::new();
    s.set_responsive(true);
    let mut t = T0;
    let mut bytes: u64 = 0;
    let _ = s.observe(t, bytes);
    for _ in 0..180 {
        t += SEC;
        bytes += 70 * 1_048_576;
        let _ = s.observe(t, bytes);
    }
    assert!(
        s.sample_count() <= 10 + 2,
        "responsive window kept {} samples, expected ~10",
        s.sample_count()
    );
}

#[test]
fn counter_reset_restarts_cleanly() {
    let mut s = SpeedEstimator::new();
    let t0 = T0;
    let _ = s.observe(t0, 900 * 1_048_576);
    let _ = s.observe(t0 + SEC, 1000 * 1_048_576);
    let speed = mbs(s.observe(t0 + 2 * SEC, 0));
    assert_eq!(speed, 0.0, "reset re-anchors → no rate yet");
    assert_eq!(s.sample_count(), 1, "reset cleared the window");
}

#[test]
fn eta_speed_stays_stable_through_a_stall() {
    let mut s = SpeedEstimator::new();
    let mut t = T0;
    let mut bytes: u64 = 0;
    let _ = s.observe(t, bytes);
    for _ in 0..300 {
        t += SEC;
        bytes += 70 * 1_048_576;
        let _ = s.observe(t, bytes);
    }
    let disp = s.observe(t, bytes);
    let eta_before = mbs(s.eta_speed_mbs(t, disp));
    assert!((eta_before - 70.0).abs() < 2.0, "ETA ~70, got {eta_before}");

    for _ in 0..12 {
        t += SEC;
        bytes += 1_048_576;
        let _ = s.observe(t, bytes);
    }
    let disp2 = s.observe(t, bytes);
    let eta_during = mbs(s.eta_speed_mbs(t, disp2));
    assert!(
        (eta_during - 70.0).abs() < 5.0,
        "ETA rate must stay near true average through a stall, got {eta_during}"
    );
}

#[test]
fn eta_falls_back_to_display_during_warmup() {
    let mut s = SpeedEstimator::new();
    let t0 = T0;
    let _ = s.observe(t0, 0);
    let display = s.observe(t0 + 2 * SEC, 100 * 1_048_576);
    let eta = s.eta_speed_mbs(t0 + 2 * SEC, display);
    assert_eq!(eta, display, "before warmup ETA rate mirrors display");
}

#[test]
fn sample_at_first_call_has_no_speed_or_eta() {
    let mut s = SpeedEstimator::new();
    let t = T0;
    assert_eq!(s.sample_at(t, 0, 1000), (0, None));
}

#[test]
fn sample_at_reports_speed_and_eta() {
    let mut s = SpeedEstimator::new();
    let t0 = T0;
    s.sample_at(t0, 0, 200 * 1_048_576);
    let (bps, eta) = s.sample_at(
        t0 + SEC,
        100 * 1_048_576,
        200 * 1_048_576,
    );
    let mbs = bps as f64 / BYTES_PER_MIB;
    assert!((mbs - 100.0).abs() < 1.0, "expected ~100 MB/s, got {mbs}");
    assert_eq!(eta, Some(1));
}

#[test]
fn sample_at_no_eta_once_complete() {
    let mut s = SpeedEstimator::new();
    let t0 = T0;
    s.sample_at(t0, 500, 1000);
    let (_, eta) = s.sample_at(t0 + SEC, 1000, 1000);
    assert_eq!(eta, None, "no work left → no ETA");
}

#[test]
fn sample_at_zero_interval_does_not_panic() {
    let mut s = SpeedEstimator::new();
    let t = T0;
    s.sample_at(t, 100, 1000);
    let (speed, _) = s.sample_at(t, 200, 1000);
    assert_eq!(speed, 0, "same instant → no rate");
}

#[test]
fn display_window_grows_with_elapsed_time() {
    assert_eq!(display_window_nanos(0), 10 * SEC);
    assert_eq!(display_window_nanos(30 * SEC), 10 * SEC);
    assert_eq!(display_window_nanos(59_900_000_000), 10 * SEC);
    assert_eq!(display_window_nanos(60 * SEC), 10 * SEC);
    assert_eq!(display_window_nanos(210 * SEC), 35 * SEC);
    assert_eq!(display_window_nanos(360 * SEC), 60 * SEC);
    assert_eq!(display_window_nanos(3600 * SEC), 60 * SEC);
}

#[test]
fn the_estimate_is_rounded_to_whole_seconds() {
    let mut s = SpeedEstimator::new();
    s.sample_at(T0, 0, 1_000_000);
    // 1000 bytes a second, 2500 left: two and a half seconds.
    assert_eq!(s.sample_at(T0 + SEC, 1_000, 3_500), (1_000, Some(3)));
    let mut s = SpeedEstimator::new();
    s.sample_at(T0, 0, 1_000_000);
    assert_eq!(s.sample_at(T0 + SEC, 1_000, 3_499), (1_000, Some(2)));
}

#[test]
fn a_dead_stall_gives_no_estimate() {
    let mut s = SpeedEstimator::new();
    s.sample_at(T0, 0, 1_000_000);
    assert_eq!(s.sample_at(T0 + SEC, 104, 1_000_000), (104, None));
    let mut s = SpeedEstimator::new();
    s.sample_at(T0, 0, 1_000_000);
    assert_eq!(s.sample_at(T0 + SEC, 105, 1_000_000).0, 105);
    let mut s = SpeedEstimator::new();
    s.sample_at(T0, 0, 1_000_000);
    assert!(s.sample_at(T0 + SEC, 105, 1_000_000).1.is_some());
}

#[test]
fn speed_is_capped_at_a_gibibyte_a_second() {
    let mut s = SpeedEstimator::default();
    s.sample_at(T0, 0, u64::MAX);
    let (bps, _) = s.sample_at(T0 + SEC, 80 << 30, u64::MAX);
    assert_eq!(bps, 1 << 30);
}

#[test]
fn sampling_by_the_clock_moves_forward() {
    let mut s = SpeedEstimator::new();
    assert_eq!(s.sample(0, 1_000), (0, None));
    let (bps, _) = s.sample(100, 1_000);
    assert!(bps <= 1 << 30);
    assert_eq!(s.sample_count(), 2);
    // Times of the estimator's own clock go with its samples.
    let now = s.now();
    assert!(s.now() >= now);
    let (bps, _) = s.sample_at(now + 1_000_000_000, 600, 1_000);
    assert!(bps > 0 && bps <= 600);
}
