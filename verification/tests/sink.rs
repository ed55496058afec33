use freemkv_engine::progress::{sectors_bad, PassFigures, PassKind};
use freemkv_engine::sink::{bridge, tick, Level, NoopSink, Progress, Sink};
use freemkv_engine::speed::SpeedEstimator;
use freemkv_engine::streams::DiscTitle;

fn figures(kind: PassKind) -> PassFigures {
    PassFigures {
        kind,
        work_done: 4096,
        work_total: 8192,
        bytes_good_total: 4096,
        bytes_unreadable_total: 0,
        bytes_pending_total: 4096,
        bytes_retryable_total: 0,
        bytes_total_disc: 8192,
    }
}

#[test]
fn noop_sink_is_send_sync_and_never_cancels() {
    fn assert_send_sync<T: Send + Sync>() {}
    assert_send_sync::<NoopSink>();
    assert!(!NoopSink.should_cancel());
}

#[test]
fn noop_sink_defaults_swallow_every_call() {
    let s = NoopSink;
    s.log(Level::Info, "hello");
    let p = Progress {
        pass: "sweep".into(),
        bytes_done: 10,
        bytes_total: 100,
        ..Default::default()
    };
    s.progress(&p);
    s.title_opened(&DiscTitle { streams: Vec::new() });
    assert_eq!(p.eta_secs, None);
}

#[test]
fn engine_sink_is_object_safe() {
    let s = NoopSink;
    let dynref: &dyn Sink = &s;
    assert!(!dynref.should_cancel());
}

#[test]
fn a_clean_disc_reports_no_bad_sectors_while_the_sweep_is_still_running() {
    let disc = 25u64 * 1024 * 1024 * 1024;
    let f = PassFigures {
        kind: PassKind::Sweep,
        work_done: 4096,
        work_total: disc,
        bytes_good_total: 4096,
        bytes_unreadable_total: 0,
        bytes_pending_total: disc - 4096,
        bytes_retryable_total: 0,
        bytes_total_disc: disc,
    };
    let p = bridge(&mut SpeedEstimator::new(), &f);
    assert_eq!(
        p.sectors_bad, 0,
        "a disc with nothing wrong reported bad sectors purely because the \
         sweep had not finished yet"
    );
}

#[test]
fn sectors_bad_converts_bad_bytes_into_a_sector_count() {
    let f = PassFigures {
        kind: PassKind::Sweep,
        work_done: 1_000_000,
        work_total: 25 * 1024 * 1024 * 1024,
        bytes_good_total: 1_000_000,
        bytes_unreadable_total: 4096,
        bytes_pending_total: 8192,
        bytes_retryable_total: 2952,
        bytes_total_disc: 25 * 1024 * 1024 * 1024,
    };
    let p = bridge(&mut SpeedEstimator::new(), &f);
    assert_eq!(
        p.sectors_bad, 3,
        "7048 bad bytes is 3 whole bad sectors — unreadable and retryable \
         are summed, then converted once, rounding down"
    );
}

#[test]
fn bad_sectors_saturate() {
    let mut f = figures(PassKind::Sweep);
    f.bytes_unreadable_total = u64::MAX;
    f.bytes_retryable_total = u64::MAX;
    assert_eq!(sectors_bad(&f), u64::MAX / 2048);
}

#[test]
fn a_tick_carries_the_figures_and_the_name_of_the_pass() {
    for (kind, name) in [
        (PassKind::Sweep, "sweep"),
        (PassKind::Scrape { reverse: true }, "patch-scrape"),
        (PassKind::Trim { reverse: false }, "patch-trim"),
        (PassKind::Mux, "mux"),
        (PassKind::Verify, "verify"),
    ] {
        let p = tick(&figures(kind), 7, Some(9));
        assert_eq!(p.pass, name);
        assert_eq!((p.bytes_done, p.bytes_total), (4096, 8192));
        assert_eq!((p.speed_bps, p.eta_secs), (7, Some(9)));
    }
}
