//! The seam between the engine and a front-end.

use crate::progress::{bad_sectors, pass_key, sectors_bad, PassFigures};
use crate::speed::{sampled, SpeedEstimator};
use crate::streams::DiscTitle;
use vstd::prelude::*;

verus! {

/// Severity of a diagnostic line.
#[derive(Clone, Copy, Debug, PartialEq, Eq, Structural)]
pub enum Level {
    Trace,
    Debug,
    Info,
    Warn,
    Error,
}

/// A progress tick. Speed and remaining time are computed once, by the engine;
/// a front-end only formats them.
#[derive(Clone, Debug)]
pub struct Progress {
    /// The stable key of the current pass.
    pub pass: String,
    /// Bytes completed in the current operation.
    pub bytes_done: u64,
    /// Bytes the current operation expects; zero where not yet known.
    pub bytes_total: u64,
    /// Sectors that could not be read so far.
    pub sectors_bad: u64,
    /// Throughput in bytes per second; zero until measurable.
    pub speed_bps: u64,
    /// Seconds remaining, once there is an estimate.
    pub eta_secs: Option<u64>,
}

impl Default for Progress {
    fn default() -> (r: Progress)
        ensures
            r.pass@ == Seq::<char>::empty(),
            r.bytes_done == 0,
            r.bytes_total == 0,
            r.sectors_bad == 0,
            r.speed_bps == 0,
            r.eta_secs is None,
    {
        Progress {
            pass: String::new(),
            bytes_done: 0,
            bytes_total: 0,
            sectors_bad: 0,
            speed_bps: 0,
            eta_secs: None,
        }
    }
}

/// What a front-end implements. Every method does nothing unless it is
/// overridden.
pub trait Sink: Send + Sync {
    /// A diagnostic line.
    fn log(&self, _level: Level, _msg: &str) {
    }

    /// The structure of a title became known.
    fn title_opened(&self, _title: &DiscTitle) {
    }

    /// A progress tick. Called often.
    fn progress(&self, _p: &Progress) {
    }

    /// Whether to stop. Asked in every long loop. A front-end that does not
    /// override it never asks to stop.
    fn should_cancel(&self) -> (r: bool)
        default_ensures
            !r,
    {
        false
    }
}

/// A [`Sink`] that does nothing.
#[derive(Clone, Copy, Debug)]
pub struct NoopSink;

impl Default for NoopSink {
    fn default() -> (r: NoopSink)
        ensures
            r == NoopSink,
    {
        NoopSink
    }
}

impl Sink for NoopSink {
    fn should_cancel(&self) -> (r: bool)
        ensures
            !r,
    {
        false
    }
}

/// Whether a tick is that of a pass's figures.
pub open spec fn is_tick(p: Progress, f: PassFigures, speed_bps: u64, eta_secs: Option<u64>) -> bool {
    &&& p.pass@ == pass_key(f.kind)
    &&& p.bytes_done == f.work_done
    &&& p.bytes_total == f.work_total
    &&& p.sectors_bad == bad_sectors(f)
    &&& p.speed_bps == speed_bps
    &&& p.eta_secs == eta_secs
}

/// The tick that the figures of a pass come to, given what the estimator makes
/// of them.
pub fn tick(f: &PassFigures, speed_bps: u64, eta_secs: Option<u64>) -> (r: Progress)
    ensures
        is_tick(r, *f, speed_bps, eta_secs),
{
    Progress {
        pass: f.kind.key().to_owned(),
        bytes_done: f.work_done,
        bytes_total: f.work_total,
        sectors_bad: sectors_bad(f),
        speed_bps,
        eta_secs,
    }
}

/// Note the figures of a pass with the estimator, and make them a tick.
pub fn bridge(speed: &mut SpeedEstimator, f: &PassFigures) -> (r: Progress)
    ensures
        is_tick(r, *f, r.speed_bps, r.eta_secs),
        exists|now: u64|
            (final(speed)@, (r.speed_bps, r.eta_secs)) == sampled(
                old(speed)@,
                now,
                f.work_done,
                f.work_total,
            ),
{
    let (speed_bps, eta_secs) = speed.sample(f.work_done, f.work_total);
    tick(f, speed_bps, eta_secs)
}

/// What a tick says of a pass: its name, how much of its work is done and how
/// much there is, its bad sectors, and the speed and time left as they were
/// given.
pub proof fn law_what_a_tick_says(p: Progress, f: PassFigures, bps: u64, eta: Option<u64>)
    requires
        is_tick(p, f, bps, eta),
    ensures
        p.bytes_done == f.work_done,
        p.bytes_total == f.work_total,
        p.speed_bps == bps,
        p.eta_secs == eta,
        f.kind is Sweep ==> p.pass@ == "sweep"@,
        f.kind is Scrape ==> p.pass@ == "patch-scrape"@,
        f.kind is Trim ==> p.pass@ == "patch-trim"@,
        f.bytes_unreadable_total + f.bytes_retryable_total <= u64::MAX ==> 2048 * p.sectors_bad
            <= f.bytes_unreadable_total + f.bytes_retryable_total < 2048 * (p.sectors_bad + 1),
{
}

/// A disc of which nothing has failed reports no bad sector, however much of it
/// is still unread.
pub proof fn law_unread_bytes_are_not_damage(f: PassFigures)
    requires
        f.bytes_unreadable_total == 0,
        f.bytes_retryable_total == 0,
    ensures
        bad_sectors(f) == 0,
{
}

} // verus!
