//! The one derivation of speed and remaining time.
//!
//! Two rates answer two questions. How fast it goes right now is a sliding
//! window: short enough that a stall shows, long enough that jitter does not.
//! When it will be finished is the average over the pass: a stall of seconds
//! hardly moves it.
//!
//! Times are nanoseconds since a fixed moment, the same one for all samples of
//! an estimator. A caller that hands in its own times picks that moment;
//! [`SpeedEstimator::sample`] counts from the estimator's creation, and
//! [`SpeedEstimator::now`] gives the time so counted, for callers that use both.
//! A rate is kept as bytes over nanoseconds, so nothing is rounded before the
//! last step.

use std::collections::VecDeque;
use vstd::prelude::*;

verus! {

/// Nanoseconds in a second.
pub const NANOS_PER_SEC: u64 = 1_000_000_000;

/// How long a pass keeps the shortest window.
pub const STATIC_PHASE_NANOS: u64 = 60_000_000_000;

/// The shortest window.
pub const STATIC_WINDOW_NANOS: u64 = 10_000_000_000;

/// When the window has grown to its longest.
pub const FULL_WINDOW_NANOS: u64 = 360_000_000_000;

/// The longest window.
pub const MAX_WINDOW_NANOS: u64 = 60_000_000_000;

/// Nanoseconds of a pass for each nanosecond that the window grows.
pub const GROWTH: u64 = 6;

/// How long the average over the pass is too noisy to estimate with.
pub const ETA_WARMUP_NANOS: u64 = 10_000_000_000;

/// Most bytes per second that a drive could plausibly deliver.
pub const MAX_PLAUSIBLE_BPS: u64 = 1_073_741_824;

/// Bytes per ten thousand seconds at or below which nothing is moving.
pub const STALL_BYTES_PER_10000_SECS: u64 = 1_048_576;

/// `std::time::Instant`: a moment of the monotonic clock, carried and not looked
/// into.
#[verifier::external_type_specification]
#[verifier::external_body]
pub struct ExInstant(std::time::Instant);

/// `std::time::Instant::now`: the current moment. Nothing is claimed of it.
#[verifier::external_body]
fn clock_start() -> (r: std::time::Instant) {
    std::time::Instant::now()
}

/// `std::time::Instant::elapsed`: the nanoseconds since a moment. Nothing is
/// claimed of them.
#[verifier::external_body]
fn clock_read(start: &std::time::Instant) -> (r: u64) {
    start.elapsed().as_nanos() as u64
}

/// A rate: bytes over nanoseconds.
#[derive(Debug, Clone, Copy, PartialEq, Eq, Structural)]
pub struct Rate {
    pub bytes: u64,
    pub nanos: u64,
}

/// No rate.
pub open spec fn no_rate() -> Rate {
    Rate { bytes: 0, nanos: 1 }
}

/// The highest rate that is believed.
pub open spec fn top_rate() -> Rate {
    Rate { bytes: MAX_PLAUSIBLE_BPS, nanos: NANOS_PER_SEC }
}

/// A rate, or the highest that is believed.
pub open spec fn believed(r: Rate) -> Rate {
    if r.bytes * NANOS_PER_SEC > MAX_PLAUSIBLE_BPS * r.nanos {
        top_rate()
    } else {
        r
    }
}

/// A rate in whole bytes per second.
pub open spec fn per_second(r: Rate) -> int {
    r.bytes * NANOS_PER_SEC / r.nanos as int
}

/// A difference, or zero.
pub open spec fn excess(a: u64, b: u64) -> u64 {
    if a >= b {
        (a - b) as u64
    } else {
        0
    }
}

/// The window for the displayed speed, by how long the pass has been running:
/// ten seconds at first, then growing steadily to sixty.
pub open spec fn window_nanos(elapsed: u64) -> u64 {
    if elapsed < STATIC_PHASE_NANOS {
        STATIC_WINDOW_NANOS
    } else if elapsed < FULL_WINDOW_NANOS {
        (STATIC_WINDOW_NANOS + (elapsed - STATIC_PHASE_NANOS) / GROWTH as int) as u64
    } else {
        MAX_WINDOW_NANOS
    }
}

/// What a [`SpeedEstimator`] holds.
#[verifier::ext_equal]
pub struct SpeedState {
    /// Recent samples, oldest first: when, and how many bytes were done.
    pub samples: Seq<(u64, u64)>,
    /// The first sample of the pass.
    pub pass_start: Option<(u64, u64)>,
    /// Whether the window stays at its shortest.
    pub responsive: bool,
}

/// Samples without the old ones in front.
pub open spec fn recent(samples: Seq<(u64, u64)>, cutoff: u64) -> Seq<(u64, u64)>
    decreases samples.len(),
{
    if samples.len() > 0 && samples[0].0 < cutoff {
        recent(samples.drop_first(), cutoff)
    } else {
        samples
    }
}

/// The state with the pass anchored: a first sample starts a pass, and so does
/// one with fewer bytes than the pass started with.
pub open spec fn anchored(s: SpeedState, now: u64, bytes: u64) -> SpeedState {
    match s.pass_start {
        None => SpeedState { pass_start: Some((now, bytes)), ..s },
        Some((t, b)) => if bytes < b {
            SpeedState { samples: seq![], pass_start: Some((now, bytes)), ..s }
        } else {
            s
        },
    }
}

/// The state after a sample.
pub open spec fn observed(s: SpeedState, now: u64, bytes: u64) -> SpeedState {
    let a = anchored(s, now, bytes);
    let window = if s.responsive {
        STATIC_WINDOW_NANOS
    } else {
        window_nanos(excess(now, (a.pass_start->0).0))
    };
    let kept = if now >= window {
        recent(a.samples, (now - window) as u64)
    } else {
        a.samples
    };
    SpeedState { samples: kept.push((now, bytes)), ..a }
}

/// The displayed rate: over the samples in the window.
pub open spec fn display_rate(s: SpeedState) -> Rate {
    if s.samples.len() < 2 {
        no_rate()
    } else {
        let oldest = s.samples[0];
        let newest = s.samples.last();
        let nanos = excess(newest.0, oldest.0);
        if nanos == 0 {
            no_rate()
        } else {
            believed(Rate { bytes: excess(newest.1, oldest.1), nanos })
        }
    }
}

/// The rate to estimate with: the average over the pass, or the displayed rate
/// while that average is too noisy or nothing has come.
pub open spec fn eta_rate(s: SpeedState, now: u64, display: Rate) -> Rate {
    match s.pass_start {
        None => display,
        Some((t, b)) => {
            let nanos = excess(now, t);
            if nanos < ETA_WARMUP_NANOS || s.samples.len() == 0 {
                display
            } else {
                let bytes = excess(s.samples.last().1, b);
                if bytes == 0 {
                    display
                } else {
                    believed(Rate { bytes, nanos })
                }
            }
        },
    }
}

/// Whether a rate is more than a dead stall.
pub open spec fn moving(r: Rate) -> bool {
    r.bytes * NANOS_PER_SEC * 10_000 > STALL_BYTES_PER_10000_SECS * r.nanos
}

/// A quotient, rounded to the nearest whole number, halves up.
pub open spec fn rounded(num: int, den: int) -> int {
    if 2 * (num % den) >= den {
        num / den + 1
    } else {
        num / den
    }
}

/// Seconds left, where there is work left and something moves.
pub open spec fn seconds_left(rate: Rate, done: u64, total: u64) -> Option<u64> {
    if moving(rate) && total > done {
        let secs = rounded((total - done) * rate.nanos, rate.bytes * NANOS_PER_SEC);
        Some(
            if secs <= u64::MAX {
                secs as u64
            } else {
                u64::MAX
            },
        )
    } else {
        None
    }
}

/// What a sample comes to: the state after it, the speed in bytes per second,
/// and the seconds left.
pub open spec fn sampled(s: SpeedState, now: u64, done: u64, total: u64) -> (
    SpeedState,
    (u64, Option<u64>),
) {
    let after = observed(s, now, done);
    let display = display_rate(after);
    (
        after,
        (per_second(display) as u64, seconds_left(eta_rate(after, now, display), done, total)),
    )
}

/// Keeps samples of how far a pass has come, one estimator to a pass.
#[derive(Debug)]
pub struct SpeedEstimator {
    samples: VecDeque<(u64, u64)>,
    pass_start: Option<(u64, u64)>,
    responsive: bool,
    clock: std::time::Instant,
}

impl View for SpeedEstimator {
    type V = SpeedState;

    closed spec fn view(&self) -> SpeedState {
        SpeedState {
            samples: self.samples@,
            pass_start: self.pass_start,
            responsive: self.responsive,
        }
    }
}

impl Rate {
    /// The rate in whole bytes per second.
    fn bytes_per_sec(&self) -> (r: u64)
        requires
            self.nanos > 0,
            self.bytes * NANOS_PER_SEC <= MAX_PLAUSIBLE_BPS * self.nanos,
        ensures
            r == per_second(*self),
            r <= MAX_PLAUSIBLE_BPS,
    {
        proof {
            lemma_per_second_bound(*self);
        }
        (self.bytes as u128 * NANOS_PER_SEC as u128 / self.nanos as u128) as u64
    }

    /// The rate, or the highest that is believed.
    fn capped(self) -> (r: Rate)
        ensures
            r == believed(self),
    {
        proof {
            assert(self.bytes * 1_000_000_000 <= 0xffff_ffff_ffff_ffff * 1_000_000_000);
            assert(1_073_741_824 * self.nanos <= 1_073_741_824 * 0xffff_ffff_ffff_ffff);
        }
        if self.bytes as u128 * NANOS_PER_SEC as u128 > MAX_PLAUSIBLE_BPS as u128
            * self.nanos as u128 {
            Rate { bytes: MAX_PLAUSIBLE_BPS, nanos: NANOS_PER_SEC }
        } else {
            self
        }
    }

    /// Seconds left at the rate, where there is work left and something moves.
    fn seconds_left(&self, done: u64, total: u64) -> (r: Option<u64>)
        ensures
            r == seconds_left(*self, done, total),
    {
        proof {
            assert(self.bytes * 1_000_000_000 * 10_000 <= 0xffff_ffff_ffff_ffff * 10_000_000_000_000);
            assert(1_048_576 * self.nanos <= 1_048_576 * 0xffff_ffff_ffff_ffff);
        }
        let fast: bool = self.bytes as u128 * NANOS_PER_SEC as u128 * 10_000u128
            > STALL_BYTES_PER_10000_SECS as u128 * self.nanos as u128;
        if !fast || total <= done {
            return None;
        }
        let left: u64 = total - done;
        proof {
            assert(left as int * self.nanos as int <= 0xffff_ffff_ffff_ffff
                * 0xffff_ffff_ffff_ffff) by (nonlinear_arith)
                requires
                    0 <= left <= 0xffff_ffff_ffff_ffff,
                    0 <= self.nanos <= 0xffff_ffff_ffff_ffff,
            ;
        }
        let num: u128 = left as u128 * self.nanos as u128;
        let den: u128 = self.bytes as u128 * NANOS_PER_SEC as u128;
        assert(den > 0);
        let whole: u128 = num / den;
        let rest: u128 = num % den;
        assert(whole <= num) by (nonlinear_arith)
            requires
                den > 0,
                whole == num / den,
        ;
        let secs: u128 = if rest * 2 >= den {
            whole + 1
        } else {
            whole
        };
        if secs <= u64::MAX as u128 {
            Some(secs as u64)
        } else {
            Some(u64::MAX)
        }
    }
}

proof fn lemma_per_second_bound(r: Rate)
    requires
        r.nanos > 0,
        r.bytes * NANOS_PER_SEC <= MAX_PLAUSIBLE_BPS * r.nanos,
    ensures
        0 <= per_second(r) <= MAX_PLAUSIBLE_BPS,
{
    let n = r.bytes * NANOS_PER_SEC;
    let d = r.nanos as int;
    assert(n / d <= MAX_PLAUSIBLE_BPS) by (nonlinear_arith)
        requires
            d > 0,
            0 <= n <= MAX_PLAUSIBLE_BPS * d,
    ;
    assert(n / d >= 0) by (nonlinear_arith)
        requires
            d > 0,
            n >= 0,
    ;
}

/// The window for the displayed speed.
pub fn display_window_nanos(elapsed: u64) -> (r: u64)
    ensures
        r == window_nanos(elapsed),
{
    if elapsed < STATIC_PHASE_NANOS {
        STATIC_WINDOW_NANOS
    } else if elapsed < FULL_WINDOW_NANOS {
        STATIC_WINDOW_NANOS + (elapsed - STATIC_PHASE_NANOS) / GROWTH
    } else {
        MAX_WINDOW_NANOS
    }
}

impl SpeedEstimator {
    /// An estimator that has seen nothing.
    pub fn new() -> (r: SpeedEstimator)
        ensures
            r@ == (SpeedState { samples: seq![], pass_start: None, responsive: false }),
    {
        let r = SpeedEstimator {
            samples: VecDeque::new(),
            pass_start: None,
            responsive: false,
            clock: clock_start(),
        };
        assert(r@.samples =~= seq![]);
        r
    }

    /// Keep the window at its shortest, for passes that recover in bursts.
    pub fn set_responsive(&mut self, responsive: bool)
        ensures
            final(self)@ == (SpeedState { responsive, ..old(self)@ }),
    {
        self.responsive = responsive;
    }

    /// How many samples are in the window.
    pub fn sample_count(&self) -> (r: usize)
        ensures
            r == self@.samples.len(),
    {
        self.samples.len()
    }

    /// Drop samples from before a moment.
    fn prune(&mut self, cutoff: u64)
        ensures
            final(self)@ == (SpeedState {
                samples: recent(old(self)@.samples, cutoff),
                ..old(self)@
            }),
    {
        while self.samples.len() > 0 && self.samples[0].0 < cutoff
            invariant
                recent(self.samples@, cutoff) == recent(old(self).samples@, cutoff),
                self.pass_start == old(self).pass_start,
                self.responsive == old(self).responsive,
            decreases self.samples@.len(),
        {
            let ghost s = self.samples@;
            let _ = self.samples.pop_front();
            assert(self.samples@ =~= s.drop_first());
        }
    }

    /// Note a sample, and give the displayed rate.
    pub fn observe(&mut self, now: u64, bytes_done: u64) -> (r: Rate)
        ensures
            final(self)@ == observed(old(self)@, now, bytes_done),
            r == display_rate(final(self)@),
            r.nanos > 0,
            r.bytes * NANOS_PER_SEC <= MAX_PLAUSIBLE_BPS * r.nanos,
    {
        match self.pass_start {
            None => {
                self.pass_start = Some((now, bytes_done));
            },
            Some((_, start_bytes)) => {
                if bytes_done < start_bytes {
                    self.samples.clear();
                    self.pass_start = Some((now, bytes_done));
                }
            },
        }
        assert(self@ =~= anchored(old(self)@, now, bytes_done));
        let started: u64 = match self.pass_start {
            Some((t, _)) => t,
            None => now,
        };
        let window: u64 = if self.responsive {
            STATIC_WINDOW_NANOS
        } else {
            display_window_nanos(now.saturating_sub(started))
        };
        if now >= window {
            self.prune(now - window);
        }
        self.samples.push_back((now, bytes_done));
        assert(self@ =~= observed(old(self)@, now, bytes_done));
        let n: usize = self.samples.len();
        if n < 2 {
            return Rate { bytes: 0, nanos: 1 };
        }
        let (oldest_t, oldest_b) = self.samples[0];
        let (newest_t, newest_b) = self.samples[n - 1];
        let nanos: u64 = newest_t.saturating_sub(oldest_t);
        if nanos == 0 {
            return Rate { bytes: 0, nanos: 1 };
        }
        Rate { bytes: newest_b.saturating_sub(oldest_b), nanos }.capped()
    }

    /// The rate to estimate with.
    pub fn eta_speed_mbs(&self, now: u64, display: Rate) -> (r: Rate)
        ensures
            r == eta_rate(self@, now, display),
    {
        let (start_t, start_b) = match self.pass_start {
            None => {
                return display;
            },
            Some(p) => p,
        };
        let nanos: u64 = now.saturating_sub(start_t);
        let n: usize = self.samples.len();
        if nanos < ETA_WARMUP_NANOS || n == 0 {
            return display;
        }
        let (_, latest) = self.samples[n - 1];
        let bytes: u64 = latest.saturating_sub(start_b);
        if bytes == 0 {
            return display;
        }
        Rate { bytes, nanos }.capped()
    }

    /// Note a sample, and give the speed in bytes per second and the seconds
    /// left. There is no estimate until something moves, nor once all is done.
    /// The time is in nanoseconds since a fixed moment, the same for every
    /// sample. Samples taken with [`SpeedEstimator::sample`] count from the
    /// estimator's creation; beside those, take the time from
    /// [`SpeedEstimator::now`].
    pub fn sample_at(&mut self, now: u64, bytes_done: u64, bytes_total: u64) -> (r: (
        u64,
        Option<u64>,
    ))
        ensures
            (final(self)@, r) == sampled(old(self)@, now, bytes_done, bytes_total),
            r.0 <= MAX_PLAUSIBLE_BPS,
    {
        let display = self.observe(now, bytes_done);
        let eta = self.eta_speed_mbs(now, display);
        (display.bytes_per_sec(), eta.seconds_left(bytes_done, bytes_total))
    }

    /// The estimator's own time: nanoseconds since its creation. What the clock
    /// reads is left unsaid.
    pub fn now(&self) -> (r: u64) {
        clock_read(&self.clock)
    }

    /// Note a sample at the present moment, as [`SpeedEstimator::now`] gives it.
    pub fn sample(&mut self, bytes_done: u64, bytes_total: u64) -> (r: (u64, Option<u64>))
        ensures
            exists|now: u64| (final(self)@, r) == sampled(old(self)@, now, bytes_done, bytes_total),
            r.0 <= MAX_PLAUSIBLE_BPS,
    {
        let now: u64 = self.now();
        self.sample_at(now, bytes_done, bytes_total)
    }
}

impl Default for SpeedEstimator {
    fn default() -> (r: SpeedEstimator)
        ensures
            r@ == (SpeedState { samples: seq![], pass_start: None, responsive: false }),
    {
        SpeedEstimator::new()
    }
}

/// A first sample, and one that goes back below the start of the pass, give no
/// speed: bytes that were there before are not throughput. The estimate then
/// has nothing to go on either.
pub proof fn law_a_new_pass_starts_from_nothing(s: SpeedState, now: u64, done: u64, total: u64)
    requires
        s.pass_start is None ==> s.samples.len() == 0,
        s.pass_start matches Some((t, b)) ==> done < b,
    ensures
        sampled(s, now, done, total).1 == (0u64, None::<u64>),
        observed(s, now, done).samples == seq![(now, done)],
{
    let a = anchored(s, now, done);
    assert(a.samples.len() == 0);
    assert(observed(s, now, done).samples =~= seq![(now, done)]);
    assert(per_second(no_rate()) == 0);
    assert(!moving(no_rate()));
}

/// The window is never shorter than ten seconds nor longer than sixty, and
/// never shrinks while a pass goes on.
pub proof fn law_the_window_grows(a: u64, b: u64)
    requires
        a <= b,
    ensures
        STATIC_WINDOW_NANOS <= window_nanos(a) <= window_nanos(b) <= MAX_WINDOW_NANOS,
{
}

/// There is no estimate once all is done.
pub proof fn law_no_estimate_once_complete(s: SpeedState, now: u64, done: u64, total: u64)
    requires
        done >= total,
    ensures
        (sampled(s, now, done, total).1).1 is None,
{
}

/// While the average over the pass is too noisy, the estimate goes by the
/// displayed rate.
pub proof fn law_warmup_uses_the_displayed_rate(s: SpeedState, now: u64, display: Rate)
    requires
        s.pass_start matches Some((t, b)) ==> now < t + ETA_WARMUP_NANOS,
    ensures
        eta_rate(s, now, display) == display,
{
}

/// The samples that are kept are the last ones, and the oldest of them is not
/// older than the window where there is any.
pub proof fn law_kept_samples_are_recent(samples: Seq<(u64, u64)>, cutoff: u64)
    ensures
        recent(samples, cutoff).len() <= samples.len(),
        recent(samples, cutoff) == samples.skip(
            samples.len() - recent(samples, cutoff).len(),
        ),
        recent(samples, cutoff).len() > 0 ==> recent(samples, cutoff)[0].0 >= cutoff,
    decreases samples.len(),
{
    if samples.len() > 0 && samples[0].0 < cutoff {
        let rest = samples.drop_first();
        law_kept_samples_are_recent(rest, cutoff);
        let r = recent(rest, cutoff);
        assert(r =~= samples.skip(samples.len() - r.len()));
    } else {
        assert(samples.skip(0) =~= samples);
    }
}

} // verus!
