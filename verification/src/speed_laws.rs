//! What the displayed speed and the remaining time are, in plain numbers.

use crate::speed::{
    anchored, believed, display_rate, eta_rate, excess, law_kept_samples_are_recent, moving,
    observed,
    per_second, recent, rounded, sampled, seconds_left, window_nanos, Rate, SpeedState,
};
use vstd::prelude::*;

verus! {

/// Samples with their byte counts moved by an offset.
pub open spec fn moved(samples: Seq<(u64, u64)>, k: u64) -> Seq<(u64, u64)> {
    samples.map_values(|p: (u64, u64)| (p.0, (p.1 + k) as u64))
}

/// An estimator's state with all byte counts moved by an offset.
pub open spec fn moved_state(s: SpeedState, k: u64) -> SpeedState {
    SpeedState {
        samples: moved(s.samples, k),
        pass_start: match s.pass_start {
            Some((t, b)) => Some((t, (b + k) as u64)),
            None => None,
        },
        responsive: s.responsive,
    }
}

/// Whether all byte counts have room for an offset.
pub open spec fn room_for(s: SpeedState, k: u64) -> bool {
    &&& forall|i: int| 0 <= i < s.samples.len() ==> (#[trigger] s.samples[i]).1 + k <= u64::MAX
    &&& s.pass_start matches Some((t, b)) ==> b + k <= u64::MAX
}

proof fn lemma_recent_moved(samples: Seq<(u64, u64)>, cutoff: u64, k: u64)
    ensures
        recent(moved(samples, k), cutoff) == moved(recent(samples, cutoff), k),
    decreases samples.len(),
{
    if samples.len() > 0 && samples[0].0 < cutoff {
        lemma_recent_moved(samples.drop_first(), cutoff, k);
        assert(moved(samples, k).drop_first() =~= moved(samples.drop_first(), k));
    }
}

/// Bytes that were done before a pass are not throughput: with the same number
/// of bytes more in every sample, in the start of the pass, in what is done and
/// in the total, the speed and the seconds left are the same.
pub proof fn law_only_the_bytes_of_the_pass_count(
    s: SpeedState,
    now: u64,
    done: u64,
    total: u64,
    k: u64,
)
    requires
        room_for(s, k),
        done + k <= u64::MAX,
        total + k <= u64::MAX,
    ensures
        sampled(moved_state(s, k), now, (done + k) as u64, (total + k) as u64).1 == sampled(
            s,
            now,
            done,
            total,
        ).1,
        sampled(moved_state(s, k), now, (done + k) as u64, (total + k) as u64).0 == moved_state(
            sampled(s, now, done, total).0,
            k,
        ),
{
    let m = moved_state(s, k);
    let d = (done + k) as u64;
    let a = anchored(s, now, done);
    let b = anchored(m, now, d);
    assert(b =~= moved_state(a, k)) by {
        assert(moved(Seq::<(u64, u64)>::empty(), k) =~= seq![]);
    }
    let x = observed(s, now, done);
    let y = observed(m, now, d);
    let cutoff = if s.responsive {
        now - 10_000_000_000
    } else {
        now - window_nanos(excess(now, (a.pass_start->0).0))
    };
    if cutoff >= 0 {
        lemma_recent_moved(a.samples, cutoff as u64, k);
        law_kept_samples_are_recent(a.samples, cutoff as u64);
        let kept = recent(a.samples, cutoff as u64);
        assert forall|i: int| 0 <= i < kept.len() implies (#[trigger] kept[i]).1 + k <= u64::MAX by {
            assert(kept[i] == a.samples[a.samples.len() - kept.len() + i]);
        }
    }
    assert(y.samples =~= moved(x.samples, k));
    assert(y =~= moved_state(x, k));
    assert(room_for(x, k));
    let n = x.samples.len() as int;
    assert(x.samples[n - 1].1 + k <= u64::MAX);
    assert(x.samples[0].1 + k <= u64::MAX);
    assert(display_rate(y) == display_rate(x));
    assert(eta_rate(y, now, display_rate(y)) == eta_rate(x, now, display_rate(x)));
}

/// Samples with their times moved by an offset.
pub open spec fn later(samples: Seq<(u64, u64)>, k: u64) -> Seq<(u64, u64)> {
    samples.map_values(|p: (u64, u64)| ((p.0 + k) as u64, p.1))
}

/// An estimator's state with all times moved by an offset.
pub open spec fn later_state(s: SpeedState, k: u64) -> SpeedState {
    SpeedState {
        samples: later(s.samples, k),
        pass_start: match s.pass_start {
            Some((t, b)) => Some(((t + k) as u64, b)),
            None => None,
        },
        responsive: s.responsive,
    }
}

/// Whether all times have room for an offset.
pub open spec fn time_for(s: SpeedState, k: u64) -> bool {
    &&& forall|i: int| 0 <= i < s.samples.len() ==> (#[trigger] s.samples[i]).0 + k <= u64::MAX
    &&& s.pass_start matches Some((t, b)) ==> t + k <= u64::MAX
}

proof fn lemma_recent_later(samples: Seq<(u64, u64)>, cutoff: u64, k: u64)
    requires
        forall|i: int| 0 <= i < samples.len() ==> (#[trigger] samples[i]).0 + k <= u64::MAX,
        cutoff + k <= u64::MAX,
    ensures
        recent(later(samples, k), (cutoff + k) as u64) == later(recent(samples, cutoff), k),
    decreases samples.len(),
{
    if samples.len() > 0 && samples[0].0 < cutoff {
        let rest = samples.drop_first();
        assert forall|i: int| 0 <= i < rest.len() implies (#[trigger] rest[i]).0 + k <= u64::MAX by {
            assert(rest[i] == samples[i + 1]);
        }
        lemma_recent_later(rest, cutoff, k);
        assert(later(samples, k).drop_first() =~= later(rest, k));
    }
}

proof fn lemma_nothing_old(samples: Seq<(u64, u64)>, cutoff: u64)
    requires
        samples.len() > 0 ==> samples[0].0 >= cutoff,
    ensures
        recent(samples, cutoff) == samples,
{
}

/// It does not matter from which moment times are counted: with every time
/// later by the same, the speed and the seconds left are the same.
pub proof fn law_only_differences_of_times_count(
    s: SpeedState,
    now: u64,
    done: u64,
    total: u64,
    k: u64,
)
    requires
        time_for(s, k),
        now + k <= u64::MAX,
    ensures
        sampled(later_state(s, k), (now + k) as u64, done, total).1 == sampled(
            s,
            now,
            done,
            total,
        ).1,
{
    let m = later_state(s, k);
    let n2 = (now + k) as u64;
    let a = anchored(s, now, done);
    let b = anchored(m, n2, done);
    assert(b =~= later_state(a, k)) by {
        assert(later(Seq::<(u64, u64)>::empty(), k) =~= seq![]);
    }
    let x = observed(s, now, done);
    let y = observed(m, n2, done);
    let window = if s.responsive {
        10_000_000_000u64
    } else {
        window_nanos(excess(now, (a.pass_start->0).0))
    };
    assert forall|i: int| 0 <= i < a.samples.len() implies (#[trigger] a.samples[i]).0 + k
        <= u64::MAX by {}
    if now >= window {
        let cutoff = (now - window) as u64;
        lemma_recent_later(a.samples, cutoff, k);
        law_kept_samples_are_recent(a.samples, cutoff);
    } else if n2 >= window {
        let cutoff = (n2 - window) as u64;
        if a.samples.len() > 0 {
            assert(later(a.samples, k)[0].0 == a.samples[0].0 + k);
        }
        lemma_nothing_old(later(a.samples, k), cutoff);
    }
    assert(y.samples =~= later(x.samples, k));
    assert(y =~= later_state(x, k));
    assert forall|i: int| 0 <= i < x.samples.len() implies (#[trigger] x.samples[i]).0 + k
        <= u64::MAX by {
        if now >= window {
            let kept = recent(a.samples, (now - window) as u64);
            if i < kept.len() {
                assert(kept[i] == a.samples[a.samples.len() - kept.len() + i]);
            }
        }
    }
    let n = x.samples.len() as int;
    assert(x.samples[n - 1].0 + k <= u64::MAX);
    assert(x.samples[0].0 + k <= u64::MAX);
    assert(display_rate(y) == display_rate(x));
    assert(eta_rate(y, n2, display_rate(y)) == eta_rate(x, now, display_rate(x)));
}

/// The rate that the remaining time goes by. From ten seconds into a pass on,
/// once a byte has come, it is what the pass has done over the time it has
/// taken, up to a gibibyte a second; before that it is the displayed rate.
pub proof fn law_the_estimate_goes_by_the_average_of_the_pass(
    s: SpeedState,
    now: u64,
    display: Rate,
)
    ensures
        s.pass_start is None ==> eta_rate(s, now, display) == display,
        s.pass_start matches Some((t, b)) ==> {
            let r = eta_rate(s, now, display);
            let done = s.samples.last().1 - b;
            &&& now < t + 10_000_000_000 || s.samples.len() == 0 || done <= 0 ==> r == display
            &&& now >= t + 10_000_000_000 && s.samples.len() > 0 && done > 0 ==> if done
                * 1_000_000_000 <= 1_073_741_824 * (now - t) {
                r.bytes == done && r.nanos == now - t
            } else {
                r.bytes == 1_073_741_824 && r.nanos == 1_000_000_000
            }
        },
{
}

/// The displayed speed: what came between the oldest and the newest sample that
/// are kept, over the time between them, in whole bytes per second, up to a
/// gibibyte a second. With fewer than two samples, or no time between them,
/// there is none.
pub proof fn law_the_displayed_speed(s: SpeedState)
    ensures
        ({
            let v = per_second(display_rate(s));
            let n = s.samples.len() as int;
            let nanos = s.samples.last().0 - s.samples[0].0;
            let bytes = s.samples.last().1 - s.samples[0].1;
            &&& n < 2 || nanos <= 0 || bytes <= 0 ==> v == 0
            &&& n >= 2 && nanos > 0 && bytes > 0 && bytes * 1_000_000_000 <= 1_073_741_824 * nanos
                ==> v * nanos <= bytes * 1_000_000_000 < (v + 1) * nanos
            &&& n >= 2 && nanos > 0 && bytes * 1_000_000_000 > 1_073_741_824 * nanos ==> v
                == 1_073_741_824
        }),
{
    let r = display_rate(s);
    let num = r.bytes * 1_000_000_000;
    let den = r.nanos as int;
    if den > 0 {
        vstd::arithmetic::div_mod::lemma_fundamental_div_mod(num, den);
        vstd::arithmetic::div_mod::lemma_mod_bound(num, den);
        assert(den * (num / den) == (num / den) * den) by (nonlinear_arith);
        assert((num / den + 1) * den == (num / den) * den + den) by (nonlinear_arith);
        if r.bytes == 0 {
            assert(num / den == 0) by (nonlinear_arith)
                requires
                    num == 0,
                    den > 0,
            ;
        }
    }
}

/// The seconds left: what is left over the rate, to the nearest second, halves
/// up. There is an answer exactly where something is left and the rate is more
/// than a tenthousandth of a mebibyte a second.
pub proof fn law_the_seconds_left(rate: Rate, done: u64, total: u64)
    requires
        rate.nanos > 0,
    ensures
        ({
            let per = rate.bytes * 1_000_000_000;
            &&& seconds_left(rate, done, total) is Some <==> done < total && 10_000 * per > 1_048_576
                * rate.nanos
            &&& seconds_left(rate, done, total) matches Some(n) ==> {
                let need = 2 * ((total - done) * rate.nanos);
                &&& n < u64::MAX ==> (2 * n - 1) * per <= need < (2 * n + 1) * per
                &&& n == u64::MAX ==> (2 * n - 1) * per <= need
            }
        }),
{
    let per = rate.bytes * 1_000_000_000;
    assert(rate.bytes * 1_000_000_000 * 10_000 == 10_000 * per);
    assert(0 <= 1_048_576 * rate.nanos);
    if seconds_left(rate, done, total) is Some {
        let n = (seconds_left(rate, done, total))->0;
        let num = (total - done) * rate.nanos;
        assert(per > 0);
        assert(num >= 0) by (nonlinear_arith)
            requires
                num == (total - done) * rate.nanos,
                total > done,
        ;
        let q = rounded(num, per);
        vstd::arithmetic::div_mod::lemma_fundamental_div_mod(num, per);
        vstd::arithmetic::div_mod::lemma_mod_bound(num, per);
        let d = num / per;
        assert(per * d == d * per) by (nonlinear_arith);
        assert((2 * d - 1) * per == 2 * (d * per) - per) by (nonlinear_arith);
        assert((2 * d + 1) * per == 2 * (d * per) + per) by (nonlinear_arith);
        assert((2 * (d + 1) - 1) * per == 2 * (d * per) + per) by (nonlinear_arith);
        assert((2 * (d + 1) + 1) * per == 2 * (d * per) + 3 * per) by (nonlinear_arith);
        assert((2 * q - 1) * per <= 2 * num < (2 * q + 1) * per);
        if q > u64::MAX {
            assert((2 * n - 1) * per <= (2 * q - 1) * per) by (nonlinear_arith)
                requires
                    n <= q,
                    per > 0,
            ;
        }
    }
}

/// The window of the displayed speed: ten seconds for the first minute of a
/// pass, then a sixth of a second more for every second, up to sixty seconds
/// from the sixth minute on.
pub proof fn law_the_window_in_seconds(elapsed: u64)
    ensures
        elapsed < 60_000_000_000 ==> window_nanos(elapsed) == 10_000_000_000,
        elapsed >= 360_000_000_000 ==> window_nanos(elapsed) == 60_000_000_000,
        60_000_000_000 <= elapsed < 360_000_000_000 ==> 6 * (window_nanos(elapsed) - 10_000_000_000)
            <= elapsed - 60_000_000_000 < 6 * (window_nanos(elapsed) - 10_000_000_000) + 6,
{
}

/// What a sample does to the state. It is kept at the end. The first sample of
/// all starts a pass, and so does one with fewer bytes than the pass began with,
/// which also forgets every sample before it; else the start stays. Of the
/// samples before it those at the front that are older than the window go, and
/// no others.
pub proof fn law_what_a_sample_does(s: SpeedState, now: u64, bytes: u64)
    ensures
        ({
            let t = observed(s, now, bytes);
            let restarts = s.pass_start is None || bytes < (s.pass_start->0).1;
            let drops = s.samples.len() - (t.samples.len() - 1);
            let window = if s.responsive {
                10_000_000_000
            } else {
                window_nanos(
                    if restarts || now < (s.pass_start->0).0 {
                        0
                    } else {
                        (now - (s.pass_start->0).0) as u64
                    },
                )
            };
            &&& t.responsive == s.responsive
            &&& restarts ==> t.pass_start == Some((now, bytes))
            &&& !restarts ==> t.pass_start == s.pass_start
            &&& t.samples.len() > 0 && t.samples.last() == (now, bytes)
            &&& s.pass_start is Some && restarts ==> t.samples.len() == 1
            &&& s.pass_start is None || !restarts ==> {
                &&& 0 <= drops <= s.samples.len()
                &&& t.samples.drop_last() == s.samples.skip(drops)
                &&& forall|i: int|
                    0 <= i < drops ==> (#[trigger] s.samples[i]).0 + window < now
                &&& drops < s.samples.len() ==> s.samples[drops].0 + window >= now
            }
        }),
{
    let a = anchored(s, now, bytes);
    let t = observed(s, now, bytes);
    let window = if s.responsive {
        10_000_000_000u64
    } else {
        window_nanos(excess(now, (a.pass_start->0).0))
    };
    law_the_window_in_seconds(excess(now, (a.pass_start->0).0));
    if now >= window {
        let cutoff = (now - window) as u64;
        law_kept_samples_are_recent(a.samples, cutoff);
        lemma_dropped(a.samples, cutoff);
        assert(t.samples.drop_last() =~= recent(a.samples, cutoff));
    } else {
        assert(t.samples.drop_last() =~= a.samples);
        assert(a.samples.skip(0) =~= a.samples);
    }
}

/// Samples that are dropped are older than the cutoff.
proof fn lemma_dropped(samples: Seq<(u64, u64)>, cutoff: u64)
    ensures
        recent(samples, cutoff).len() <= samples.len(),
        forall|i: int|
            0 <= i < samples.len() - recent(samples, cutoff).len() ==> (#[trigger] samples[i]).0
                < cutoff,
    decreases samples.len(),
{
    if samples.len() > 0 && samples[0].0 < cutoff {
        let rest = samples.drop_first();
        lemma_dropped(rest, cutoff);
        let n = samples.len() - recent(samples, cutoff).len();
        assert forall|i: int| 0 <= i < n implies (#[trigger] samples[i]).0 < cutoff by {
            if i > 0 {
                assert(rest[i - 1] == samples[i]);
            }
        }
    }
}

/// What is given for a sample is the displayed speed and the seconds left after
/// it, both by the state with the sample in it.
pub proof fn law_a_sample_is_answered_by_the_state_after_it(
    s: SpeedState,
    now: u64,
    done: u64,
    total: u64,
)
    ensures
        ({
            let (t, (speed, left)) = sampled(s, now, done, total);
            &&& t == observed(s, now, done)
            &&& 0 <= per_second(display_rate(t)) <= 1_073_741_824 ==> speed == per_second(
                display_rate(t),
            )
            &&& left == seconds_left(eta_rate(t, now, display_rate(t)), done, total)
        }),
{
}

/// A rate that is believed is the rate itself, up to a gibibyte a second.
pub proof fn law_what_is_believed(r: Rate)
    ensures
        r.bytes * 1_000_000_000 <= 1_073_741_824 * r.nanos ==> believed(r) == r,
        r.bytes * 1_000_000_000 > 1_073_741_824 * r.nanos ==> believed(r) == (Rate {
            bytes: 1_073_741_824,
            nanos: 1_000_000_000,
        }),
        moving(r) <==> r.bytes * 10_000_000_000_000 > 1_048_576 * r.nanos,
{
}

} // verus!
