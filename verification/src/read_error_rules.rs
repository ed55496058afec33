//! The read-error policy in plain numbers: which failure is answered how, and
//! what each outcome changes.

use crate::read_error::{
    after_failure, after_success, failure_countable, failure_pct, failures_in, fresh_state,
    lemma_multiplied, window_after, ReadAction, ReadFailure, ReadState, SenseFamily,
    SENSE_KEY_HARDWARE_ERROR, SENSE_KEY_ILLEGAL_REQUEST, SENSE_KEY_MEDIUM_ERROR,
    SENSE_KEY_NOT_READY, SENSE_KEY_RECOVERED_ERROR, SENSE_KEY_UNIT_ATTENTION,
};
use crate::read_error_laws::after_successes;
use vstd::prelude::*;

verus! {

/// A pass starts with nothing counted. Both kinds of pass look at the last
/// sixteen reads; the first jumps at the first failure or at 12 percent, a
/// later one at 6 percent alone.
pub proof fn law_a_fresh_context(batch: u16, patch: bool)
    ensures
        ({
            let s = fresh_state(batch, patch);
            &&& s.batch == batch && s.patch_pass == patch
            &&& s.damage_window.len() == 0 && s.damage_window_max == 16
            &&& s.jump_multiplier == 1
            &&& patch ==> s.damage_threshold_pct == 6 && s.fast_jump_threshold
                == 0xffff_ffff_ffff_ffff
            &&& !patch ==> s.damage_threshold_pct == 12 && s.fast_jump_threshold == 1
            &&& !s.in_damage_zone && s.last_error_family is None
            &&& s.consecutive_good == 0 && s.consecutive_failures == 0
                && s.consecutive_outer_failures == 0
            &&& s.not_ready_retries == 0 && s.bridge_degradation_count == 0 && s.wedge_count == 0
            &&& s.total_errors == 0 && s.total_reads_ok == 0 && s.zones_entered == 0
                && s.jumps_taken == 0 && s.long_pause_escalations == 0 && s.marginal_recovered == 0
        }),
{
}

/// The window holds the last outcomes, as many as it has room for, the newest
/// at its end.
pub proof fn law_the_window_holds_the_last_outcomes(w: Seq<bool>, ok: bool, max: usize)
    requires
        w.len() <= max,
        0 < max,
    ensures
        ({
            let r = window_after(w, ok, max);
            &&& r.last() == ok
            &&& w.len() < max ==> r.len() == w.len() + 1 && r.drop_last() == w
            &&& w.len() == max ==> r.len() == max && r.drop_last() == w.skip(1)
        }),
{
    let r = window_after(w, ok, max);
    if w.len() < max {
        assert(r.drop_last() =~= w);
    } else {
        assert(r.drop_last() =~= w.skip(1));
    }
}

/// The percentage is that of the failures: each failed read in the window
/// counts for one, each good one for nothing, and the share is rounded down.
pub proof fn law_the_percentage_is_that_of_the_failures(w: Seq<bool>, ok: bool)
    ensures
        failures_in(Seq::<bool>::empty()) == 0,
        failures_in(w.push(ok)) == failures_in(w) + if ok {
            0int
        } else {
            1
        },
        failure_pct(Seq::<bool>::empty()) == 0,
        w.len() > 0 ==> failure_pct(w) * w.len() <= 100 * failures_in(w) < (failure_pct(w) + 1)
            * w.len(),
{
    assert(w.push(ok).drop_last() =~= w);
    if w.len() > 0 {
        let n = (failures_in(w) * 100) as int;
        let d = w.len() as int;
        vstd::arithmetic::div_mod::lemma_fundamental_div_mod(n, d);
        vstd::arithmetic::div_mod::lemma_mod_bound(n, d);
        assert(d * (n / d) == (n / d) * d) by (nonlinear_arith);
        assert((n / d + 1) * d == (n / d) * d + d) by (nonlinear_arith);
    }
}

/// What a good read changes: the runs of failures and retries end, the read is
/// counted and noted in the window. A damage zone is left with as many good
/// reads in a row as the window holds, and not before; until then the jumps
/// stay as long as they have grown, and the last error is remembered.
pub proof fn law_what_a_good_read_changes(s: ReadState)
    requires
        s.consecutive_good < u64::MAX,
        s.total_reads_ok < u64::MAX,
    ensures
        ({
            let t = after_success(s);
            let leaves = s.in_damage_zone && s.consecutive_good + 1 >= s.damage_window_max;
            &&& t.consecutive_good == s.consecutive_good + 1
            &&& t.total_reads_ok == s.total_reads_ok + 1
            &&& t.consecutive_failures == 0 && t.consecutive_outer_failures == 0
            &&& t.not_ready_retries == 0 && t.bridge_degradation_count == 0 && t.wedge_count == 0
            &&& t.damage_window == window_after(s.damage_window, true, s.damage_window_max)
            &&& leaves ==> !t.in_damage_zone && t.jump_multiplier == 1 && t.last_error_family is None
            &&& !leaves ==> t.in_damage_zone == s.in_damage_zone && t.jump_multiplier
                == s.jump_multiplier && t.last_error_family == s.last_error_family
            &&& t.total_errors == s.total_errors && t.zones_entered == s.zones_entered
                && t.jumps_taken == s.jumps_taken && t.long_pause_escalations
                == s.long_pause_escalations && t.marginal_recovered == s.marginal_recovered
            &&& t.batch == s.batch && t.patch_pass == s.patch_pass && t.damage_window_max
                == s.damage_window_max && t.damage_threshold_pct == s.damage_threshold_pct
                && t.fast_jump_threshold == s.fast_jump_threshold
        }),
{
}

/// A damage zone is not left early: however many good reads follow a failure,
/// as long as they are fewer than the window holds, the zone goes on and the
/// jumps stay as long as they have grown.
pub proof fn law_a_damage_zone_is_not_left_early(s: ReadState, n: nat)
    requires
        s.in_damage_zone,
        s.consecutive_good + n < s.damage_window_max,
        s.total_reads_ok + n <= u64::MAX,
    ensures
        after_successes(s, n).in_damage_zone,
        after_successes(s, n).jump_multiplier == s.jump_multiplier,
        after_successes(s, n).last_error_family == s.last_error_family,
        after_successes(s, n).zones_entered == s.zones_entered,
        after_successes(s, n).consecutive_good == s.consecutive_good + n,
        after_successes(s, n).damage_window_max == s.damage_window_max,
        after_successes(s, n).total_reads_ok == s.total_reads_ok + n,
    decreases n,
{
    if n > 0 {
        law_a_damage_zone_is_not_left_early(s, (n - 1) as nat);
        law_what_a_good_read_changes(after_successes(s, (n - 1) as nat));
    }
}

/// The sense key of a failure, zero where the drive gave none.
pub open spec fn key_of(f: ReadFailure) -> int {
    if f.sense_key is Some {
        f.sense_key->0 as int
    } else {
        0
    }
}

/// A failure that no read can follow: the transport is lost, or the medium has
/// changed.
pub open spec fn is_final(f: ReadFailure) -> bool {
    f.transport_failure || f.unit_attention
}

/// A degraded bridge that has not yet had its five retries since a good read.
pub open spec fn waits_for_the_bridge(s: ReadState, f: ReadFailure) -> bool {
    !is_final(f) && f.bridge_degradation && s.bridge_degradation_count < 5
}

/// A drive that is not ready and has not yet had its three retries in a row.
pub open spec fn waits_for_the_drive(s: ReadState, f: ReadFailure) -> bool {
    !is_final(f) && !waits_for_the_bridge(s, f) && key_of(f) == 2 && s.not_ready_retries < 3
}

/// A failure that is neither final nor to be waited out.
pub open spec fn stands(s: ReadState, f: ReadFailure) -> bool {
    !is_final(f) && !waits_for_the_bridge(s, f) && !waits_for_the_drive(s, f)
}

/// What every failure changes, whatever is done about it.
pub proof fn law_what_every_failure_changes(s: ReadState, f: ReadFailure)
    requires
        failure_countable(s),
    ensures
        ({
            let t = after_failure(s, f).0;
            &&& t.consecutive_failures == s.consecutive_failures + 1
            &&& t.consecutive_good == 0
            &&& t.total_errors == s.total_errors + 1
            &&& t.last_error_family == Some(f.family)
            &&& t.total_reads_ok == s.total_reads_ok
            &&& s.in_damage_zone ==> t.in_damage_zone
            &&& key_of(f) != 2 ==> t.not_ready_retries == 0
            &&& t.batch == s.batch && t.patch_pass == s.patch_pass && t.damage_window_max
                == s.damage_window_max && t.damage_threshold_pct == s.damage_threshold_pct
                && t.fast_jump_threshold == s.fast_jump_threshold
        }),
{
}

/// When a failure ends the pass: when the transport is lost or the medium has
/// changed, and with the sixteenth wedge in a row.
pub proof fn law_when_a_failure_ends_the_pass(s: ReadState, f: ReadFailure)
    requires
        failure_countable(s),
    ensures
        after_failure(s, f).1 is AbortPass <==> is_final(f) || (stands(s, f) && (key_of(f) == 4
            || key_of(f) == 5) && s.wedge_count + 1 >= 16),
{
}

/// When a read is tried again: on a degraded bridge after fifteen seconds, up to
/// five times; on a drive that is not ready after three seconds, up to three
/// times. Nothing but the count of retries is then spent.
pub proof fn law_when_a_read_is_tried_again(s: ReadState, f: ReadFailure)
    requires
        failure_countable(s),
    ensures
        ({
            let (t, a) = after_failure(s, f);
            &&& a is Retry <==> waits_for_the_bridge(s, f) || waits_for_the_drive(s, f)
            &&& waits_for_the_bridge(s, f) ==> a == (ReadAction::Retry { pause_secs: 15 })
                && t.bridge_degradation_count == s.bridge_degradation_count + 1
            &&& waits_for_the_drive(s, f) ==> a == (ReadAction::Retry { pause_secs: 3 })
                && t.not_ready_retries == s.not_ready_retries + 1
            &&& !waits_for_the_bridge(s, f) ==> t.bridge_degradation_count
                == s.bridge_degradation_count
            &&& a is Retry ==> t.damage_window == s.damage_window && t.jumps_taken == s.jumps_taken
                && t.zones_entered == s.zones_entered && t.wedge_count == s.wedge_count
                && t.in_damage_zone == s.in_damage_zone && t.jump_multiplier == s.jump_multiplier
                && t.marginal_recovered == s.marginal_recovered
        }),
{
}

/// A failure that stands is a sign of damage, and opens a damage zone where
/// there is none, unless the drive recovered the read.
pub proof fn law_when_a_damage_zone_begins(s: ReadState, f: ReadFailure)
    requires
        failure_countable(s),
    ensures
        ({
            let t = after_failure(s, f).0;
            let begins = stands(s, f) && key_of(f) != 1 && !s.in_damage_zone;
            &&& t.in_damage_zone <==> s.in_damage_zone || begins
            &&& t.zones_entered == s.zones_entered + if begins {
                1int
            } else {
                0
            }
        }),
{
}

/// What is done about a wedged drive, one that answers with a hardware error or
/// an illegal request: skip ahead, a gigabyte in the first pass and sixty-four
/// sectors in a later one, and let the drive rest for thirty seconds; until the
/// sixteenth in a row.
pub proof fn law_what_is_done_about_a_wedge(s: ReadState, f: ReadFailure)
    requires
        failure_countable(s),
        stands(s, f),
        key_of(f) == 4 || key_of(f) == 5,
    ensures
        ({
            let (t, a) = after_failure(s, f);
            &&& t.wedge_count == s.wedge_count + 1
            &&& s.wedge_count + 1 < 16 && !s.patch_pass ==> a == (ReadAction::JumpAhead {
                sectors: 524_288,
                pause_secs: 30,
            })
            &&& s.wedge_count + 1 < 16 && s.patch_pass ==> a == (ReadAction::JumpAhead {
                sectors: 64,
                pause_secs: 30,
            })
            &&& s.wedge_count + 1 < 16 ==> t.jumps_taken == s.jumps_taken + 1
            &&& s.wedge_count + 1 >= 16 ==> a is AbortPass && t.jumps_taken == s.jumps_taken
            &&& t.damage_window == s.damage_window
            &&& t.jump_multiplier == s.jump_multiplier
            &&& t.consecutive_outer_failures == s.consecutive_outer_failures + 1
        }),
{
}

/// A read that the drive recovered is distrusted: the block is skipped after
/// five seconds and counted as marginal, and that is all.
pub proof fn law_a_recovered_read_is_distrusted(s: ReadState, f: ReadFailure)
    requires
        failure_countable(s),
        stands(s, f),
        key_of(f) == 1,
    ensures
        ({
            let (t, a) = after_failure(s, f);
            &&& a == (ReadAction::SkipBlock { pause_secs: 5 })
            &&& t.marginal_recovered == s.marginal_recovered + 1
            &&& t.damage_window == s.damage_window && t.jumps_taken == s.jumps_taken
                && t.wedge_count == s.wedge_count && t.jump_multiplier == s.jump_multiplier
        }),
{
}

/// What is done about damage, any other failure that stands. It is noted in the
/// window. In the first pass the failure that opens a damage zone is followed
/// by thirty seconds, any other by five. The block alone is skipped, unless
/// there have been as many failures in a row as the context allows, or the
/// window is full and its share of failures too high: then the read jumps 1024
/// batches times the multiplier, which doubles up to 64, and rests two seconds
/// more.
pub proof fn law_what_is_done_about_damage(s: ReadState, f: ReadFailure)
    requires
        failure_countable(s),
        stands(s, f),
        key_of(f) != 1 && key_of(f) != 4 && key_of(f) != 5,
    ensures
        ({
            let (t, a) = after_failure(s, f);
            let w = window_after(s.damage_window, false, s.damage_window_max);
            let jumps = s.consecutive_outer_failures + 1 >= s.fast_jump_threshold || (w.len()
                >= s.damage_window_max && failure_pct(w) >= s.damage_threshold_pct);
            let pause = if !s.patch_pass && !s.in_damage_zone {
                30u64
            } else {
                5
            };
            let growth = if s.jump_multiplier <= 64 {
                s.jump_multiplier as int
            } else {
                64
            };
            &&& t.damage_window == w
            &&& t.wedge_count == s.wedge_count
            &&& t.marginal_recovered == s.marginal_recovered
            &&& !jumps ==> a == (ReadAction::SkipBlock { pause_secs: pause }) && t.jump_multiplier
                == s.jump_multiplier && t.jumps_taken == s.jumps_taken
                && t.consecutive_outer_failures == s.consecutive_outer_failures + 1
            &&& jumps ==> a == (ReadAction::JumpAhead {
                sectors: (1024 * s.batch * growth) as u64,
                pause_secs: (pause + 2) as u64,
            })
            &&& jumps ==> t.jumps_taken == s.jumps_taken + 1 && t.consecutive_outer_failures == 0
                && t.jump_multiplier == if 2 * s.jump_multiplier <= 64 {
                2 * s.jump_multiplier
            } else {
                64
            }
            &&& t.long_pause_escalations == s.long_pause_escalations + if !(!s.patch_pass
                && !s.in_damage_zone) && s.consecutive_failures + 1 >= 10 {
                1int
            } else {
                0
            }
        }),
{
    let growth = if s.jump_multiplier <= 64 {
        s.jump_multiplier as int
    } else {
        64
    };
    lemma_multiplied(1024 * s.batch, growth);
    assert(0 <= 1024 * s.batch * growth <= 1024 * 65535 * 64) by (nonlinear_arith)
        requires
            0 <= growth <= 64,
            0 <= s.batch <= 65535,
    ;
}

/// The sense keys, by their SCSI numbers.
pub proof fn law_sense_keys()
    ensures
        SENSE_KEY_RECOVERED_ERROR == 1,
        SENSE_KEY_NOT_READY == 2,
        SENSE_KEY_MEDIUM_ERROR == 3,
        SENSE_KEY_HARDWARE_ERROR == 4,
        SENSE_KEY_ILLEGAL_REQUEST == 5,
        SENSE_KEY_UNIT_ATTENTION == 6,
{
}

/// The families that a wedged drive answers with.
pub proof fn law_wedge_families(f: SenseFamily)
    ensures
        f.wedges() <==> f is Hardware || f is IllegalRequest,
{
}

} // verus!
