//! What the read-error policy keeps, whatever reads succeed or fail.

use crate::read_error::{
    after_failure, after_success, failure_countable, fresh_state, lemma_multiplied, wedge_key,
    ReadAction, ReadFailure, ReadState, BRIDGE_DEGRADATION_MAX_RETRIES,
    JUMP_BASE_SECTORS, MAX_JUMP_MULTIPLIER, NOT_READY_MAX_RETRIES, SENSE_KEY_NOT_READY,
    SENSE_KEY_RECOVERED_ERROR,
    WEDGE_ABORT_THRESHOLD, WEDGE_JUMP_SECTORS, ZONE_ENTRY_COOLDOWN_SECS,
};
use vstd::prelude::*;

verus! {

/// The window holds no more than it should, no retry budget is overdrawn, and
/// the jump distance is only ever inflated inside a damage zone, up to its cap.
pub open spec fn disciplined(s: ReadState) -> bool {
    &&& s.damage_window.len() <= s.damage_window_max
    &&& s.not_ready_retries <= NOT_READY_MAX_RETRIES
    &&& s.bridge_degradation_count <= BRIDGE_DEGRADATION_MAX_RETRIES
    &&& 1 <= s.jump_multiplier <= MAX_JUMP_MULTIPLIER
    &&& !s.in_damage_zone ==> s.jump_multiplier == 1
}

/// A fresh context is disciplined, and every outcome leaves it so.
pub proof fn law_outcomes_keep_discipline(batch: u16, patch: bool, s: ReadState, f: ReadFailure)
    requires
        disciplined(s),
    ensures
        disciplined(fresh_state(batch, patch)),
        disciplined(after_success(s)),
        disciplined(after_failure(s, f).0),
{
}

/// Retries that are left for a drive that is not ready.
pub open spec fn not_ready_left(s: ReadState) -> int {
    NOT_READY_MAX_RETRIES - s.not_ready_retries
}

/// Retries that are left for a degraded bridge.
pub open spec fn bridge_left(s: ReadState) -> int {
    BRIDGE_DEGRADATION_MAX_RETRIES - s.bridge_degradation_count
}

/// The longest run of retries that can still follow: each retry for the bridge
/// may be followed by a whole run for a drive that is not ready.
pub open spec fn retries_left(s: ReadState) -> int {
    bridge_left(s) * (NOT_READY_MAX_RETRIES + 1) + not_ready_left(s)
}

/// Each retry uses up one of the three of a drive that is not ready, or one of
/// the five of a degraded bridge and none of the other. The five come back with
/// a good read alone. So retries of both kinds, however they alternate, end
/// after at most twenty-three in a row.
pub proof fn law_retries_run_out(s: ReadState, f: ReadFailure)
    requires
        disciplined(s),
    ensures
        after_failure(s, f).1 is Retry ==> {
            let t = after_failure(s, f).0;
            ||| bridge_left(t) == bridge_left(s) - 1 && not_ready_left(t) >= not_ready_left(s)
            ||| bridge_left(t) == bridge_left(s) && not_ready_left(t) == not_ready_left(s) - 1
        },
        after_failure(s, f).1 is Retry ==> retries_left(after_failure(s, f).0) < retries_left(s),
        bridge_left(after_failure(s, f).0) <= bridge_left(s),
        0 <= not_ready_left(s) <= 3,
        0 <= bridge_left(s) <= 5,
        0 <= retries_left(s) <= 23,
{
}

/// The count of NOT READY retries is that of the run that is going on: any
/// other answer of the drive, a good read or a failure of another kind, sets it
/// back to zero.
pub proof fn law_other_answers_reset_the_not_ready_run(s: ReadState, f: ReadFailure)
    ensures
        after_success(s).not_ready_retries == 0,
        f.key() != SENSE_KEY_NOT_READY ==> after_failure(s, f).0.not_ready_retries == 0,
{
}

/// A read that is retried, a lost transport, a changed medium and a read that
/// the drive recovered are no sign of a damage zone: they leave the transition,
/// and the cooldown it buys, to the failure that is.
pub proof fn law_passing_conditions_enter_no_zone(s: ReadState, f: ReadFailure)
    requires
        after_failure(s, f).1 is Retry || f.transport_failure || f.unit_attention || f.key()
            == SENSE_KEY_RECOVERED_ERROR,
    ensures
        after_failure(s, f).0.in_damage_zone == s.in_damage_zone,
        after_failure(s, f).0.zones_entered == s.zones_entered,
        after_failure(s, f).0.jumps_taken == s.jumps_taken,
        after_failure(s, f).0.jump_multiplier == s.jump_multiplier,
        !(after_failure(s, f).1 is JumpAhead),
{
}

/// Entering a damage zone in the first pass gives the drive its long cooldown,
/// or ends the pass; and it is counted once.
pub proof fn law_zone_entry_cools_down(s: ReadState, f: ReadFailure)
    requires
        failure_countable(s),
        !s.patch_pass,
        !s.in_damage_zone,
        after_failure(s, f).0.in_damage_zone,
    ensures
        after_failure(s, f).0.zones_entered == s.zones_entered + 1,
        match after_failure(s, f).1 {
            ReadAction::Retry { pause_secs } => false,
            ReadAction::SkipBlock { pause_secs } => pause_secs >= ZONE_ENTRY_COOLDOWN_SECS,
            ReadAction::JumpAhead { sectors, pause_secs } => pause_secs
                >= ZONE_ENTRY_COOLDOWN_SECS,
            ReadAction::AbortPass => true,
        },
{
}

/// A single jump is bounded: by one gigabyte on a wedge, else by the cap on the
/// multiplier.
pub proof fn law_jumps_are_bounded(s: ReadState, f: ReadFailure)
    requires
        failure_countable(s),
    ensures
        after_failure(s, f).1 matches ReadAction::JumpAhead { sectors, pause_secs } ==> if wedge_key(
            f.key(),
        ) {
            sectors <= WEDGE_JUMP_SECTORS
        } else {
            sectors <= JUMP_BASE_SECTORS * s.batch * MAX_JUMP_MULTIPLIER
        },
{
    let m = if s.jump_multiplier <= 64 {
        s.jump_multiplier as int
    } else {
        64
    };
    assert(1024 * s.batch * m <= 1024 * s.batch * 64) by (nonlinear_arith)
        requires
            0 <= m <= 64,
            0 <= s.batch,
    ;
    assert(1024 * s.batch * 64 <= 1024 * 65535 * 64);
    lemma_multiplied(1024 * s.batch, m);
}

/// The state after the same failure has come a number of times in a row.
pub open spec fn after_failures(s: ReadState, f: ReadFailure, n: nat) -> ReadState
    decreases n,
{
    if n == 0 {
        s
    } else {
        after_failure(after_failures(s, f, (n - 1) as nat), f).0
    }
}

/// A wedged drive: neither the transport nor the medium changed, and the sense
/// key is one that a wedged drive answers with.
pub open spec fn is_wedge(f: ReadFailure) -> bool {
    !f.transport_failure && !f.unit_attention && !f.bridge_degradation && wedge_key(f.key())
}

/// A drive that stays wedged ends the pass at the sixteenth wedge, and not
/// before: each one up to then skips ahead.
pub proof fn law_a_wedged_drive_ends_the_pass(s: ReadState, f: ReadFailure, n: nat)
    requires
        is_wedge(f),
        s.wedge_count == 0,
        s.jumps_taken + 16 <= u64::MAX,
        n < WEDGE_ABORT_THRESHOLD,
    ensures
        after_failures(s, f, n).wedge_count == n,
        after_failure(after_failures(s, f, n), f).1 is AbortPass <==> n + 1
            == WEDGE_ABORT_THRESHOLD,
        after_failure(after_failures(s, f, n), f).1 is JumpAhead <==> n + 1
            < WEDGE_ABORT_THRESHOLD,
    decreases n,
{
    if n > 0 {
        law_a_wedged_drive_ends_the_pass(s, f, (n - 1) as nat);
    }
}

/// The state after a number of successful reads in a row.
pub open spec fn after_successes(s: ReadState, n: nat) -> ReadState
    decreases n,
{
    if n == 0 {
        s
    } else {
        after_success(after_successes(s, (n - 1) as nat))
    }
}

proof fn lemma_successes_counted(s: ReadState, n: nat)
    requires
        s.consecutive_good + n <= u64::MAX,
    ensures
        after_successes(s, n).consecutive_good == s.consecutive_good + n,
        after_successes(s, n).damage_window_max == s.damage_window_max,
        !s.in_damage_zone ==> !after_successes(s, n).in_damage_zone,
    decreases n,
{
    if n > 0 {
        lemma_successes_counted(s, (n - 1) as nat);
    }
}

/// As many good reads in a row as the window holds end a damage zone, and the
/// next one starts at the base jump distance.
pub proof fn law_enough_good_reads_leave_the_zone(s: ReadState, n: nat)
    requires
        disciplined(s),
        n > 0,
        n >= s.damage_window_max,
        s.consecutive_good + n <= u64::MAX,
    ensures
        !after_successes(s, n).in_damage_zone,
        after_successes(s, n).jump_multiplier == 1,
{
    lemma_successes_counted(s, (n - 1) as nat);
    lemma_successes_disciplined(s, (n - 1) as nat);
}

proof fn lemma_successes_disciplined(s: ReadState, n: nat)
    requires
        disciplined(s),
    ensures
        disciplined(after_successes(s, n)),
    decreases n,
{
    if n > 0 {
        lemma_successes_disciplined(s, (n - 1) as nat);
    }
}

} // verus!
