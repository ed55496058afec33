//! What to do when a sector read fails.
//!
//! The read loop reports every outcome to a [`ReadCtx`]: a success through
//! [`ReadCtx::on_success`], a failure through [`handle_read_error`], which
//! updates the counters, the damage window and the retry budgets and answers
//! with the [`ReadAction`] the loop has to perform.

use vstd::prelude::*;

verus! {

/// SCSI sense key of a read that succeeded after a retry inside the drive.
pub const SENSE_KEY_RECOVERED_ERROR: u8 = 0x01;

/// SCSI sense key of a drive that is not ready.
pub const SENSE_KEY_NOT_READY: u8 = 0x02;

/// SCSI sense key of an unreadable medium.
pub const SENSE_KEY_MEDIUM_ERROR: u8 = 0x03;

/// SCSI sense key of a hardware error.
pub const SENSE_KEY_HARDWARE_ERROR: u8 = 0x04;

/// SCSI sense key of a command the drive refuses to parse.
pub const SENSE_KEY_ILLEGAL_REQUEST: u8 = 0x05;

/// SCSI sense key of a changed medium or bus.
pub const SENSE_KEY_UNIT_ATTENTION: u8 = 0x06;

/// Pause between a failed read and the next: error, the drive's own retries,
/// return, cooldown, next read.
pub const FAIL_PAUSE_SECS: u64 = 5;

/// Cooldown on entering a damage zone. Seven errors in as many seconds can push
/// a drive's firmware into failing every read until the disc is ejected; thirty
/// seconds after the first one prevents that.
pub const ZONE_ENTRY_COOLDOWN_SECS: u64 = 30;

/// Pause within a long streak of failures.
pub const CONSECUTIVE_FAIL_LONG_PAUSE_SECS: u64 = 5;

/// How many failures make a long streak.
pub const CONSECUTIVE_FAIL_LONG_PAUSE_THRESHOLD: u64 = 10;

/// What a damage jump adds to the pause.
pub const POST_JUMP_EXTRA_PAUSE_SECS: u64 = 2;

/// Pause before a drive that is not ready is asked again.
pub const NOT_READY_PAUSE_SECS: u64 = 3;

/// How often a drive that is not ready is asked again.
pub const NOT_READY_MAX_RETRIES: u32 = 3;

/// Pause before a degraded bridge is asked again.
pub const BRIDGE_DEGRADATION_PAUSE_SECS: u64 = 15;

/// How often a degraded bridge is asked again.
pub const BRIDGE_DEGRADATION_MAX_RETRIES: u32 = 5;

/// Base of the damage-jump distance, per sector of the batch.
pub const JUMP_BASE_SECTORS: u64 = 1024;

/// Most that the damage-jump distance is multiplied by.
pub const MAX_JUMP_MULTIPLIER: u64 = 64;

/// Jump on a firmware wedge in the first pass: one gigabyte.
pub const WEDGE_JUMP_SECTORS: u64 = 524_288;

/// Jump on a firmware wedge in a patch pass, which must not abandon the range
/// it was sent to.
pub const WEDGE_PASS_N_SKIP_SECTORS: u64 = 64;

/// Cooldown after each wedge.
pub const WEDGE_PAUSE_SECS: u64 = 30;

/// How many wedges without a good read between them end the pass.
pub const WEDGE_ABORT_THRESHOLD: u64 = 16;

/// Share of failures in the damage window at which a patch pass jumps.
pub const PATCH_DAMAGE_THRESHOLD_PCT: usize = 6;

/// Share of failures in the damage window at which the first pass jumps.
pub const SWEEP_DAMAGE_THRESHOLD_PCT: usize = 12;

/// How many outcomes the damage window holds.
pub const DAMAGE_WINDOW: usize = 16;

/// The families of SCSI sense keys that matter to recovery.
#[derive(Debug, Clone, Copy, PartialEq, Eq, Structural)]
pub enum SenseFamily {
    Medium,
    Hardware,
    IllegalRequest,
    NotReady,
    Other,
}

impl SenseFamily {
    /// Whether the family is the one a drive in fast-fail mode answers with.
    pub open spec fn wedges(self) -> bool {
        self == SenseFamily::Hardware || self == SenseFamily::IllegalRequest
    }

    /// Whether the family is the one a drive in fast-fail mode answers with.
    pub fn is_wedge_family(self) -> (r: bool)
        ensures
            r == self.wedges(),
    {
        match self {
            SenseFamily::Hardware | SenseFamily::IllegalRequest => true,
            SenseFamily::Medium | SenseFamily::NotReady | SenseFamily::Other => false,
        }
    }
}

/// A failed read, as far as recovery looks at it.
#[derive(Debug, Clone, Copy, PartialEq, Eq, Structural)]
pub struct ReadFailure {
    /// The transport to the drive failed: bridge crash, disconnect.
    pub transport_failure: bool,
    /// The drive reports a change of medium or bus.
    pub unit_attention: bool,
    /// The bridge answered with a status that no drive sends.
    pub bridge_degradation: bool,
    /// The sense key, where the drive gave one.
    pub sense_key: Option<u8>,
    /// The family of the sense key.
    pub family: SenseFamily,
}

impl ReadFailure {
    /// The sense key, or zero where there is none.
    pub open spec fn key(self) -> u8 {
        match self.sense_key {
            Some(k) => k,
            None => 0,
        }
    }
}

/// What the caller should do after a read failure. The caller owns the side
/// effects; this only says which.
#[derive(Debug, Clone, Copy, PartialEq, Eq, Structural)]
pub enum ReadAction {
    /// Pause, then read the same place again.
    Retry { pause_secs: u64 },
    /// Mark the failed block for a later pass, pause, go on after it.
    SkipBlock { pause_secs: u64 },
    /// Mark the failed block and the given number of sectors after it for a
    /// later pass, pause, go on after them.
    JumpAhead { sectors: u64, pause_secs: u64 },
    /// Nothing more can be done in this pass.
    AbortPass,
}

/// End-of-pass totals: how damaged a disc is, in one line.
#[derive(Debug, Clone, Copy, PartialEq, Eq, Structural)]
pub struct PassSummary {
    pub total_reads_ok: u64,
    pub total_errors: u64,
    pub zones_entered: u64,
    pub jumps_taken: u64,
    pub long_pause_escalations: u64,
    /// Reads the drive had to recover, distrusted and queued for another pass.
    pub marginal_recovered: u64,
}

/// The bookkeeping a read loop keeps across reads.
#[derive(Debug)]
pub struct ReadCtx {
    /// Sectors per read. Scales the damage-jump distance.
    pub batch: u16,
    /// Successful reads since the last failure.
    pub consecutive_good: u64,
    /// Failed reads since the last success.
    pub consecutive_failures: u64,
    /// Failed reads since the last success or damage jump.
    pub consecutive_outer_failures: u64,
    /// Recent outcomes, oldest first; `true` is a success.
    pub damage_window: Vec<bool>,
    /// How many outcomes `damage_window` keeps.
    pub damage_window_max: usize,
    /// Share of failures in a full window, in percent, at which to jump.
    pub damage_threshold_pct: usize,
    /// How many failures in a row make a jump, however full the window is.
    pub fast_jump_threshold: u64,
    /// Multiplier of the damage-jump distance. Doubles with each jump and is
    /// one again once a damage zone is left.
    pub jump_multiplier: u64,
    /// Retries used on a drive that is not ready. Zero again after any other
    /// answer.
    pub not_ready_retries: u32,
    /// Retries used on a degraded bridge. Zero again after a good read.
    pub bridge_degradation_count: u32,
    /// Whether this is a patch pass rather than the first.
    pub patch_pass: bool,
    /// Firmware wedges since the last successful read.
    pub wedge_count: u64,
    /// The sense family of the last failure in this damage zone.
    pub last_error_family: Option<SenseFamily>,
    pub total_errors: u64,
    pub total_reads_ok: u64,
    pub zones_entered: u64,
    pub jumps_taken: u64,
    /// Whether the loop is between a first failure and enough good reads after
    /// the last.
    pub in_damage_zone: bool,
    /// Pauses taken within a long streak of failures.
    pub long_pause_escalations: u64,
    /// Reads the drive had to recover.
    pub marginal_recovered: u64,
}

/// What a [`ReadCtx`] holds.
#[verifier::ext_equal]
pub struct ReadState {
    pub batch: u16,
    pub consecutive_good: u64,
    pub consecutive_failures: u64,
    pub consecutive_outer_failures: u64,
    pub damage_window: Seq<bool>,
    pub damage_window_max: usize,
    pub damage_threshold_pct: usize,
    pub fast_jump_threshold: u64,
    pub jump_multiplier: u64,
    pub not_ready_retries: u32,
    pub bridge_degradation_count: u32,
    pub patch_pass: bool,
    pub wedge_count: u64,
    pub last_error_family: Option<SenseFamily>,
    pub total_errors: u64,
    pub total_reads_ok: u64,
    pub zones_entered: u64,
    pub jumps_taken: u64,
    pub in_damage_zone: bool,
    pub long_pause_escalations: u64,
    pub marginal_recovered: u64,
}

impl View for ReadCtx {
    type V = ReadState;

    open spec fn view(&self) -> ReadState {
        ReadState {
            batch: self.batch,
            consecutive_good: self.consecutive_good,
            consecutive_failures: self.consecutive_failures,
            consecutive_outer_failures: self.consecutive_outer_failures,
            damage_window: self.damage_window@,
            damage_window_max: self.damage_window_max,
            damage_threshold_pct: self.damage_threshold_pct,
            fast_jump_threshold: self.fast_jump_threshold,
            jump_multiplier: self.jump_multiplier,
            not_ready_retries: self.not_ready_retries,
            bridge_degradation_count: self.bridge_degradation_count,
            patch_pass: self.patch_pass,
            wedge_count: self.wedge_count,
            last_error_family: self.last_error_family,
            total_errors: self.total_errors,
            total_reads_ok: self.total_reads_ok,
            zones_entered: self.zones_entered,
            jumps_taken: self.jumps_taken,
            in_damage_zone: self.in_damage_zone,
            long_pause_escalations: self.long_pause_escalations,
            marginal_recovered: self.marginal_recovered,
        }
    }
}

// ---------------------------------------------------------------------------
// The policy
// ---------------------------------------------------------------------------

/// A fresh state: nothing read yet.
pub open spec fn fresh_state(batch: u16, patch_pass: bool) -> ReadState {
    ReadState {
        batch,
        consecutive_good: 0,
        consecutive_failures: 0,
        consecutive_outer_failures: 0,
        damage_window: seq![],
        damage_window_max: DAMAGE_WINDOW,
        damage_threshold_pct: if patch_pass {
            PATCH_DAMAGE_THRESHOLD_PCT
        } else {
            SWEEP_DAMAGE_THRESHOLD_PCT
        },
        fast_jump_threshold: if patch_pass {
            u64::MAX
        } else {
            1
        },
        jump_multiplier: 1,
        not_ready_retries: 0,
        bridge_degradation_count: 0,
        patch_pass,
        wedge_count: 0,
        last_error_family: None,
        total_errors: 0,
        total_reads_ok: 0,
        zones_entered: 0,
        jumps_taken: 0,
        in_damage_zone: false,
        long_pause_escalations: 0,
        marginal_recovered: 0,
    }
}

/// A window with one more outcome; the oldest leaves where there is no room.
pub open spec fn window_after(w: Seq<bool>, ok: bool, max: usize) -> Seq<bool> {
    if w.len() + 1 > max {
        w.push(ok).drop_first()
    } else {
        w.push(ok)
    }
}

/// How many outcomes of a window are failures.
pub open spec fn failures_in(w: Seq<bool>) -> nat
    decreases w.len(),
{
    if w.len() == 0 {
        0
    } else {
        failures_in(w.drop_last()) + if w.last() {
            0nat
        } else {
            1
        }
    }
}

/// The share of failures in a window, in whole percent.
pub open spec fn failure_pct(w: Seq<bool>) -> int {
    if w.len() == 0 {
        0
    } else {
        (failures_in(w) * 100) as int / w.len() as int
    }
}

/// The state after a successful read.
pub open spec fn after_success(s: ReadState) -> ReadState {
    let good = (s.consecutive_good + 1) as u64;
    let leaves = s.in_damage_zone && good >= s.damage_window_max;
    ReadState {
        consecutive_good: good,
        consecutive_failures: 0,
        consecutive_outer_failures: 0,
        not_ready_retries: 0,
        bridge_degradation_count: 0,
        wedge_count: 0,
        damage_window: window_after(s.damage_window, true, s.damage_window_max),
        total_reads_ok: (s.total_reads_ok + 1) as u64,
        in_damage_zone: s.in_damage_zone && !leaves,
        last_error_family: if leaves {
            None
        } else {
            s.last_error_family
        },
        jump_multiplier: if leaves {
            1
        } else {
            s.jump_multiplier
        },
        ..s
    }
}

/// The state with a failure counted. Any answer but NOT READY ends a run of
/// NOT READY retries.
pub open spec fn failure_counted(s: ReadState, f: ReadFailure) -> ReadState {
    ReadState {
        not_ready_retries: if f.key() == SENSE_KEY_NOT_READY {
            s.not_ready_retries
        } else {
            0
        },
        consecutive_failures: (s.consecutive_failures + 1) as u64,
        consecutive_good: 0,
        consecutive_outer_failures: (s.consecutive_outer_failures + 1) as u64,
        total_errors: (s.total_errors + 1) as u64,
        last_error_family: Some(f.family),
        ..s
    }
}

/// Whether a failure is the transition from clean to damaged. A read that the
/// drive recovered is no sign of a damage zone.
pub open spec fn enters_zone(s: ReadState, f: ReadFailure) -> bool {
    !s.in_damage_zone && f.sense_key != Some(SENSE_KEY_RECOVERED_ERROR)
}

/// The state once a failure is known to be more than a passing condition.
pub open spec fn zone_noted(s: ReadState, f: ReadFailure) -> ReadState {
    ReadState {
        in_damage_zone: s.in_damage_zone || enters_zone(s, f),
        zones_entered: if enters_zone(s, f) {
            (s.zones_entered + 1) as u64
        } else {
            s.zones_entered
        },
        ..s
    }
}

/// A firmware wedge: skip ahead and let the drive cool down, until too many
/// came in a row.
pub open spec fn wedge_outcome(s: ReadState) -> (ReadState, ReadAction) {
    let wedges = (s.wedge_count + 1) as u64;
    if wedges >= WEDGE_ABORT_THRESHOLD {
        (ReadState { wedge_count: wedges, ..s }, ReadAction::AbortPass)
    } else {
        (
            ReadState { wedge_count: wedges, jumps_taken: (s.jumps_taken + 1) as u64, ..s },
            ReadAction::JumpAhead {
                sectors: if s.patch_pass {
                    WEDGE_PASS_N_SKIP_SECTORS
                } else {
                    WEDGE_JUMP_SECTORS
                },
                pause_secs: WEDGE_PAUSE_SECS,
            },
        )
    }
}

/// Whether a state calls for a damage jump: too many failures in a row, or too
/// many in a full window.
pub open spec fn jump_due(s: ReadState) -> bool {
    ||| s.consecutive_outer_failures >= s.fast_jump_threshold
    ||| s.damage_window.len() >= s.damage_window_max && failure_pct(s.damage_window)
        >= s.damage_threshold_pct
}

/// The lesser of two numbers.
pub open spec fn least(a: int, b: int) -> int {
    if a <= b {
        a
    } else {
        b
    }
}

/// A distance times a multiplier. The multipliers that doubling leads to are
/// spelled out.
pub open spec fn multiplied(x: int, m: int) -> int {
    if m == 1 {
        x
    } else if m == 2 {
        2 * x
    } else if m == 4 {
        4 * x
    } else if m == 8 {
        8 * x
    } else if m == 16 {
        16 * x
    } else if m == 32 {
        32 * x
    } else if m == 64 {
        64 * x
    } else {
        m * x
    }
}

/// How far a damage jump goes.
pub open spec fn jump_distance(s: ReadState) -> u64 {
    multiplied(
        JUMP_BASE_SECTORS * s.batch,
        least(s.jump_multiplier as int, MAX_JUMP_MULTIPLIER as int),
    ) as u64
}

/// A damaged medium: note it in the window, pause, and skip the block or jump.
pub open spec fn damage_outcome(s: ReadState, entered: bool) -> (ReadState, ReadAction) {
    let cooldown = entered && !s.patch_pass;
    let streak = !cooldown && s.consecutive_failures >= CONSECUTIVE_FAIL_LONG_PAUSE_THRESHOLD;
    let pause = if cooldown {
        ZONE_ENTRY_COOLDOWN_SECS
    } else if streak {
        CONSECUTIVE_FAIL_LONG_PAUSE_SECS
    } else {
        FAIL_PAUSE_SECS
    };
    let noted = ReadState {
        damage_window: window_after(s.damage_window, false, s.damage_window_max),
        long_pause_escalations: if streak {
            (s.long_pause_escalations + 1) as u64
        } else {
            s.long_pause_escalations
        },
        ..s
    };
    if jump_due(noted) {
        (
            ReadState {
                jump_multiplier: least(2 * s.jump_multiplier, MAX_JUMP_MULTIPLIER as int) as u64,
                consecutive_outer_failures: 0,
                jumps_taken: (s.jumps_taken + 1) as u64,
                ..noted
            },
            ReadAction::JumpAhead {
                sectors: jump_distance(s),
                pause_secs: (pause + POST_JUMP_EXTRA_PAUSE_SECS) as u64,
            },
        )
    } else {
        (noted, ReadAction::SkipBlock { pause_secs: pause })
    }
}

/// Whether a sense key is one a wedged drive answers with.
pub open spec fn wedge_key(key: u8) -> bool {
    key == SENSE_KEY_HARDWARE_ERROR || key == SENSE_KEY_ILLEGAL_REQUEST
}

/// The state after a failed read, and what to do about it.
pub open spec fn after_failure(before: ReadState, f: ReadFailure) -> (ReadState, ReadAction) {
    let s = failure_counted(before, f);
    if f.transport_failure || f.unit_attention {
        (s, ReadAction::AbortPass)
    } else if f.bridge_degradation && s.bridge_degradation_count < BRIDGE_DEGRADATION_MAX_RETRIES {
        (
            ReadState { bridge_degradation_count: (s.bridge_degradation_count + 1) as u32, ..s },
            ReadAction::Retry { pause_secs: BRIDGE_DEGRADATION_PAUSE_SECS },
        )
    } else if f.key() == SENSE_KEY_NOT_READY && s.not_ready_retries < NOT_READY_MAX_RETRIES {
        (
            ReadState { not_ready_retries: (s.not_ready_retries + 1) as u32, ..s },
            ReadAction::Retry { pause_secs: NOT_READY_PAUSE_SECS },
        )
    } else {
        let z = zone_noted(s, f);
        if wedge_key(f.key()) {
            wedge_outcome(z)
        } else if f.key() == SENSE_KEY_RECOVERED_ERROR {
            (
                ReadState { marginal_recovered: (z.marginal_recovered + 1) as u64, ..z },
                ReadAction::SkipBlock { pause_secs: FAIL_PAUSE_SECS },
            )
        } else {
            damage_outcome(z, enters_zone(s, f))
        }
    }
}

/// Every counter that a failure may raise can still be raised, and the window
/// is small enough to take percentages of.
pub open spec fn failure_countable(s: ReadState) -> bool {
    &&& s.consecutive_failures < u64::MAX
    &&& s.consecutive_outer_failures < u64::MAX
    &&& s.total_errors < u64::MAX
    &&& s.zones_entered < u64::MAX
    &&& s.wedge_count < u64::MAX
    &&& s.jumps_taken < u64::MAX
    &&& s.marginal_recovered < u64::MAX
    &&& s.long_pause_escalations < u64::MAX
    &&& (s.damage_window.len() + 1) * 100 <= usize::MAX
}

/// It is the product.
pub proof fn lemma_multiplied(x: int, m: int)
    ensures
        multiplied(x, m) == x * m,
{
    assert(x * m == m * x) by (nonlinear_arith);
    assert(1 * x == x && (m == 1 ==> m * x == 1 * x) && (m == 2 ==> m * x == 2 * x) && (m == 4 ==> m
        * x == 4 * x) && (m == 8 ==> m * x == 8 * x) && (m == 16 ==> m * x == 16 * x) && (m == 32
        ==> m * x == 32 * x) && (m == 64 ==> m * x == 64 * x)) by (nonlinear_arith);
}

impl ReadCtx {
    /// Initial context for the first pass over a disc: fast, jumping over
    /// damage at the first failure.
    pub fn for_sweep(batch: u16) -> (r: ReadCtx)
        ensures
            r@ == fresh_state(batch, false),
    {
        ReadCtx {
            batch,
            consecutive_good: 0,
            consecutive_failures: 0,
            consecutive_outer_failures: 0,
            damage_window: Vec::new(),
            damage_window_max: DAMAGE_WINDOW,
            damage_threshold_pct: SWEEP_DAMAGE_THRESHOLD_PCT,
            fast_jump_threshold: 1,
            jump_multiplier: 1,
            not_ready_retries: 0,
            bridge_degradation_count: 0,
            patch_pass: false,
            wedge_count: 0,
            last_error_family: None,
            total_errors: 0,
            total_reads_ok: 0,
            zones_entered: 0,
            jumps_taken: 0,
            in_damage_zone: false,
            long_pause_escalations: 0,
            marginal_recovered: 0,
        }
    }

    /// Initial context for a pass over known damage: never jumps on a run of
    /// failures alone, only on the window, and at half the density.
    pub fn for_patch(batch: u16) -> (r: ReadCtx)
        ensures
            r@ == fresh_state(batch, true),
    {
        ReadCtx {
            batch,
            consecutive_good: 0,
            consecutive_failures: 0,
            consecutive_outer_failures: 0,
            damage_window: Vec::new(),
            damage_window_max: DAMAGE_WINDOW,
            damage_threshold_pct: PATCH_DAMAGE_THRESHOLD_PCT,
            fast_jump_threshold: u64::MAX,
            jump_multiplier: 1,
            not_ready_retries: 0,
            bridge_degradation_count: 0,
            patch_pass: true,
            wedge_count: 0,
            last_error_family: None,
            total_errors: 0,
            total_reads_ok: 0,
            zones_entered: 0,
            jumps_taken: 0,
            in_damage_zone: false,
            long_pause_escalations: 0,
            marginal_recovered: 0,
        }
    }

    /// Note one more outcome in the damage window.
    fn note_outcome(&mut self, ok: bool)
        requires
            old(self).damage_window@.len() < usize::MAX,
        ensures
            final(self)@ == (ReadState {
                damage_window: window_after(
                    old(self)@.damage_window,
                    ok,
                    old(self)@.damage_window_max,
                ),
                ..old(self)@
            }),
    {
        self.damage_window.push(ok);
        if self.damage_window.len() > self.damage_window_max {
            self.damage_window.remove(0);
            assert(self.damage_window@ =~= old(self).damage_window@.push(ok).drop_first());
        }
    }

    /// To be called after every successful read.
    pub fn on_success(&mut self)
        requires
            old(self)@.consecutive_good < u64::MAX,
            old(self)@.total_reads_ok < u64::MAX,
            old(self)@.damage_window.len() < usize::MAX,
        ensures
            final(self)@ == after_success(old(self)@),
    {
        self.consecutive_good = self.consecutive_good + 1;
        self.consecutive_failures = 0;
        self.not_ready_retries = 0;
        self.wedge_count = 0;
        self.bridge_degradation_count = 0;
        self.consecutive_outer_failures = 0;
        self.note_outcome(true);
        self.total_reads_ok = self.total_reads_ok + 1;
        if self.in_damage_zone && self.consecutive_good >= self.damage_window_max as u64 {
            self.in_damage_zone = false;
            self.last_error_family = None;
            self.jump_multiplier = 1;
        }
    }

    /// The totals of the pass so far.
    pub fn pass_summary(&self) -> (r: PassSummary)
        ensures
            r == (PassSummary {
                total_reads_ok: self@.total_reads_ok,
                total_errors: self@.total_errors,
                zones_entered: self@.zones_entered,
                jumps_taken: self@.jumps_taken,
                long_pause_escalations: self@.long_pause_escalations,
                marginal_recovered: self@.marginal_recovered,
            }),
    {
        PassSummary {
            total_reads_ok: self.total_reads_ok,
            total_errors: self.total_errors,
            zones_entered: self.zones_entered,
            jumps_taken: self.jumps_taken,
            long_pause_escalations: self.long_pause_escalations,
            marginal_recovered: self.marginal_recovered,
        }
    }

    /// The share of failures in the damage window, in whole percent.
    fn bad_pct(&self) -> (r: usize)
        requires
            self.damage_window@.len() * 100 <= usize::MAX,
        ensures
            r == failure_pct(self.damage_window@),
    {
        if self.damage_window.len() == 0 {
            return 0;
        }
        let mut bad: usize = 0;
        let mut i: usize = 0;
        assert(self.damage_window@.take(0) =~= seq![]);
        while i < self.damage_window.len()
            invariant
                i <= self.damage_window@.len(),
                bad <= i,
                bad == failures_in(self.damage_window@.take(i as int)),
            decreases self.damage_window@.len() - i,
        {
            assert(self.damage_window@.take(i + 1).drop_last() =~= self.damage_window@.take(
                i as int,
            ));
            if !self.damage_window[i] {
                bad = bad + 1;
            }
            i = i + 1;
        }
        assert(self.damage_window@.take(i as int) =~= self.damage_window@);
        bad * 100 / self.damage_window.len()
    }

    /// A firmware wedge: skip ahead, or give up.
    fn wedge(&mut self) -> (r: ReadAction)
        requires
            old(self)@.wedge_count < u64::MAX,
            old(self)@.jumps_taken < u64::MAX,
        ensures
            (final(self)@, r) == wedge_outcome(old(self)@),
    {
        self.wedge_count = self.wedge_count + 1;
        if self.wedge_count >= WEDGE_ABORT_THRESHOLD {
            return ReadAction::AbortPass;
        }
        self.jumps_taken = self.jumps_taken + 1;
        ReadAction::JumpAhead {
            sectors: if self.patch_pass {
                WEDGE_PASS_N_SKIP_SECTORS
            } else {
                WEDGE_JUMP_SECTORS
            },
            pause_secs: WEDGE_PAUSE_SECS,
        }
    }

    /// A damaged medium: pace the reads, and skip or jump.
    fn damage(&mut self, entered: bool) -> (r: ReadAction)
        requires
            (old(self)@.damage_window.len() + 1) * 100 <= usize::MAX,
            old(self)@.long_pause_escalations < u64::MAX,
            old(self)@.jumps_taken < u64::MAX,
        ensures
            (final(self)@, r) == damage_outcome(old(self)@, entered),
    {
        self.note_outcome(false);
        let bad_pct: usize = self.bad_pct();
        let pause_secs: u64 = if entered && !self.patch_pass {
            ZONE_ENTRY_COOLDOWN_SECS
        } else if self.consecutive_failures >= CONSECUTIVE_FAIL_LONG_PAUSE_THRESHOLD {
            self.long_pause_escalations = self.long_pause_escalations + 1;
            CONSECUTIVE_FAIL_LONG_PAUSE_SECS
        } else {
            FAIL_PAUSE_SECS
        };
        let fast: bool = self.consecutive_outer_failures >= self.fast_jump_threshold;
        let dense: bool = self.damage_window.len() >= self.damage_window_max && bad_pct
            >= self.damage_threshold_pct;
        if fast || dense {
            let mult: u64 = if self.jump_multiplier <= MAX_JUMP_MULTIPLIER {
                self.jump_multiplier
            } else {
                MAX_JUMP_MULTIPLIER
            };
            let per_batch: u64 = JUMP_BASE_SECTORS * self.batch as u64;
            proof {
                assert(per_batch * mult <= 67107840 * 64) by (nonlinear_arith)
                    requires
                        per_batch <= 67107840,
                        mult <= 64,
                ;
                lemma_multiplied(per_batch as int, mult as int);
            }
            let sectors: u64 = per_batch * mult;
            self.jump_multiplier = if self.jump_multiplier <= MAX_JUMP_MULTIPLIER / 2 {
                self.jump_multiplier * 2
            } else {
                MAX_JUMP_MULTIPLIER
            };
            self.consecutive_outer_failures = 0;
            self.jumps_taken = self.jumps_taken + 1;
            return ReadAction::JumpAhead {
                sectors,
                pause_secs: pause_secs + POST_JUMP_EXTRA_PAUSE_SECS,
            };
        }
        ReadAction::SkipBlock { pause_secs }
    }
}

/// Whether a failure is the moment a drive that answered with ordinary errors
/// falls into the family of a wedged one.
pub fn is_wedge_transition(previous: Option<SenseFamily>, current: SenseFamily) -> (r: bool)
    ensures
        r <==> previous is Some && !previous->0.wedges() && current.wedges(),
{
    match previous {
        Some(p) => !p.is_wedge_family() && current.is_wedge_family(),
        None => false,
    }
}

/// The one place where a failed read is judged. Updates the context and says
/// what to do.
pub fn handle_read_error(err: &ReadFailure, ctx: &mut ReadCtx) -> (r: ReadAction)
    requires
        failure_countable(old(ctx)@),
    ensures
        (final(ctx)@, r) == after_failure(old(ctx)@, *err),
{
    ctx.consecutive_failures = ctx.consecutive_failures + 1;
    ctx.consecutive_good = 0;
    ctx.consecutive_outer_failures = ctx.consecutive_outer_failures + 1;
    ctx.total_errors = ctx.total_errors + 1;
    ctx.last_error_family = Some(err.family);
    let key: u8 = match err.sense_key {
        Some(k) => k,
        None => 0,
    };
    if key != SENSE_KEY_NOT_READY {
        ctx.not_ready_retries = 0;
    }
    if err.transport_failure {
        return ReadAction::AbortPass;
    }
    if err.unit_attention {
        return ReadAction::AbortPass;
    }
    if err.bridge_degradation && ctx.bridge_degradation_count < BRIDGE_DEGRADATION_MAX_RETRIES {
        ctx.bridge_degradation_count = ctx.bridge_degradation_count + 1;
        return ReadAction::Retry { pause_secs: BRIDGE_DEGRADATION_PAUSE_SECS };
    }
    if key == SENSE_KEY_NOT_READY && ctx.not_ready_retries < NOT_READY_MAX_RETRIES {
        ctx.not_ready_retries = ctx.not_ready_retries + 1;
        return ReadAction::Retry { pause_secs: NOT_READY_PAUSE_SECS };
    }
    let recovered: bool = key == SENSE_KEY_RECOVERED_ERROR;
    let entered: bool = !ctx.in_damage_zone && !recovered;
    if entered {
        ctx.in_damage_zone = true;
        ctx.zones_entered = ctx.zones_entered + 1;
    }
    if key == SENSE_KEY_HARDWARE_ERROR || key == SENSE_KEY_ILLEGAL_REQUEST {
        return ctx.wedge();
    }
    if recovered {
        ctx.marginal_recovered = ctx.marginal_recovered + 1;
        return ReadAction::SkipBlock { pause_secs: FAIL_PAUSE_SECS };
    }
    ctx.damage(entered)
}

} // verus!
