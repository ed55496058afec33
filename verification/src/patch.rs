//! The later passes over a disc: read the damaged ranges again, with one
//! technique after another.

use crate::copy::CopyResult;
use crate::disc::Disc;
use crate::entries::{
    all_recorded, bytes_with, lemma_all_recorded, lemma_bytes_bound, lemma_status_at_concat, ordered,
    ranges_among, recorded, status_at, MapEntry,
};
use crate::geometry::{snap_to_sectors, snapped, SECTOR};
use crate::handlers::{
    build_flat_pool, build_tier_handlers, full_roster, tier_roster, Handler, PATCH_TIERS,
};
use crate::identity::{check_mapfile_identity, identity_matches};
use crate::mapfile::{countable, MapStats, MapView, Mapfile, MapfileInvalid};
use crate::mapfile_text::chars_of;
use crate::progress::{damage, damaged_ranges, PassFigures, PassKind};
use crate::sections::{
    after_removals, all_left_over, any_has, apart, law_residue_is_what_was_not_recovered,
    lemma_sum_len_grows, range_end,
    range_has, sum_len, SubRanges,
};
use crate::status::{bad_sector_statuses, SectorStatus};
use crate::text::{parse_unsigned, trim, trimmed, unsigned_value};
use vstd::prelude::*;
use vstd::seq_lib::group_to_multiset_ensures;

verus! {

/// Seconds one technique gets on a section before the next one has its turn.
pub const PER_HANDLER_BUDGET_SECS: u64 = 60;

/// Seconds one technique gets where all of them share one pool.
pub const FLAT_HANDLER_BUDGET_SECS: u64 = 12;

/// Least time between two progress reports from within a section.
pub const PROGRESS_TICK_MS: u64 = 250;

/// Least time between two snapshots of the mapfile.
pub const REPUBLISH_CADENCE_MS: u64 = 250;

/// Most damaged ranges that a snapshot holds.
pub const MAX_BAD_RANGES: usize = 8192;

// ---------------------------------------------------------------------------
// Options and outcome
// ---------------------------------------------------------------------------

/// How a patch pass is labelled.
#[derive(Debug, Clone, Copy, PartialEq, Eq, Structural)]
pub struct PatchOptions {
    pub decrypt: bool,
    /// Names the pass: one is a scrape, more is a trim. Sizes no read.
    pub block_sectors: Option<u16>,
    /// For diagnostics.
    pub full_recovery: bool,
    /// Decorates the name of the pass. Orders no walk.
    pub reverse: bool,
    /// Reported in the outcome. Nothing is counted against it.
    pub wedged_threshold: u64,
}

impl PatchOptions {
    /// The options of every patch pass.
    pub fn for_patch_pass(decrypt: bool) -> (r: PatchOptions)
        ensures
            r == (PatchOptions {
                decrypt,
                block_sectors: Some(32u16),
                full_recovery: true,
                reverse: true,
                wedged_threshold: 50,
            }),
    {
        PatchOptions {
            decrypt,
            block_sectors: Some(32),
            full_recovery: true,
            reverse: true,
            wedged_threshold: 50,
        }
    }
}

/// The outcome of a patch pass.
#[derive(Debug, Clone, Copy, PartialEq, Eq, Structural)]
pub struct PatchOutcome {
    pub bytes_total: u64,
    pub bytes_good: u64,
    pub bytes_unreadable: u64,
    pub bytes_pending: u64,
    pub bytes_recovered_this_pass: u64,
    pub halted: bool,
    pub wedged_exit: bool,
    pub wedged_threshold: u64,
}

impl PatchOutcome {
    /// The outcome as that of a copy.
    pub fn copy_result(&self) -> (r: CopyResult)
        ensures
            r == (CopyResult {
                bytes_total: self.bytes_total,
                bytes_good: self.bytes_good,
                bytes_unreadable: self.bytes_unreadable,
                bytes_pending: self.bytes_pending,
                recovered_this_pass: self.bytes_recovered_this_pass,
                complete: self.bytes_pending == 0 && self.bytes_unreadable == 0 && !self.halted,
                halted: self.halted,
            }),
    {
        CopyResult::new(
            self.bytes_total,
            self.bytes_good,
            self.bytes_unreadable,
            self.bytes_pending,
            self.bytes_recovered_this_pass,
            self.halted,
        )
    }
}

/// The batch that names the pass.
pub fn initial_batch_of(opts: &PatchOptions) -> (r: u16)
    ensures
        r == match opts.block_sectors {
            Some(b) => if b == 0 {
                1
            } else {
                b
            },
            None => 1,
        },
        r > 0,
{
    match opts.block_sectors {
        Some(b) => if b == 0 {
            1
        } else {
            b
        },
        None => 1,
    }
}

/// What a patch pass of a batch is called.
pub open spec fn kind_of_pass(initial_batch: u16, reverse: bool) -> PassKind {
    if initial_batch == 1 {
        PassKind::Scrape { reverse }
    } else {
        PassKind::Trim { reverse }
    }
}

/// The name of a patch pass: single sectors are a scrape, more is a trim.
pub fn pass_kind(initial_batch: u16, reverse: bool) -> (r: PassKind)
    ensures
        r == kind_of_pass(initial_batch, reverse),
        r == if initial_batch == 1 {
            PassKind::Scrape { reverse }
        } else {
            PassKind::Trim { reverse }
        },
{
    if initial_batch == 1 {
        PassKind::Scrape { reverse }
    } else {
        PassKind::Trim { reverse }
    }
}

/// Whether the setting that asks for one pool instead of the ladder of tiers
/// does so: set, not empty, and not `0`.
pub fn patch_flat_mode(setting: Option<&str>) -> (r: bool)
    ensures
        r <==> setting is Some && setting->0@.len() > 0 && setting->0@ != seq!['0'],
{
    match setting {
        None => false,
        Some(s) => {
            let c: Vec<char> = chars_of(s);
            if c.len() == 1 && c[0] == '0' {
                assert(s@ =~= seq!['0']);
                return false;
            }
            c.len() > 0
        },
    }
}

/// The budget that a setting gives each technique of the pool: a whole number
/// of seconds, at least one; the default where it is no number.
pub open spec fn flat_budget(setting: Option<Seq<char>>) -> int {
    let asked = match setting {
        Some(s) => match unsigned_value(trimmed(s), 10, u64::MAX as nat) {
            Some(n) => n as int,
            None => FLAT_HANDLER_BUDGET_SECS as int,
        },
        None => FLAT_HANDLER_BUDGET_SECS as int,
    };
    if asked == 0 {
        1
    } else {
        asked
    }
}

/// Seconds that each technique of the pool gets.
pub fn flat_handler_budget_secs(setting: Option<&str>) -> (r: u64)
    ensures
        r == flat_budget(
            match setting {
                Some(s) => Some(s@),
                None => None,
            },
        ),
        r > 0,
{
    let asked: u64 = match setting {
        None => FLAT_HANDLER_BUDGET_SECS,
        Some(s) => {
            let c: Vec<char> = chars_of(s);
            match parse_unsigned(trim(&c), 10, u64::MAX) {
                Some(n) => n,
                None => FLAT_HANDLER_BUDGET_SECS,
            }
        },
    };
    if asked == 0 {
        1
    } else {
        asked
    }
}

// ---------------------------------------------------------------------------
// Before the pass
// ---------------------------------------------------------------------------

/// Why a patch pass cannot begin.
#[derive(Debug, Clone, Copy, PartialEq, Eq, Structural)]
pub enum PatchRefusal {
    /// The mapfile is another disc's.
    Mapfile(MapfileInvalid),
    /// The image is shorter than the mapfile describes.
    ImageTruncated { have: u64, want: u64 },
}

/// Whether a pass may begin, and why not.
pub open spec fn patch_start(map: MapView, disc: Disc, image_len: u64, is_regular: bool) -> Result<
    (),
    PatchRefusal,
> {
    if !identity_matches(map, disc) {
        Err(PatchRefusal::Mapfile(MapfileInvalid::DiscMismatch))
    } else if is_regular && image_len < map.total_size {
        Err(PatchRefusal::ImageTruncated { have: image_len, want: map.total_size })
    } else {
        Ok(())
    }
}

/// Refuse a pass over a mapfile of another disc, or over an image that has been
/// cut short: the pass reads only what is damaged, so it would report as good
/// what is no longer there. Only a regular file's length says anything.
pub fn check_patch_start(map: &Mapfile, disc: &Disc, image_len: u64, is_regular: bool) -> (r: Result<
    (),
    PatchRefusal,
>)
    ensures
        r == patch_start(map@, *disc, image_len, is_regular),
        r == if !identity_matches(map@, *disc) {
            Err(PatchRefusal::Mapfile(MapfileInvalid::DiscMismatch))
        } else if is_regular && image_len < map@.total_size {
            Err(PatchRefusal::ImageTruncated { have: image_len, want: map@.total_size })
        } else {
            Ok::<(), PatchRefusal>(())
        },
{
    match check_mapfile_identity(map, disc) {
        Ok(()) => {},
        Err(e) => {
            return Err(PatchRefusal::Mapfile(e));
        },
    }
    let want: u64 = map.total_size();
    if is_regular && image_len < want {
        return Err(PatchRefusal::ImageTruncated { have: image_len, want });
    }
    Ok(())
}

/// What a pass begins with.
#[derive(Debug)]
pub struct PatchPlan {
    pub total_bytes: u64,
    pub stats: MapStats,
    pub bad_ranges: Vec<(u64, u64)>,
    pub work_total: u64,
}

proof fn lemma_damage_sum(es: Seq<MapEntry>)
    ensures
        sum_len(ranges_among(es, damage())) == bytes_with(es, SectorStatus::NonTrimmed)
            + bytes_with(es, SectorStatus::NonScraped) + bytes_with(es, SectorStatus::Unreadable),
    decreases es.len(),
{
    if es.len() > 0 {
        lemma_damage_sum(es.drop_last());
        let r = ranges_among(es, damage());
        let s = es.last().status;
        assert(damage()[0] == SectorStatus::NonTrimmed && damage()[1] == SectorStatus::NonScraped
            && damage()[2] == SectorStatus::Unreadable);
        if damage().contains(s) {
            assert(r.drop_last() =~= ranges_among(es.drop_last(), damage()));
        }
    }
}

impl PatchPlan {
    /// The damage that a mapfile records, and how much of it there is. What has
    /// not been tried yet is the sweep's business.
    pub fn from_map(map: &Mapfile) -> (r: PatchPlan)
        requires
            map.wf(),
        ensures
            r.total_bytes == map@.total_size,
            r.stats == map@.stats,
            r.bad_ranges@ == ranges_among(map@.entries, damage()),
            r.work_total == sum_len(r.bad_ranges@),
            r.work_total == map@.stats.bytes_retryable + map@.stats.bytes_unreadable,
    {
        let bad_ranges: Vec<(u64, u64)> = damaged_ranges(map);
        proof {
            lemma_damage_sum(map@.entries);
            lemma_bytes_bound(map@.entries);
        }
        let mut work_total: u64 = 0;
        let mut i: usize = 0;
        assert(bad_ranges@.take(0) =~= seq![]);
        while i < bad_ranges.len()
            invariant
                i <= bad_ranges@.len(),
                work_total == sum_len(bad_ranges@.take(i as int)),
                sum_len(bad_ranges@) <= u64::MAX,
            decreases bad_ranges@.len() - i,
        {
            assert(bad_ranges@.take(i + 1).drop_last() =~= bad_ranges@.take(i as int));
            proof {
                lemma_sum_len_grows(bad_ranges@, i + 1);
            }
            work_total = work_total + bad_ranges[i].1;
            i = i + 1;
        }
        assert(bad_ranges@.take(i as int) =~= bad_ranges@);
        PatchPlan { total_bytes: map.total_size(), stats: map.stats(), bad_ranges, work_total }
    }
}

/// Whether a range is to be worked on before another: the larger, and of two of
/// one size the one further in front.
pub open spec fn before(a: (u64, u64), b: (u64, u64)) -> bool {
    a.1 > b.1 || (a.1 == b.1 && a.0 <= b.0)
}

/// Ranges in the order they are worked on.
pub open spec fn in_work_order(rs: Seq<(u64, u64)>) -> bool {
    forall|i: int, j: int| 0 <= i < j < rs.len() ==> before(#[trigger] rs[i], #[trigger] rs[j])
}

/// Put ranges in the order they are worked on: the largest first. Large ones
/// are mostly what a jump skipped and read straight back.
pub fn work_order(rs: &[(u64, u64)]) -> (r: Vec<(u64, u64)>)
    ensures
        r@.to_multiset() == rs@.to_multiset(),
        r@.len() == rs@.len(),
        in_work_order(r@),
{
    broadcast use group_to_multiset_ensures;

    let mut out: Vec<(u64, u64)> = Vec::new();
    let mut i: usize = 0;
    assert(rs@.take(0) =~= seq![]);
    assert(out@ =~= rs@.take(0));
    while i < rs.len()
        invariant
            i <= rs@.len(),
            out@.len() == i,
            out@.to_multiset() == rs@.take(i as int).to_multiset(),
            in_work_order(out@),
        decreases rs@.len() - i,
    {
        broadcast use group_to_multiset_ensures;

        let x = rs[i];
        let mut k: usize = out.len();
        while k > 0 && !(out[k - 1].1 > x.1 || (out[k - 1].1 == x.1 && out[k - 1].0 <= x.0))
            invariant
                k <= out@.len(),
                in_work_order(out@),
                forall|j: int| k <= j < out@.len() ==> before(x, #[trigger] out@[j]),
            decreases k,
        {
            k = k - 1;
        }
        let ghost prev = out@;
        out.insert(k, x);
        proof {
            assert(rs@.take(i + 1) =~= rs@.take(i as int).push(x));
            assert(out@ == prev.insert(k as int, x));
            vstd::seq_lib::to_multiset_insert(prev, k as int, x);
            vstd::seq_lib::to_multiset_build(rs@.take(i as int), x);
            assert(in_work_order(out@)) by {
                assert forall|a: int, b: int| 0 <= a < b < out@.len() implies before(
                    #[trigger] out@[a],
                    #[trigger] out@[b],
                ) by {
                    let pa = if a < k {
                        a
                    } else {
                        a - 1
                    };
                    let pb = if b < k {
                        b
                    } else {
                        b - 1
                    };
                    if a != k {
                        assert(out@[a] == prev[pa]);
                    }
                    if b != k {
                        assert(out@[b] == prev[pb]);
                    }
                    if a == k {
                    } else if b == k {
                        assert(before(prev[k - 1], x));
                        if pa < k - 1 {
                            assert(before(prev[pa], prev[k - 1]));
                        }
                    } else {
                        assert(before(prev[pa], prev[pb]));
                    }
                }
            }
        }
        i = i + 1;
    }
    assert(rs@.take(i as int) =~= rs@);
    out
}

// ---------------------------------------------------------------------------
// The pass
// ---------------------------------------------------------------------------

/// How the techniques left a section.
#[derive(Debug, Clone, Copy, PartialEq, Eq, Structural)]
pub enum HandlerOutcome {
    /// Nothing is bad any more.
    Complete,
    /// Something still is.
    Remaining,
    /// A halt was asked for.
    Halted,
    /// The transport to the drive failed.
    TransportFault,
}

/// How a section ended.
#[derive(Debug, Clone, Copy, PartialEq, Eq, Structural)]
pub enum RegionOutcome {
    /// What could be read was; go on.
    Completed,
    /// A halt was asked for: the pass ends.
    Halted,
    /// The transport to the drive failed: the pass ends.
    TransportFault,
}

/// What a pass keeps across its sections.
#[derive(Debug, Clone, Copy, PartialEq, Eq, Structural)]
pub struct PatchLoopState {
    pub halted: bool,
    pub wedged_exit: bool,
    pub bytes_good_before: u64,
    pub initial_batch: u16,
    pub work_total: u64,
}

impl PatchLoopState {
    /// A pass that has just begun.
    pub fn new(bytes_good_before: u64, initial_batch: u16, work_total: u64) -> (r: PatchLoopState)
        ensures
            r == (PatchLoopState {
                halted: false,
                wedged_exit: false,
                bytes_good_before,
                initial_batch,
                work_total,
            }),
    {
        PatchLoopState {
            halted: false,
            wedged_exit: false,
            bytes_good_before,
            initial_batch,
            work_total,
        }
    }
}

/// One section to work on.
#[derive(Debug, Clone, Copy, PartialEq, Eq, Structural)]
pub struct PatchUnit {
    pub tier: usize,
    pub range_idx: usize,
    pub range_pos: u64,
    pub range_size: u64,
    /// Whether what stays bad is to be recorded.
    pub final_tier: bool,
}

/// A patch pass under way: damaged ranges in work order, what is still bad of
/// each, and how far the pass has come.
#[derive(Debug)]
pub struct PatchRun {
    flat: bool,
    ordered: Vec<(u64, u64)>,
    sections: Vec<SubRanges>,
    tier: usize,
    index: usize,
    current: usize,
    state: PatchLoopState,
}

/// What a [`PatchRun`] holds.
#[verifier::ext_equal]
pub struct PatchRunState {
    /// Whether all techniques share one pool.
    pub flat: bool,
    /// The ranges, in work order.
    pub ordered: Seq<(u64, u64)>,
    /// What is still bad of each range.
    pub sections: Seq<Seq<(u64, u64)>>,
    /// The tier being walked.
    pub tier: int,
    /// The next range to look at in this tier.
    pub index: int,
    /// The range being worked on.
    pub current: int,
    /// What is kept across sections.
    pub state: PatchLoopState,
}

impl View for PatchRun {
    type V = PatchRunState;

    closed spec fn view(&self) -> PatchRunState {
        PatchRunState {
            flat: self.flat,
            ordered: self.ordered@,
            sections: self.sections@.map_values(|s: SubRanges| s@),
            tier: self.tier as int,
            index: self.index as int,
            current: self.current as int,
            state: self.state,
        }
    }
}

/// How many tiers a pass walks.
pub open spec fn tiers(flat: bool) -> int {
    if flat {
        1
    } else {
        PATCH_TIERS as int
    }
}

/// The state with the walk at the next section that is still bad, tier by tier
/// and range by range.
pub open spec fn sought(s: PatchRunState) -> PatchRunState
    decreases tiers(s.flat) - s.tier, s.ordered.len() - s.index,
{
    if s.tier >= tiers(s.flat) {
        s
    } else if s.index >= s.ordered.len() {
        sought(PatchRunState { tier: s.tier + 1, index: 0, ..s })
    } else if s.sections[s.index].len() == 0 {
        sought(PatchRunState { index: s.index + 1, ..s })
    } else {
        s
    }
}

/// The unit of work at a place of the walk.
pub open spec fn unit_at(s: PatchRunState) -> PatchUnit {
    PatchUnit {
        tier: s.tier as usize,
        range_idx: s.index as usize,
        range_pos: s.ordered[s.index].0,
        range_size: s.ordered[s.index].1,
        final_tier: s.tier + 1 == tiers(s.flat),
    }
}

/// The state with the next section taken up, where there is one.
pub open spec fn taken(s: PatchRunState) -> PatchRunState {
    let u = sought(s);
    PatchRunState { index: u.index + 1, current: u.index, ..u }
}

/// The state with a span of the section recovered.
pub open spec fn spanned(s: PatchRunState, pos: u64, len: u64) -> PatchRunState {
    PatchRunState {
        sections: s.sections.update(
            s.current,
            if len == 0 {
                s.sections[s.current]
            } else {
                all_left_over(s.sections[s.current], pos, (pos + len) as u64)
            },
        ),
        ..s
    }
}

/// How a section ends.
pub open spec fn section_outcome(outcome: HandlerOutcome, cancelled: bool) -> RegionOutcome {
    if cancelled {
        RegionOutcome::Halted
    } else {
        match outcome {
            HandlerOutcome::Complete | HandlerOutcome::Remaining => RegionOutcome::Completed,
            HandlerOutcome::Halted => RegionOutcome::Halted,
            HandlerOutcome::TransportFault => RegionOutcome::TransportFault,
        }
    }
}

/// The state with a section ended.
pub open spec fn section_ended(
    s: PatchRunState,
    outcome: HandlerOutcome,
    cancelled: bool,
) -> PatchRunState {
    PatchRunState {
        state: PatchLoopState {
            halted: s.state.halted || section_outcome(outcome, cancelled) == RegionOutcome::Halted,
            wedged_exit: s.state.wedged_exit || section_outcome(outcome, cancelled)
                == RegionOutcome::TransportFault,
            ..s.state
        },
        ..s
    }
}

/// What is to be recorded of the section that is being worked on.
pub open spec fn residue_of(s: PatchRunState, final_tier: bool) -> Seq<PatchItem> {
    if final_tier {
        not_trimmed(s.sections[s.current])
    } else {
        seq![]
    }
}

/// Whether a pass over some damaged ranges is about to begin.
pub open spec fn new_run(
    s: PatchRunState,
    bad_ranges: Seq<(u64, u64)>,
    flat: bool,
    state: PatchLoopState,
) -> bool {
    &&& run_inv(s)
    &&& s.ordered.to_multiset() == bad_ranges.to_multiset()
    &&& in_work_order(s.ordered)
    &&& forall|i: int|
        0 <= i < s.ordered.len() ==> #[trigger] s.sections[i] == section_of(s.ordered[i])
    &&& s.flat == flat && s.tier == 0 && s.index == 0 && s.current == 0 && s.state == state
}

/// The section of a damaged range: whole sectors.
pub open spec fn section_of(r: (u64, u64)) -> Seq<(u64, u64)> {
    let (p, l) = snapped(r.0, r.1);
    if l == 0 {
        seq![]
    } else {
        seq![(p, l)]
    }
}

/// What every pass keeps: one section to a range, each in order and apart.
pub open spec fn run_inv(s: PatchRunState) -> bool {
    &&& s.sections.len() == s.ordered.len()
    &&& forall|i: int| 0 <= i < s.sections.len() ==> apart(#[trigger] s.sections[i])
    &&& 0 <= s.tier <= tiers(s.flat)
    &&& 0 <= s.index <= s.ordered.len()
    &&& 0 <= s.current
}

impl PatchRun {
    /// What every pass keeps.
    pub open spec fn wf(&self) -> bool {
        run_inv(self@)
    }

    /// A pass over some damaged ranges.
    pub fn new(bad_ranges: &[(u64, u64)], flat: bool, state: PatchLoopState) -> (r: PatchRun)
        ensures
            r.wf(),
            new_run(r@, bad_ranges@, flat, state),
            r@.ordered.to_multiset() == bad_ranges@.to_multiset(),
            in_work_order(r@.ordered),
            forall|i: int|
                0 <= i < r@.ordered.len() ==> #[trigger] r@.sections[i] == section_of(r@.ordered[i]),
            r@.flat == flat,
            r@.tier == 0,
            r@.index == 0,
            r@.current == 0,
            r@.state == state,
    {
        let ordered: Vec<(u64, u64)> = work_order(bad_ranges);
        let mut sections: Vec<SubRanges> = Vec::new();
        let mut i: usize = 0;
        while i < ordered.len()
            invariant
                i <= ordered@.len(),
                sections@.len() == i,
                forall|j: int|
                    0 <= j < i ==> (#[trigger] sections@[j])@ == section_of(ordered@[j])
                        && sections@[j].wf(),
            decreases ordered@.len() - i,
        {
            let (p, l) = snap_to_sectors(ordered[i].0, ordered[i].1);
            sections.push(SubRanges::from_section(p, l));
            i = i + 1;
        }
        PatchRun { flat, ordered, sections, tier: 0, index: 0, current: 0, state }
    }

    /// The next section to work on; `None` when the pass is over.
    pub fn next_unit(&mut self) -> (r: Option<PatchUnit>)
        requires
            old(self).wf(),
        ensures
            final(self).wf(),
            r is Some ==> final(self)@ == taken(old(self)@) && r == Some(
                unit_at(sought(old(self)@)),
            ),
            ({
                let s = sought(old(self)@);
                if s.tier >= tiers(s.flat) {
                    r is None && final(self)@ == s
                } else {
                    &&& r == Some(unit_at(s))
                    &&& final(self)@ == (PatchRunState { index: s.index + 1, current: s.index, ..s })
                    &&& s.sections[s.index].len() > 0
                }
            }),
            r matches Some(u) ==> u.range_idx == final(self)@.current && u.range_idx
                < final(self)@.sections.len(),
            final(self)@.sections == old(self)@.sections,
    {
        let last: usize = if self.flat {
            1
        } else {
            PATCH_TIERS
        };
        while self.tier < last
            invariant
                self.wf(),
                last == tiers(self@.flat),
                self@.sections == old(self)@.sections,
                sought(self@) == sought(old(self)@),
            decreases last - self.tier, self.ordered@.len() - self.index,
        {
            if self.index >= self.ordered.len() {
                let ghost s = self@;
                self.tier = self.tier + 1;
                self.index = 0;
                assert(self@ =~= (PatchRunState { tier: s.tier + 1, index: 0, ..s }));
            } else if self.sections[self.index].is_empty() {
                let ghost s = self@;
                assert(s.sections[s.index] == self.sections@[self.index as int]@);
                self.index = self.index + 1;
                assert(self@ =~= (PatchRunState { index: s.index + 1, ..s }));
            } else {
                let ghost s = self@;
                assert(s.sections[s.index] == self.sections@[self.index as int]@);
                assert(sought(s) == s);
                let i: usize = self.index;
                let (range_pos, range_size) = self.ordered[i];
                self.current = i;
                self.index = i + 1;
                assert(self@ =~= (PatchRunState { index: s.index + 1, current: s.index, ..s }));
                return Some(
                    PatchUnit {
                        tier: self.tier,
                        range_idx: i,
                        range_pos,
                        range_size,
                        final_tier: self.tier + 1 == last,
                    },
                );
            }
        }
        None
    }

    /// What is still bad of the section being worked on.
    pub fn section(&self) -> (r: &SubRanges)
        requires
            self@.current < self@.sections.len(),
            self.wf(),
        ensures
            r@ == self@.sections[self@.current],
            r.wf(),
    {
        assert(self@.sections[self@.current] == self.sections@[self.current as int]@);
        &self.sections[self.current]
    }

    /// Report that a technique has recovered bytes of the section.
    pub fn recovered(&mut self, pos: u64, len: u64)
        requires
            old(self).wf(),
            old(self)@.current < old(self)@.sections.len(),
            pos + len <= u64::MAX,
        ensures
            final(self).wf(),
            final(self)@ == spanned(old(self)@, pos, len),
            final(self)@ == (PatchRunState {
                sections: old(self)@.sections.update(
                    old(self)@.current,
                    if len == 0 {
                        old(self)@.sections[old(self)@.current]
                    } else {
                        all_left_over(
                            old(self)@.sections[old(self)@.current],
                            pos,
                            (pos + len) as u64,
                        )
                    },
                ),
                ..old(self)@
            }),
    {
        let i: usize = self.current;
        assert(self@.sections[i as int] == self.sections@[i as int]@);
        self.sections[i].remove(pos, len);
        assert(self@.sections =~= old(self)@.sections.update(
            i as int,
            if len == 0 {
                old(self)@.sections[i as int]
            } else {
                all_left_over(old(self)@.sections[i as int], pos, (pos + len) as u64)
            },
        ));
        assert forall|j: int| 0 <= j < self@.sections.len() implies apart(
            #[trigger] self@.sections[j],
        ) by {
            assert(self@.sections[j] == self.sections@[j]@);
            if j != i {
                assert(self@.sections[j] == old(self)@.sections[j]);
            }
        }
    }

    /// Report how the techniques left the section, and whether the front-end
    /// asked for a halt, which comes first.
    pub fn end_section(&mut self, outcome: HandlerOutcome, cancelled: bool) -> (r: RegionOutcome)
        requires
            old(self).wf(),
        ensures
            final(self).wf(),
            r == section_outcome(outcome, cancelled),
            final(self)@ == section_ended(old(self)@, outcome, cancelled),
            r == if cancelled {
                RegionOutcome::Halted
            } else {
                match outcome {
                    HandlerOutcome::Complete | HandlerOutcome::Remaining => RegionOutcome::Completed,
                    HandlerOutcome::Halted => RegionOutcome::Halted,
                    HandlerOutcome::TransportFault => RegionOutcome::TransportFault,
                }
            },
            final(self)@ == (PatchRunState {
                state: PatchLoopState {
                    halted: old(self)@.state.halted || r == RegionOutcome::Halted,
                    wedged_exit: old(self)@.state.wedged_exit || r == RegionOutcome::TransportFault,
                    ..old(self)@.state
                },
                ..old(self)@
            }),
    {
        if cancelled {
            self.state.halted = true;
            return RegionOutcome::Halted;
        }
        match outcome {
            HandlerOutcome::Complete | HandlerOutcome::Remaining => RegionOutcome::Completed,
            HandlerOutcome::Halted => {
                self.state.halted = true;
                RegionOutcome::Halted
            },
            HandlerOutcome::TransportFault => {
                self.state.wedged_exit = true;
                RegionOutcome::TransportFault
            },
        }
    }

    /// What is to be recorded of the section once the techniques are done with
    /// it: in the last tier, that what is still bad could not be read.
    pub fn residue(&self, final_tier: bool) -> (r: Vec<PatchItem>)
        requires
            self.wf(),
            self@.current < self@.sections.len(),
        ensures
            r@ == residue_of(self@, final_tier),
            r@ == if final_tier {
                not_trimmed(self@.sections[self@.current])
            } else {
                Seq::<PatchItem>::empty()
            },
    {
        let mut out: Vec<PatchItem> = Vec::new();
        if !final_tier {
            assert(out@ =~= Seq::<PatchItem>::empty());
            return out;
        }
        let bad = self.section().ranges();
        let mut i: usize = 0;
        while i < bad.len()
            invariant
                i <= bad@.len(),
                out@ == not_trimmed(bad@.take(i as int)),
            decreases bad@.len() - i,
        {
            let (pos, len) = bad[i];
            out.push(PatchItem::NonTrimmed { pos, len });
            assert(out@ =~= not_trimmed(bad@.take(i + 1)));
            i = i + 1;
        }
        assert(bad@.take(i as int) =~= bad@);
        out
    }

    /// What is kept across sections.
    pub fn state(&self) -> (r: PatchLoopState)
        ensures
            r == self@.state,
    {
        self.state
    }
}

/// The techniques for a unit of work.
pub fn handlers_for(tier: usize, flat: bool) -> (r: Vec<Handler>)
    ensures
        r@ == if flat {
            full_roster()
        } else {
            tier_roster(tier as int)
        },
{
    if flat {
        build_flat_pool()
    } else {
        build_tier_handlers(tier)
    }
}

/// Seconds that each technique gets.
pub fn handler_budget_secs(flat: bool, setting: Option<&str>) -> (r: u64)
    ensures
        r == if flat {
            flat_budget(
                match setting {
                    Some(s) => Some(s@),
                    None => None,
                },
            )
        } else {
            PER_HANDLER_BUDGET_SECS as int
        },
        !flat ==> r == 60,
{
    if flat {
        flat_handler_budget_secs(setting)
    } else {
        PER_HANDLER_BUDGET_SECS
    }
}

/// Whether something that is done at most once in an interval is due; the
/// first time always is.
pub fn due(ms_since_last: Option<u64>, interval_ms: u64) -> (r: bool)
    ensures
        r <==> (ms_since_last matches Some(ms) ==> ms >= interval_ms),
{
    match ms_since_last {
        None => true,
        Some(ms) => ms >= interval_ms,
    }
}

// ---------------------------------------------------------------------------
// What is recorded and reported
// ---------------------------------------------------------------------------

/// Something a pass found out about a range.
#[derive(Debug, Clone, Copy, PartialEq, Eq, Structural)]
pub enum PatchItem {
    /// It has been read and written.
    Recovered { pos: u64, len: u64 },
    /// It is given up.
    Unreadable { pos: u64, len: u64 },
    /// It could not be read in this pass.
    NonTrimmed { pos: u64, len: u64 },
}

/// The items that say of ranges that they could not be read.
pub open spec fn not_trimmed(rs: Seq<(u64, u64)>) -> Seq<PatchItem> {
    rs.map_values(|r: (u64, u64)| PatchItem::NonTrimmed { pos: r.0, len: r.1 })
}

/// The range and status that an item records.
pub open spec fn item_entry(item: PatchItem) -> MapEntry {
    match item {
        PatchItem::Recovered { pos, len } => MapEntry {
            pos,
            size: len,
            status: SectorStatus::Finished,
        },
        PatchItem::Unreadable { pos, len } => MapEntry {
            pos,
            size: len,
            status: SectorStatus::Unreadable,
        },
        PatchItem::NonTrimmed { pos, len } => MapEntry {
            pos,
            size: len,
            status: SectorStatus::NonTrimmed,
        },
    }
}

/// Record an item.
pub fn record_item(map: &mut Mapfile, item: &PatchItem) -> (r: Result<(), MapfileInvalid>)
    requires
        old(map).wf(),
        countable(old(map)@, item_entry(*item)),
    ensures
        final(map).wf(),
        ({
            let e = item_entry(*item);
            &&& r == if e.size == 0 || e.end() <= u64::MAX {
                Ok::<(), MapfileInvalid>(())
            } else {
                Err(MapfileInvalid::Range)
            }
            &&& r is Ok && e.size > 0 ==> final(map)@.entries == recorded(old(map)@.entries, e)
                && final(map)@.dirty
            &&& r is Err || e.size == 0 ==> final(map)@ == old(map)@
        }),
        final(map)@.total_size == old(map)@.total_size,
        final(map)@.version == old(map)@.version,
        final(map)@.vid == old(map)@.vid,
        final(map)@.unit_keys == old(map)@.unit_keys,
{
    match *item {
        PatchItem::Recovered { pos, len } => map.record(pos, len, SectorStatus::Finished),
        PatchItem::Unreadable { pos, len } => map.record(pos, len, SectorStatus::Unreadable),
        PatchItem::NonTrimmed { pos, len } => map.record(pos, len, SectorStatus::NonTrimmed),
    }
}

/// The damaged ranges that a snapshot of a mapfile holds: the first of them, up
/// to a limit.
pub fn published_ranges(map: &Mapfile) -> (r: Vec<(u64, u64)>)
    ensures
        r@ == ({
            let all = ranges_among(map@.entries, damage());
            if all.len() <= MAX_BAD_RANGES {
                all
            } else {
                all.take(MAX_BAD_RANGES as int)
            }
        }),
        r@.len() <= 8192,
        r@.len() < 8192 ==> r@ == ranges_among(map@.entries, damage()),
{
    let mut r: Vec<(u64, u64)> = damaged_ranges(map);
    if r.len() > MAX_BAD_RANGES {
        r.truncate(MAX_BAD_RANGES);
        assert(r@ =~= ranges_among(map@.entries, damage()).take(MAX_BAD_RANGES as int));
    }
    r
}

/// How much of the damage that a pass began with is still there, by a
/// mapfile's statistics: neither what is unread nor what is good.
pub open spec fn still_bad(st: MapStats) -> int {
    let tried = if st.bytes_pending >= st.bytes_nontried {
        st.bytes_pending - st.bytes_nontried
    } else {
        0
    };
    if tried + st.bytes_unreadable <= u64::MAX {
        tried + st.bytes_unreadable
    } else {
        u64::MAX as int
    }
}

/// The figures of a patch pass.
pub open spec fn patch_report(
    state: PatchLoopState,
    st: MapStats,
    reverse: bool,
    total_bytes: u64,
) -> PassFigures {
    PassFigures {
        kind: kind_of_pass(state.initial_batch, reverse),
        work_done: if state.work_total >= still_bad(st) {
            (state.work_total - still_bad(st)) as u64
        } else {
            0
        },
        work_total: state.work_total,
        bytes_good_total: st.bytes_good,
        bytes_unreadable_total: st.bytes_unreadable,
        bytes_pending_total: st.bytes_pending,
        bytes_retryable_total: st.bytes_retryable,
        bytes_total_disc: total_bytes,
    }
}

/// The figures of a patch pass: its work is the damage it began with, and what
/// is done is what is not damaged any more.
pub fn patch_figures(state: &PatchLoopState, st: &MapStats, reverse: bool, total_bytes: u64) -> (r:
    PassFigures)
    ensures
        r == patch_report(*state, *st, reverse, total_bytes),
        r == (PassFigures {
            kind: if state.initial_batch == 1 {
                PassKind::Scrape { reverse }
            } else {
                PassKind::Trim { reverse }
            },
            work_done: if state.work_total >= still_bad(*st) {
                (state.work_total - still_bad(*st)) as u64
            } else {
                0
            },
            work_total: state.work_total,
            bytes_good_total: st.bytes_good,
            bytes_unreadable_total: st.bytes_unreadable,
            bytes_pending_total: st.bytes_pending,
            bytes_retryable_total: st.bytes_retryable,
            bytes_total_disc: total_bytes,
        }),
{
    let still_bad: u64 = st.bytes_pending.saturating_sub(st.bytes_nontried).saturating_add(
        st.bytes_unreadable,
    );
    PassFigures {
        kind: pass_kind(state.initial_batch, reverse),
        work_done: state.work_total.saturating_sub(still_bad),
        work_total: state.work_total,
        bytes_good_total: st.bytes_good,
        bytes_unreadable_total: st.bytes_unreadable,
        bytes_pending_total: st.bytes_pending,
        bytes_retryable_total: st.bytes_retryable,
        bytes_total_disc: total_bytes,
    }
}

/// The outcome of a pass with some final statistics.
pub open spec fn outcome_of(
    state: PatchLoopState,
    stats: MapStats,
    total_bytes: u64,
    wedged_threshold: u64,
) -> PatchOutcome {
    PatchOutcome {
        bytes_total: total_bytes,
        bytes_good: stats.bytes_good,
        bytes_unreadable: stats.bytes_unreadable,
        bytes_pending: stats.bytes_pending,
        bytes_recovered_this_pass: if stats.bytes_good >= state.bytes_good_before {
            (stats.bytes_good - state.bytes_good_before) as u64
        } else {
            0
        },
        halted: state.halted,
        wedged_exit: state.wedged_exit,
        wedged_threshold,
    }
}

/// The outcome of a pass, by the mapfile's final statistics.
pub fn build_outcome(
    state: &PatchLoopState,
    stats: &MapStats,
    total_bytes: u64,
    wedged_threshold: u64,
) -> (r: PatchOutcome)
    ensures
        r == outcome_of(*state, *stats, total_bytes, wedged_threshold),
        r == (PatchOutcome {
            bytes_total: total_bytes,
            bytes_good: stats.bytes_good,
            bytes_unreadable: stats.bytes_unreadable,
            bytes_pending: stats.bytes_pending,
            bytes_recovered_this_pass: if stats.bytes_good >= state.bytes_good_before {
                (stats.bytes_good - state.bytes_good_before) as u64
            } else {
                0
            },
            halted: state.halted,
            wedged_exit: state.wedged_exit,
            wedged_threshold,
        }),
{
    PatchOutcome {
        bytes_total: total_bytes,
        bytes_good: stats.bytes_good,
        bytes_unreadable: stats.bytes_unreadable,
        bytes_pending: stats.bytes_pending,
        bytes_recovered_this_pass: stats.bytes_good.saturating_sub(state.bytes_good_before),
        halted: state.halted,
        wedged_exit: state.wedged_exit,
        wedged_threshold,
    }
}

/// A mapfile as far as it could be had.
#[derive(Debug)]
pub enum MapLoad {
    /// There is none.
    Missing,
    /// There is one, and it cannot be read.
    Corrupt,
    Loaded(Mapfile),
}

/// The ranges that count as bad for a loss report.
pub open spec fn lost(map: MapLoad) -> Seq<(u64, u64)> {
    match map {
        MapLoad::Missing => seq![],
        MapLoad::Corrupt => seq![(0u64, u64::MAX)],
        MapLoad::Loaded(m) => ranges_among(
            m@.entries,
            seq![
                SectorStatus::NonTried,
                SectorStatus::NonTrimmed,
                SectorStatus::NonScraped,
                SectorStatus::Unreadable,
            ],
        ),
    }
}

/// The ranges that count as bad for a loss report: none where nothing was ever
/// recorded, everything where the record is lost, else all that is not
/// confirmed good, unread territory with it.
pub fn loss_ranges(map: &MapLoad) -> (r: Vec<(u64, u64)>)
    ensures
        r@ == lost(*map),
        r@ == match *map {
            MapLoad::Missing => seq![],
            MapLoad::Corrupt => seq![(0u64, u64::MAX)],
            MapLoad::Loaded(m) => ranges_among(
                m@.entries,
                seq![
                    SectorStatus::NonTried,
                    SectorStatus::NonTrimmed,
                    SectorStatus::NonScraped,
                    SectorStatus::Unreadable,
                ],
            ),
        },
{
    match map {
        MapLoad::Missing => {
            let r: Vec<(u64, u64)> = Vec::new();
            assert(r@ =~= seq![]);
            r
        },
        MapLoad::Corrupt => {
            let mut r: Vec<(u64, u64)> = Vec::new();
            r.push((0, u64::MAX));
            assert(r@ =~= seq![(0u64, u64::MAX)]);
            r
        },
        MapLoad::Loaded(m) => {
            let statuses = bad_sector_statuses();
            m.ranges_with(statuses.as_slice())
        },
    }
}

/// A read widened to whole AACS units, and where the sectors that were asked
/// for stand in it.
#[derive(Debug, Clone, Copy, PartialEq, Eq, Structural)]
pub struct ReadWindow {
    /// The first sector to read.
    pub lba: u32,
    /// How many sectors to read.
    pub count: u32,
    /// How many of them come before the ones asked for.
    pub head: u32,
}

/// The read to make for some sectors. Where reads are decrypted in AACS units
/// and the sectors do not start and end on units, it takes in the units they
/// lie in.
pub fn recovery_window(decrypt_is_aacs: bool, lba: u32, count: u16) -> (r: ReadWindow)
    ensures
        !decrypt_is_aacs || (lba % 3 == 0 && count % 3 == 0) ==> r == (ReadWindow {
            lba,
            count: count as u32,
            head: 0,
        }),
        decrypt_is_aacs ==> r.lba % 3 == 0 && r.count % 3 == 0,
        r.lba + r.head == lba,
        r.head < 3,
        r.head + count <= r.count < r.head + count + 3,
{
    if decrypt_is_aacs && (lba % 3 != 0 || count % 3 != 0) {
        let head: u32 = lba % 3;
        let span: u32 = head + count as u32;
        let tail: u32 = (3 - span % 3) % 3;
        ReadWindow { lba: lba - head, count: span + tail, head }
    } else {
        ReadWindow { lba, count: count as u32, head: 0 }
    }
}

/// The bytes that were asked for, out of the bytes that were read.
pub fn recovered_bytes(window: &ReadWindow, count: u16, read: &[u8]) -> (r: Vec<u8>)
    requires
        window.head + count <= window.count,
        read@.len() == window.count * SECTOR,
    ensures
        r@ == read@.subrange(window.head * SECTOR, (window.head + count) * SECTOR),
{
    let n: usize = read.len();
    assert((window.head + count) * 2048 <= n);
    let from: usize = window.head as usize * 2048;
    let to: usize = from + count as usize * 2048;
    let mut out: Vec<u8> = Vec::new();
    let mut i: usize = from;
    while i < to
        invariant
            from <= i <= to,
            to <= read@.len(),
            out@ == read@.subrange(from as int, i as int),
        decreases to - i,
    {
        out.push(read[i]);
        assert(out@ =~= read@.subrange(from as int, i + 1));
        i = i + 1;
    }
    out
}

// ---------------------------------------------------------------------------
// Laws
// ---------------------------------------------------------------------------

/// Whether one place of a walk comes before another: an earlier tier, or an
/// earlier range of the same one.
pub open spec fn earlier(tier: int, index: int, other_tier: int, other_index: int) -> bool {
    tier < other_tier || (tier == other_tier && index < other_index)
}

/// A pass walks every range at one tier before any at the next, each in work
/// order; it never goes back, and passes over nothing that is still bad.
pub proof fn law_walk_passes_over_nothing_bad(s: PatchRunState, tier: int, index: int)
    requires
        run_inv(s),
        0 <= index < s.ordered.len(),
        !earlier(tier, index, s.tier, s.index),
        earlier(tier, index, sought(s).tier, sought(s).index),
        tier < tiers(s.flat),
    ensures
        s.sections[index].len() == 0,
    decreases tiers(s.flat) - s.tier, s.ordered.len() - s.index,
{
    if s.tier >= tiers(s.flat) {
    } else if s.index >= s.ordered.len() {
        let n = PatchRunState { tier: s.tier + 1, index: 0, ..s };
        law_walk_passes_over_nothing_bad(n, tier, index);
    } else if s.sections[s.index].len() == 0 {
        if !(tier == s.tier && index == s.index) {
            let n = PatchRunState { index: s.index + 1, ..s };
            law_walk_passes_over_nothing_bad(n, tier, index);
        }
    }
}

/// The walk only goes forward.
pub proof fn law_walk_goes_forward(s: PatchRunState)
    requires
        run_inv(s),
    ensures
        !earlier(sought(s).tier, sought(s).index, s.tier, s.index),
        sought(s).tier < tiers(s.flat) ==> sought(s).index < s.ordered.len() && s.sections[sought(
            s,
        ).index].len() > 0,
        sought(s).sections == s.sections,
        sought(s).flat == s.flat,
        sought(s).ordered == s.ordered,
    decreases tiers(s.flat) - s.tier, s.ordered.len() - s.index,
{
    if s.tier >= tiers(s.flat) {
    } else if s.index >= s.ordered.len() {
        law_walk_goes_forward(PatchRunState { tier: s.tier + 1, index: 0, ..s });
    } else if s.sections[s.index].len() == 0 {
        law_walk_goes_forward(PatchRunState { index: s.index + 1, ..s });
    }
}

/// With one pool, a range is done with before the next is begun: there is only
/// one tier, and it is the last.
pub proof fn law_one_pool_is_one_walk(s: PatchRunState)
    requires
        run_inv(s),
        s.flat,
        sought(s).tier < tiers(s.flat),
    ensures
        sought(s).tier == 0,
        s.tier == 0,
        unit_at(sought(s)).final_tier,
        sought(s).index >= s.index,
{
    law_walk_goes_forward(s);
}

/// Ranges that are in work order and hold the same are the same list: the order
/// of work depends on nothing but the ranges.
pub proof fn law_work_order_is_unique(a: Seq<(u64, u64)>, b: Seq<(u64, u64)>)
    requires
        in_work_order(a),
        in_work_order(b),
        a.to_multiset() == b.to_multiset(),
    ensures
        a == b,
{
    vstd::seq_lib::lemma_sorted_unique(a, b, |x: (u64, u64), y: (u64, u64)| before(x, y));
}

/// What a pass still has to do is the damage: all of it at the start, nothing
/// when none is left, and the same however the damage is called.
pub proof fn law_progress_counts_recovery(before: MapStats, after: MapStats)
    requires
        before.bytes_pending == before.bytes_nontried + before.bytes_retryable,
        after.bytes_pending == after.bytes_nontried + after.bytes_retryable,
        before.bytes_retryable + before.bytes_unreadable <= u64::MAX,
        after.bytes_retryable + after.bytes_unreadable <= u64::MAX,
    ensures
        still_bad(before) == before.bytes_retryable + before.bytes_unreadable,
        before.bytes_retryable + before.bytes_unreadable == after.bytes_retryable
            + after.bytes_unreadable ==> still_bad(before) == still_bad(after),
        before.bytes_retryable == 0 && before.bytes_unreadable == 0 ==> still_bad(before) == 0,
{
}

/// The entries that ranges make with one status.
pub open spec fn entries_with(rs: Seq<(u64, u64)>, status: SectorStatus) -> Seq<MapEntry> {
    rs.map_values(|r: (u64, u64)| MapEntry { pos: r.0, size: r.1, status })
}

pub proof fn lemma_entries_with(rs: Seq<(u64, u64)>, status: SectorStatus, x: int)
    ensures
        status_at(entries_with(rs, status), x) == if any_has(rs, x) {
            Some(status)
        } else {
            None
        },
    decreases rs.len(),
{
    let es = entries_with(rs, status);
    if rs.len() > 0 {
        let init = rs.drop_last();
        lemma_entries_with(init, status, x);
        assert(es.drop_last() =~= entries_with(init, status));
        assert(es.last() == es[es.len() - 1]);
        if any_has(rs, x) {
            let i = choose|i: int| 0 <= i < rs.len() && range_has(#[trigger] rs[i], x);
            if i < init.len() {
                assert(range_has(init[i], x));
            }
        }
        if any_has(init, x) {
            let i = choose|i: int| 0 <= i < init.len() && range_has(#[trigger] init[i], x);
            assert(range_has(rs[i], x));
        }
        if range_has(rs.last(), x) {
            assert(range_has(rs[rs.len() - 1], x));
        }
    }
}

/// What a pass records of a section: what was recovered of it is good, what was
/// not waits for a later pass, and no other byte changes. So a pass gives no
/// byte up.
pub proof fn law_a_patched_section_is_good_or_queued(
    es: Seq<MapEntry>,
    section: Seq<(u64, u64)>,
    spans: Seq<(u64, u64)>,
    x: int,
)
    requires
        ordered(es),
        apart(section),
        forall|i: int|
            0 <= i < spans.len() ==> (#[trigger] spans[i]).1 > 0 && range_end(spans[i])
                <= u64::MAX,
    ensures
        ({
            let residue = after_removals(section, spans);
            let items = entries_with(spans, SectorStatus::Finished) + entries_with(
                residue,
                SectorStatus::NonTrimmed,
            );
            status_at(all_recorded(es, items), x) == if any_has(spans, x) {
                Some(SectorStatus::Finished)
            } else if any_has(section, x) {
                Some(SectorStatus::NonTrimmed)
            } else {
                status_at(es, x)
            }
        }),
{
    let residue = after_removals(section, spans);
    let a = entries_with(spans, SectorStatus::Finished);
    let b = entries_with(residue, SectorStatus::NonTrimmed);
    let items = a + b;
    law_residue_is_what_was_not_recovered(section, spans, x);
    assert forall|i: int| 0 <= i < items.len() implies (#[trigger] items[i]).size > 0
        && items[i].end() <= u64::MAX by {
        if i < a.len() {
            assert(items[i] == a[i]);
            assert(spans[i].1 > 0);
        } else {
            assert(items[i] == b[i - a.len()]);
            assert(residue[i - a.len()].1 > 0);
        }
    }
    lemma_all_recorded(es, items);
    lemma_status_at_concat(a, b, x);
    lemma_entries_with(spans, SectorStatus::Finished, x);
    lemma_entries_with(residue, SectorStatus::NonTrimmed, x);
}

} // verus!
