//! What a pass tells a front-end.

use crate::entries::ranges_among;
use crate::mapfile::{MapStats, Mapfile};
use crate::status::{damage_sector_statuses, SectorStatus};
use vstd::prelude::*;

verus! {

/// The kinds of pass.
#[derive(Debug, Clone, Copy, PartialEq, Eq, Structural)]
pub enum PassKind {
    Sweep,
    /// A patch pass of single sectors.
    Scrape { reverse: bool },
    /// A patch pass of larger blocks.
    Trim { reverse: bool },
    Mux,
    Verify,
}

/// The stable key of a pass.
pub open spec fn pass_key(kind: PassKind) -> Seq<char> {
    match kind {
        PassKind::Sweep => "sweep"@,
        PassKind::Scrape { .. } => "patch-scrape"@,
        PassKind::Trim { .. } => "patch-trim"@,
        PassKind::Mux => "mux"@,
        PassKind::Verify => "verify"@,
    }
}

impl PassKind {
    /// The stable key of the pass, for a front-end to localize.
    pub fn key(self) -> (r: &'static str)
        ensures
            r@ == pass_key(self),
    {
        match self {
            PassKind::Sweep => "sweep",
            PassKind::Scrape { .. } => "patch-scrape",
            PassKind::Trim { .. } => "patch-trim",
            PassKind::Mux => "mux",
            PassKind::Verify => "verify",
        }
    }
}

/// The figures of a pass at one moment.
#[derive(Debug, Clone, Copy, PartialEq, Eq, Structural)]
pub struct PassFigures {
    pub kind: PassKind,
    pub work_done: u64,
    pub work_total: u64,
    pub bytes_good_total: u64,
    pub bytes_unreadable_total: u64,
    pub bytes_pending_total: u64,
    pub bytes_retryable_total: u64,
    pub bytes_total_disc: u64,
}

/// The statuses that are damage: tried and failed.
pub open spec fn damage() -> Seq<SectorStatus> {
    seq![SectorStatus::NonTrimmed, SectorStatus::NonScraped, SectorStatus::Unreadable]
}

/// The damaged ranges of a mapfile, in order.
pub fn damaged_ranges(map: &Mapfile) -> (r: Vec<(u64, u64)>)
    ensures
        r@ == ranges_among(map@.entries, damage()),
{
    let statuses = damage_sector_statuses();
    map.ranges_with(statuses.as_slice())
}

/// The figures that a mapfile alone gives: a point in time, not the progress
/// of a pass.
pub fn snapshot_figures(map: &Mapfile, kind: PassKind, bytes_total_disc: u64) -> (r: PassFigures)
    ensures
        r == (PassFigures {
            kind,
            work_done: 0,
            work_total: 0,
            bytes_good_total: map@.stats.bytes_good,
            bytes_unreadable_total: map@.stats.bytes_unreadable,
            bytes_pending_total: map@.stats.bytes_pending,
            bytes_retryable_total: map@.stats.bytes_retryable,
            bytes_total_disc,
        }),
{
    let st: MapStats = map.stats();
    PassFigures {
        kind,
        work_done: 0,
        work_total: 0,
        bytes_good_total: st.bytes_good,
        bytes_unreadable_total: st.bytes_unreadable,
        bytes_pending_total: st.bytes_pending,
        bytes_retryable_total: st.bytes_retryable,
        bytes_total_disc,
    }
}

/// The damage of a pass in whole sectors.
pub open spec fn bad_sectors(f: PassFigures) -> int {
    if f.bytes_unreadable_total + f.bytes_retryable_total <= u64::MAX {
        (f.bytes_unreadable_total + f.bytes_retryable_total) / 2048
    } else {
        u64::MAX as int / 2048
    }
}

/// How many bad sectors a pass reports: damage only, what is lost and what is
/// queued for a retry, in whole sectors. What has not been reached yet is not
/// damage.
pub fn sectors_bad(f: &PassFigures) -> (r: u64)
    ensures
        r == bad_sectors(*f),
{
    f.bytes_unreadable_total.saturating_add(f.bytes_retryable_total) / 2048
}

/// Damage is what was tried and failed: neither what is good nor what has not
/// been tried.
pub proof fn law_what_damage_is(s: SectorStatus)
    ensures
        damage().contains(s) <==> s is NonTrimmed || s is NonScraped || s is Unreadable,
{
    let d = damage();
    assert(d[0] is NonTrimmed && d[1] is NonScraped && d[2] is Unreadable);
}

/// What each pass is called.
pub proof fn law_what_a_pass_is_called(kind: PassKind)
    ensures
        kind is Sweep ==> pass_key(kind) == "sweep"@,
        kind is Scrape ==> pass_key(kind) == "patch-scrape"@,
        kind is Trim ==> pass_key(kind) == "patch-trim"@,
        kind is Mux ==> pass_key(kind) == "mux"@,
        kind is Verify ==> pass_key(kind) == "verify"@,
{
}

/// The bad sectors are what is lost and what is queued, in whole sectors of 2048
/// bytes; neither what is good nor what is unread counts.
pub proof fn law_bad_sectors_are_the_damage(f: PassFigures)
    ensures
        ({
            let bytes = f.bytes_unreadable_total + f.bytes_retryable_total;
            bytes <= u64::MAX ==> 2048 * bad_sectors(f) <= bytes < 2048 * (bad_sectors(f) + 1)
        }),
        bad_sectors(f) <= 0x1f_ffff_ffff_ffff,
{
}

} // verus!
