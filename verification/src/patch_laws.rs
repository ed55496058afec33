//! A patch pass in plain terms: when it may begin, the order of its work, and
//! what it tells.

use crate::disc::Disc;
use crate::entries::{status_at, MapEntry};
use crate::entry_laws::law_ranges_hold_the_bytes_of_their_statuses;
use crate::geometry::law_snapping_moves_out_to_sectors;
use crate::identity::identity_matches;
use crate::mapfile::{MapStats, MapView, MapfileInvalid};
use crate::patch::{
    before, flat_budget, in_work_order, item_entry, kind_of_pass, lost, not_trimmed, outcome_of,
    patch_report,
    patch_start, section_of, sought, tiers, unit_at, MapLoad, PatchItem, PatchLoopState,
    PatchRefusal, PatchRunState, FLAT_HANDLER_BUDGET_SECS, MAX_BAD_RANGES, PER_HANDLER_BUDGET_SECS,
    PROGRESS_TICK_MS, REPUBLISH_CADENCE_MS,
};
use crate::progress::PassKind;
use crate::sections::{any_has, law_what_ranges_hold};
use crate::status::SectorStatus;
use crate::text::{trimmed, unsigned_value};
use vstd::prelude::*;

verus! {

/// When a pass may begin: over the mapfile of the disc, and over an image that
/// has every byte the mapfile covers, unless its length says nothing. A wrong
/// disc is noticed first, and a short image is told with both lengths.
pub proof fn law_when_a_pass_may_begin(map: MapView, disc: Disc, len: u64, regular: bool)
    ensures
        patch_start(map, disc, len, regular) is Ok <==> identity_matches(map, disc) && (!regular
            || len >= map.total_size),
        !identity_matches(map, disc) <==> patch_start(map, disc, len, regular) == Err::<
            (),
            PatchRefusal,
        >(PatchRefusal::Mapfile(MapfileInvalid::DiscMismatch)),
        patch_start(map, disc, len, regular) matches Err(
            PatchRefusal::ImageTruncated { have, want },
        ) ==> have == len && want == map.total_size && have < want,
{
}

/// The paces of a pass: a technique has a minute, or twelve seconds in the pool;
/// progress and snapshots come four times a second; and a snapshot holds the
/// first 8192 damaged ranges.
pub proof fn law_the_paces_of_a_pass()
    ensures
        PER_HANDLER_BUDGET_SECS == 60,
        FLAT_HANDLER_BUDGET_SECS == 12,
        PROGRESS_TICK_MS == 250,
        REPUBLISH_CADENCE_MS == 250,
        MAX_BAD_RANGES == 8192,
{
}

/// In work order, of two ranges the larger comes first, and of two of one size
/// the one that starts lower.
pub proof fn law_the_largest_range_comes_first(rs: Seq<(u64, u64)>, i: int, j: int)
    requires
        in_work_order(rs),
        0 <= i < rs.len(),
        0 <= j < rs.len(),
        rs[i].1 > rs[j].1 || (rs[i].1 == rs[j].1 && rs[i].0 < rs[j].0),
    ensures
        i < j,
{
    if j < i {
        assert(before(rs[j], rs[i]));
    }
}

/// A pass walks three tiers, or one where the techniques share a pool; what
/// stays bad is recorded in the last.
pub proof fn law_the_last_tier(s: PatchRunState)
    requires
        0 <= sought(s).tier < 3,
        0 <= sought(s).index < s.ordered.len() <= usize::MAX,
        sought(s).ordered == s.ordered && sought(s).flat == s.flat,
    ensures
        tiers(false) == 3 && tiers(true) == 1,
        ({
            let u = unit_at(sought(s));
            &&& u.tier == sought(s).tier
            &&& u.range_idx == sought(s).index
            &&& (u.range_pos, u.range_size) == s.ordered[sought(s).index]
            &&& s.flat ==> (u.final_tier <==> u.tier == 0)
            &&& !s.flat ==> (u.final_tier <==> u.tier == 2)
        }),
{
}

/// The section of a damaged range is the sectors of 2048 bytes that the range
/// lies in.
pub proof fn law_the_section_of_a_range(r: (u64, u64))
    requires
        r.0 + r.1 <= 0xffff_ffff_ffff_f800,
    ensures
        r.1 == 0 ==> section_of(r).len() == 0,
        r.1 > 0 ==> {
            let s = section_of(r);
            &&& s.len() == 1
            &&& s[0].0 % 2048 == 0 && s[0].1 % 2048 == 0
            &&& s[0].0 <= r.0 < s[0].0 + 2048
            &&& r.0 + r.1 <= s[0].0 + s[0].1 < r.0 + r.1 + 2048
        },
{
    law_snapping_moves_out_to_sectors(r.0, r.1);
}

/// What counts as lost: nothing without a mapfile; everything where the mapfile
/// cannot be read; else every byte that the mapfile covers and does not say is
/// good, and no other.
pub proof fn law_what_counts_as_lost(map: MapLoad, x: int)
    requires
        map matches MapLoad::Loaded(m) ==> m.wf(),
    ensures
        map is Missing ==> !any_has(lost(map), x),
        map is Corrupt ==> (any_has(lost(map), x) <==> 0 <= x < 0xffff_ffff_ffff_ffff),
        map matches MapLoad::Loaded(m) ==> (any_has(lost(map), x) <==> status_at(
            m@.entries,
            x,
        ) is Some && !(status_at(m@.entries, x)->0 is Finished)),
{
    match map {
        MapLoad::Missing => {
            assert(lost(map) =~= Seq::<(u64, u64)>::empty());
        },
        MapLoad::Corrupt => {
            let none = Seq::<(u64, u64)>::empty();
            law_what_ranges_hold(none, (0, u64::MAX), x);
            assert(lost(map) =~= none.push((0, u64::MAX)));
        },
        MapLoad::Loaded(m) => {
            let bad = seq![
                SectorStatus::NonTried,
                SectorStatus::NonTrimmed,
                SectorStatus::NonScraped,
                SectorStatus::Unreadable,
            ];
            law_ranges_hold_the_bytes_of_their_statuses(m@.entries, bad, x);
            assert(bad[0] is NonTried && bad[1] is NonTrimmed && bad[2] is NonScraped
                && bad[3] is Unreadable);
        },
    }
}

/// What is recorded of an item: what was recovered is good, what was given up is
/// unreadable, what could not be read waits for a later pass; each over its own
/// bytes.
pub proof fn law_what_an_item_records(pos: u64, len: u64)
    ensures
        item_entry(PatchItem::Recovered { pos, len }) == (MapEntry {
            pos,
            size: len,
            status: SectorStatus::Finished,
        }),
        item_entry(PatchItem::Unreadable { pos, len }) == (MapEntry {
            pos,
            size: len,
            status: SectorStatus::Unreadable,
        }),
        item_entry(PatchItem::NonTrimmed { pos, len }) == (MapEntry {
            pos,
            size: len,
            status: SectorStatus::NonTrimmed,
        }),
{
}

/// Each range that stays bad is queued, and nothing else.
pub proof fn law_what_stays_bad_is_queued(rs: Seq<(u64, u64)>)
    ensures
        not_trimmed(rs).len() == rs.len(),
        forall|i: int|
            0 <= i < rs.len() ==> #[trigger] not_trimmed(rs)[i] == (PatchItem::NonTrimmed {
                pos: rs[i].0,
                len: rs[i].1,
            }),
{
}

/// The budget of each technique of the pool: twelve seconds, unless a number is
/// set; then that many, but at least one.
pub proof fn law_the_budget_of_the_pool(s: Seq<char>)
    ensures
        flat_budget(None) == 12,
        unsigned_value(trimmed(s), 10, 0xffff_ffff_ffff_ffff) is None ==> flat_budget(Some(s)) == 12,
        unsigned_value(trimmed(s), 10, 0xffff_ffff_ffff_ffff) matches Some(v) ==> flat_budget(
            Some(s),
        ) == if v == 0 {
            1int
        } else {
            v as int
        },
{
}

/// What a patch pass tells a front-end. Its work is the damage it began with,
/// and the part of it that is done is what is not damaged any more.
pub proof fn law_what_a_patch_pass_tells(
    state: PatchLoopState,
    st: MapStats,
    reverse: bool,
    total: u64,
)
    requires
        st.bytes_pending == st.bytes_nontried + st.bytes_retryable,
    ensures
        ({
            let f = patch_report(state, st, reverse, total);
            let damage = st.bytes_retryable + st.bytes_unreadable;
            &&& f.work_total == state.work_total
            &&& damage <= state.work_total ==> f.work_done + damage == state.work_total
            &&& damage > state.work_total ==> f.work_done == 0
            &&& f.bytes_good_total == st.bytes_good
            &&& f.bytes_unreadable_total == st.bytes_unreadable
            &&& f.bytes_pending_total == st.bytes_pending
            &&& f.bytes_retryable_total == st.bytes_retryable
            &&& f.bytes_total_disc == total
            &&& f.kind == kind_of_pass(state.initial_batch, reverse)
            &&& f.kind is Scrape <==> state.initial_batch == 1
            &&& f.kind is Trim <==> state.initial_batch != 1
            &&& f.kind matches PassKind::Scrape { reverse: r } ==> r == reverse
            &&& f.kind matches PassKind::Trim { reverse: r } ==> r == reverse
        }),
{
}

/// The outcome of a pass is what the mapfile says in the end; what was recovered
/// is how much more is good than before.
pub proof fn law_the_outcome_of_a_pass(state: PatchLoopState, st: MapStats, total: u64, n: u64)
    ensures
        ({
            let o = outcome_of(state, st, total, n);
            &&& o.bytes_total == total
            &&& o.bytes_good == st.bytes_good
            &&& o.bytes_unreadable == st.bytes_unreadable
            &&& o.bytes_pending == st.bytes_pending
            &&& state.bytes_good_before <= st.bytes_good ==> state.bytes_good_before
                + o.bytes_recovered_this_pass == st.bytes_good
            &&& state.bytes_good_before > st.bytes_good ==> o.bytes_recovered_this_pass == 0
            &&& o.halted == state.halted && o.wedged_exit == state.wedged_exit
            &&& o.wedged_threshold == n
        }),
{
}

} // verus!
