//! What a whole patch pass leaves behind, whatever the techniques recover.

use crate::entries::{
    lemma_recorded, lemma_status_at_concat, ordered, ranges_among, recorded, status_at, MapEntry,
};
use crate::geometry::{law_snapping_covers_the_range, snapped, LAST_SECTOR_END};
use crate::patch::{
    earlier, entries_with, item_entry, law_walk_goes_forward, law_walk_passes_over_nothing_bad,
    lemma_entries_with, new_run, not_trimmed, residue_of, run_inv, section_ended, section_of,
    section_outcome, sought, spanned, taken, tiers, unit_at, HandlerOutcome, PatchItem,
    PatchLoopState, PatchRunState,
};
use crate::progress::damage;
use crate::sections::{
    after_removals, any_has, apart, law_residue_is_what_was_not_recovered, range_end, range_has,
};
use crate::status::SectorStatus;
use crate::sweep_laws::lemma_ranges_among;
use crate::sweep_outcomes::lemma_range_of_entry;
use vstd::prelude::*;
use vstd::seq_lib::group_to_multiset_ensures;

verus! {

/// What came of one unit of work: the spans that were recovered, how the
/// techniques left the section, and whether the front-end asked for a halt.
#[verifier::ext_equal]
pub struct UnitWork {
    pub spans: Seq<(u64, u64)>,
    pub outcome: HandlerOutcome,
    pub cancelled: bool,
}

/// Whether the walk of a pass has come to its end.
pub open spec fn walked(s: PatchRunState) -> bool {
    sought(s).tier >= tiers(s.flat)
}

/// Whether a pass is over: its walk has ended, or it was halted, or the drive
/// was lost.
pub open spec fn over(s: PatchRunState) -> bool {
    s.state.halted || s.state.wedged_exit || walked(s)
}

/// What is still bad of the section of the next unit.
pub open spec fn bad_before(s: PatchRunState) -> Seq<(u64, u64)> {
    s.sections[sought(s).index]
}

/// The state of a pass after its next unit of work.
pub open spec fn worked(s: PatchRunState, w: UnitWork) -> PatchRunState {
    let u = sought(s);
    PatchRunState {
        index: u.index + 1,
        current: u.index,
        sections: u.sections.update(u.index, after_removals(bad_before(s), w.spans)),
        state: PatchLoopState {
            halted: u.state.halted || w.cancelled || w.outcome == HandlerOutcome::Halted,
            wedged_exit: u.state.wedged_exit || (!w.cancelled && w.outcome
                == HandlerOutcome::TransportFault),
            ..u.state
        },
        ..u
    }
}

/// What is recorded of the next unit of work: what was recovered, and in the
/// last tier what was not.
pub open spec fn unit_items(s: PatchRunState, w: UnitWork) -> Seq<PatchItem> {
    w.spans.map_values(|r: (u64, u64)| PatchItem::Recovered { pos: r.0, len: r.1 }) + if unit_at(
        sought(s),
    ).final_tier {
        not_trimmed(after_removals(bad_before(s), w.spans))
    } else {
        seq![]
    }
}

/// The entries once some items have been recorded.
pub open spec fn with_items(es: Seq<MapEntry>, items: Seq<PatchItem>) -> Seq<MapEntry>
    decreases items.len(),
{
    if items.len() == 0 {
        es
    } else {
        let before = with_items(es, items.drop_last());
        let e = item_entry(items.last());
        if e.size == 0 {
            before
        } else {
            recorded(before, e)
        }
    }
}

/// A pass and the entries it works on, after a number of units of work. Once
/// the pass is over, nothing more happens.
pub open spec fn patched(s: PatchRunState, es: Seq<MapEntry>, work: Seq<UnitWork>) -> (
    PatchRunState,
    Seq<MapEntry>,
)
    decreases work.len(),
{
    if work.len() == 0 {
        (s, es)
    } else {
        let (t, fs) = patched(s, es, work.drop_last());
        if over(t) {
            (t, fs)
        } else {
            (worked(t, work.last()), with_items(fs, unit_items(t, work.last())))
        }
    }
}

/// Whether a byte has been recovered in a pass.
pub open spec fn recovered_in(
    s: PatchRunState,
    es: Seq<MapEntry>,
    work: Seq<UnitWork>,
    x: int,
) -> bool
    decreases work.len(),
{
    work.len() > 0 && (recovered_in(s, es, work.drop_last(), x) || (!over(
        patched(s, es, work.drop_last()).0,
    ) && any_has(work.last().spans, x)))
}

/// Whether the techniques have only recovered bytes of the ranges that they
/// were given.
pub open spec fn kept_to_sections(
    s: PatchRunState,
    es: Seq<MapEntry>,
    work: Seq<UnitWork>,
) -> bool
    decreases work.len(),
{
    work.len() > 0 ==> {
        let t = patched(s, es, work.drop_last()).0;
        &&& kept_to_sections(s, es, work.drop_last())
        &&& !over(t) ==> forall|x: int| #[trigger]
            any_has(work.last().spans, x) ==> any_has(s.sections[sought(t).index], x)
    }
}

/// Whether a byte lies in one of the ranges of a pass, on whole sectors.
pub open spec fn in_sections(s: PatchRunState, x: int) -> bool {
    exists|i: int| 0 <= i < s.sections.len() && any_has(#[trigger] s.sections[i], x)
}

/// A pass that is about to begin on the entries of a mapfile: it is to work on
/// what is damaged.
pub open spec fn patch_begins(s: PatchRunState, es: Seq<MapEntry>) -> bool {
    &&& run_inv(s)
    &&& s.tier == 0 && s.index == 0
    &&& s.ordered.to_multiset() == ranges_among(es, damage()).to_multiset()
    &&& forall|i: int|
        0 <= i < s.ordered.len() ==> #[trigger] s.sections[i] == section_of(s.ordered[i])
    &&& forall|i: int|
        0 <= i < s.ordered.len() ==> range_end(#[trigger] s.ordered[i]) <= LAST_SECTOR_END
    &&& ordered(es)
}

/// Every span ends within the address space.
pub open spec fn spans_fit(spans: Seq<(u64, u64)>) -> bool {
    forall|i: int| 0 <= i < spans.len() ==> range_end(#[trigger] spans[i]) <= u64::MAX
}

/// Good, or left for a later pass.
pub open spec fn good_or_queued(status: Option<SectorStatus>) -> bool {
    status == Some(SectorStatus::Finished) || status == Some(SectorStatus::NonTrimmed)
}

/// A pass over the damage of a mapfile begins on all of it.
pub proof fn law_a_new_pass_begins_on_the_damage(
    s: PatchRunState,
    es: Seq<MapEntry>,
    flat: bool,
    state: PatchLoopState,
)
    requires
        new_run(s, ranges_among(es, damage()), flat, state),
        ordered(es),
        forall|i: int| 0 <= i < es.len() ==> (#[trigger] es[i]).end() <= 0xffff_ffff_ffff_f800,
    ensures
        patch_begins(s, es),
        s.flat == flat,
        s.state == state,
{
    broadcast use group_to_multiset_ensures;

    let rs = ranges_among(es, damage());
    assert forall|i: int| 0 <= i < s.ordered.len() implies range_end(#[trigger] s.ordered[i])
        <= LAST_SECTOR_END by {
        let r = s.ordered[i];
        assert(s.ordered.contains(r));
        assert(s.ordered.to_multiset().count(r) > 0);
        assert(rs.to_multiset().count(r) > 0);
        assert(rs.contains(r));
        let j = choose|j: int| 0 <= j < rs.len() && rs[j] == r;
        lemma_range_of_entry(es, damage(), j);
        let k = choose|k: int| 0 <= k < es.len() && rs[j] == ((#[trigger] es[k]).pos, es[k].size);
        assert(es[k].end() <= 0xffff_ffff_ffff_f800);
    }
}

/// The state with some spans of the section recovered, one after another.
pub open spec fn all_spanned(s: PatchRunState, spans: Seq<(u64, u64)>) -> PatchRunState
    decreases spans.len(),
{
    if spans.len() == 0 {
        s
    } else {
        spanned(all_spanned(s, spans.drop_last()), spans.last().0, spans.last().1)
    }
}

proof fn lemma_all_spanned(s: PatchRunState, spans: Seq<(u64, u64)>)
    requires
        0 <= s.current < s.sections.len(),
    ensures
        all_spanned(s, spans) == (PatchRunState {
            sections: s.sections.update(
                s.current,
                after_removals(s.sections[s.current], spans),
            ),
            ..s
        }),
    decreases spans.len(),
{
    if spans.len() == 0 {
        assert(s.sections =~= s.sections.update(s.current, s.sections[s.current]));
    } else {
        lemma_all_spanned(s, spans.drop_last());
        assert(all_spanned(s, spans).sections =~= s.sections.update(
            s.current,
            after_removals(s.sections[s.current], spans),
        ));
    }
}

/// A unit of work is what its steps come to: the section is taken up, each span
/// recovered is taken out of it, what is left of it is recorded in the last tier,
/// and the section is ended.
pub proof fn law_a_unit_of_work_step_by_step(s: PatchRunState, w: UnitWork)
    requires
        run_inv(s),
        !walked(s),
    ensures
        ({
            let t = all_spanned(taken(s), w.spans);
            &&& section_ended(t, w.outcome, w.cancelled) == worked(s, w)
            &&& unit_items(s, w) == w.spans.map_values(
                |r: (u64, u64)| PatchItem::Recovered { pos: r.0, len: r.1 },
            ) + residue_of(t, unit_at(sought(s)).final_tier)
        }),
{
    law_walk_goes_forward(s);
    lemma_sought_in_range(s);
    lemma_all_spanned(taken(s), w.spans);
    let t = all_spanned(taken(s), w.spans);
    assert(t.sections[t.current] == after_removals(bad_before(s), w.spans));
    assert(section_ended(t, w.outcome, w.cancelled) =~= worked(s, w));
}

/// How a section ends: a halt that was asked for comes first; then a lost drive
/// or a halt ends the pass, and anything else goes on. What has been noted of a
/// pass is never taken back.
pub proof fn law_how_a_section_ends(s: PatchRunState, outcome: HandlerOutcome, cancelled: bool)
    ensures
        ({
            let r = section_outcome(outcome, cancelled);
            let t = section_ended(s, outcome, cancelled);
            &&& r is Halted <==> cancelled || outcome is Halted
            &&& r is TransportFault <==> !cancelled && outcome is TransportFault
            &&& r is Completed <==> !cancelled && (outcome is Complete || outcome is Remaining)
            &&& t.state.halted <==> s.state.halted || r is Halted
            &&& t.state.wedged_exit <==> s.state.wedged_exit || r is TransportFault
            &&& t.sections == s.sections && t.tier == s.tier && t.index == s.index && t.ordered
                == s.ordered && t.current == s.current && t.flat == s.flat
            &&& t.state.bytes_good_before == s.state.bytes_good_before && t.state.work_total
                == s.state.work_total && t.state.initial_batch == s.state.initial_batch
        }),
{
}

/// Items give each byte the status of the last of them over it.
proof fn lemma_with_items(es: Seq<MapEntry>, items: Seq<PatchItem>, x: int)
    requires
        ordered(es),
        forall|i: int| 0 <= i < items.len() ==> item_entry(#[trigger] items[i]).end() <= u64::MAX,
    ensures
        ordered(with_items(es, items)),
        ({
            let last = status_at(items.map_values(|i: PatchItem| item_entry(i)), x);
            status_at(with_items(es, items), x) == if last is Some {
                last
            } else {
                status_at(es, x)
            }
        }),
    decreases items.len(),
{
    let rs = items.map_values(|i: PatchItem| item_entry(i));
    if items.len() > 0 {
        let init = items.drop_last();
        let e = item_entry(items.last());
        assert(items.last() == items[items.len() - 1]);
        assert forall|i: int| 0 <= i < init.len() implies item_entry(#[trigger] init[i]).end()
            <= u64::MAX by {
            assert(init[i] == items[i]);
        }
        lemma_with_items(es, init, x);
        assert(rs.drop_last() =~= init.map_values(|i: PatchItem| item_entry(i)));
        assert(rs.last() == e);
        if e.size > 0 {
            lemma_recorded(with_items(es, init), e);
            assert(status_at(recorded(with_items(es, init), e), x) == if e.covers(x) {
                Some(e.status)
            } else {
                status_at(with_items(es, init), x)
            });
        }
    }
}

/// What one unit of work does to a byte.
proof fn lemma_unit(t: PatchRunState, fs: Seq<MapEntry>, w: UnitWork, x: int)
    requires
        run_inv(t),
        ordered(fs),
        spans_fit(w.spans),
        !over(t),
    ensures
        run_inv(worked(t, w)),
        ordered(with_items(fs, unit_items(t, w))),
        0 <= sought(t).index < t.sections.len(),
        any_has(worked(t, w).sections[sought(t).index], x) <==> any_has(bad_before(t), x)
            && !any_has(w.spans, x),
        status_at(with_items(fs, unit_items(t, w)), x) == if any_has(w.spans, x) {
            Some(SectorStatus::Finished)
        } else if unit_at(sought(t)).final_tier && any_has(bad_before(t), x) {
            Some(SectorStatus::NonTrimmed)
        } else {
            status_at(fs, x)
        },
{
    let u = sought(t);
    law_walk_goes_forward(t);
    lemma_sought_in_range(t);
    let section = bad_before(t);
    let left = after_removals(section, w.spans);
    law_residue_is_what_was_not_recovered(section, w.spans, x);
    let m = worked(t, w);
    assert forall|i: int| 0 <= i < m.sections.len() implies apart(#[trigger] m.sections[i]) by {
        if i != u.index {
            assert(m.sections[i] == t.sections[i]);
        }
    }
    let items = unit_items(t, w);
    let got = w.spans.map_values(|r: (u64, u64)| PatchItem::Recovered { pos: r.0, len: r.1 });
    let rest = if unit_at(u).final_tier {
        not_trimmed(left)
    } else {
        seq![]
    };
    let a = entries_with(w.spans, SectorStatus::Finished);
    let b = if unit_at(u).final_tier {
        entries_with(left, SectorStatus::NonTrimmed)
    } else {
        seq![]
    };
    assert forall|i: int| 0 <= i < items.len() implies item_entry(#[trigger] items[i]).end()
        <= u64::MAX by {
        if i < got.len() {
            assert(items[i] == got[i]);
            assert(range_end(w.spans[i]) <= u64::MAX);
        } else {
            assert(items[i] == rest[i - got.len()]);
            assert(range_end(left[i - got.len()]) <= u64::MAX);
        }
    }
    let rs = items.map_values(|i: PatchItem| item_entry(i));
    assert(rs =~= a + b);
    lemma_with_items(fs, items, x);
    lemma_status_at_concat(a, b, x);
    lemma_entries_with(w.spans, SectorStatus::Finished, x);
    lemma_entries_with(left, SectorStatus::NonTrimmed, x);
    if !unit_at(u).final_tier {
        assert(status_at(b, x) is None);
    }
}

/// The walk stays within its ranges, and keeps what is no part of it.
proof fn lemma_sought_in_range(s: PatchRunState)
    requires
        run_inv(s),
    ensures
        run_inv(sought(s)),
        sought(s).state == s.state,
        sought(s).current == s.current,
        sought(s).tier >= s.tier,
    decreases tiers(s.flat) - s.tier, s.ordered.len() - s.index,
{
    if s.tier >= tiers(s.flat) {
    } else if s.index >= s.ordered.len() {
        lemma_sought_in_range(PatchRunState { tier: s.tier + 1, index: 0, ..s });
    } else if s.sections[s.index].len() == 0 {
        lemma_sought_in_range(PatchRunState { index: s.index + 1, ..s });
    }
}

/// A place of the last tier that the walk passes over holds nothing bad.
proof fn lemma_passed(t: PatchRunState, i: int, x: int)
    requires
        run_inv(t),
        0 <= i < t.sections.len(),
        !earlier(tiers(t.flat) - 1, i, t.tier, t.index),
        earlier(tiers(t.flat) - 1, i, sought(t).tier, sought(t).index),
    ensures
        !any_has(t.sections[i], x),
{
    law_walk_passes_over_nothing_bad(t, tiers(t.flat) - 1, i);
}

/// What a pass keeps all along, of one byte.
proof fn lemma_patched(s: PatchRunState, es: Seq<MapEntry>, work: Seq<UnitWork>, x: int)
    requires
        patch_begins(s, es),
        forall|k: int| 0 <= k < work.len() ==> spans_fit((#[trigger] work[k]).spans),
    ensures
        ({
            let (t, fs) = patched(s, es, work);
            let now = status_at(fs, x);
            &&& run_inv(t)
            &&& ordered(fs)
            &&& t.sections.len() == s.sections.len()
            &&& t.flat == s.flat
            &&& good_or_queued(now) || now == status_at(es, x)
            &&& !in_sections(s, x) && !recovered_in(s, es, work, x) ==> now == status_at(es, x)
            &&& forall|i: int|
                0 <= i < t.sections.len() && any_has(#[trigger] t.sections[i], x) ==> any_has(
                    s.sections[i],
                    x,
                )
            &&& forall|i: int|
                0 <= i < t.sections.len() && !any_has(#[trigger] t.sections[i], x) && any_has(
                    s.sections[i],
                    x,
                ) ==> good_or_queued(now)
            &&& forall|i: int|
                0 <= i < t.sections.len() && earlier(tiers(t.flat) - 1, i, t.tier, t.index)
                    && any_has(#[trigger] t.sections[i], x) ==> good_or_queued(now)
        }),
    decreases work.len(),
{
    if work.len() > 0 {
        let init = work.drop_last();
        let w = work.last();
        assert forall|k: int| 0 <= k < init.len() implies spans_fit((#[trigger] init[k]).spans) by {
            assert(init[k] == work[k]);
        }
        assert(w == work[work.len() - 1]);
        lemma_patched(s, es, init, x);
        let (t, fs) = patched(s, es, init);
        if !over(t) {
            let u = sought(t);
            let m = worked(t, w);
            let last = tiers(t.flat) - 1;
            lemma_unit(t, fs, w, x);
            law_walk_goes_forward(t);
            lemma_sought_in_range(t);
            let gs = with_items(fs, unit_items(t, w));
            let now = status_at(gs, x);
            assert(any_has(bad_before(t), x) ==> any_has(s.sections[u.index], x));
            assert forall|i: int| 0 <= i < m.sections.len() && any_has(
                #[trigger] m.sections[i],
                x,
            ) implies any_has(s.sections[i], x) by {
                if i != u.index {
                    assert(m.sections[i] == t.sections[i]);
                }
            }
            assert forall|i: int|
                0 <= i < m.sections.len() && !any_has(#[trigger] m.sections[i], x) && any_has(
                    s.sections[i],
                    x,
                ) implies good_or_queued(now) by {
                if i != u.index {
                    assert(m.sections[i] == t.sections[i]);
                } else if !any_has(t.sections[i], x) {
                    assert(good_or_queued(status_at(fs, x)));
                }
            }
            assert forall|i: int|
                0 <= i < m.sections.len() && earlier(last, i, m.tier, m.index) && any_has(
                    #[trigger] m.sections[i],
                    x,
                ) implies good_or_queued(now) by {
                if i != u.index {
                    assert(m.sections[i] == t.sections[i]);
                    if !earlier(last, i, t.tier, t.index) {
                        lemma_passed(t, i, x);
                    }
                } else {
                    assert(unit_at(u).final_tier);
                }
            }
        }
    }
}

/// Every damaged byte lies in one of the ranges of a pass.
proof fn lemma_damage_is_in_sections(s: PatchRunState, es: Seq<MapEntry>, x: int)
    requires
        patch_begins(s, es),
        status_at(es, x) is Some,
        damage().contains(status_at(es, x)->0),
    ensures
        in_sections(s, x),
{
    broadcast use group_to_multiset_ensures;

    let rs = ranges_among(es, damage());
    lemma_ranges_among(es, damage(), x);
    let j = choose|j: int| 0 <= j < rs.len() && (#[trigger] rs[j]).0 <= x < rs[j].0 + rs[j].1;
    let r = rs[j];
    assert(rs.contains(r));
    assert(rs.to_multiset().count(r) > 0);
    assert(s.ordered.to_multiset().count(r) > 0);
    assert(s.ordered.contains(r));
    let i = choose|i: int| 0 <= i < s.ordered.len() && s.ordered[i] == r;
    assert(range_end(s.ordered[i]) <= LAST_SECTOR_END);
    law_snapping_covers_the_range(r.0, r.1);
    let (p, l) = snapped(r.0, r.1);
    assert(s.sections[i] == section_of(s.ordered[i]));
    assert(range_has(s.sections[i][0], x));
    assert(any_has(s.sections[i], x));
}

/// A patch pass that has walked all its ranges leaves every byte of the damage
/// it began with good, or queued for a later pass. It gives no byte up, and a
/// byte outside its ranges that was not recovered on the way is as it was.
pub proof fn law_a_patch_pass_leaves_the_damage_good_or_queued(
    s: PatchRunState,
    es: Seq<MapEntry>,
    work: Seq<UnitWork>,
    x: int,
)
    requires
        patch_begins(s, es),
        forall|k: int| 0 <= k < work.len() ==> spans_fit((#[trigger] work[k]).spans),
    ensures
        ({
            let (t, fs) = patched(s, es, work);
            let now = status_at(fs, x);
            &&& walked(t) && status_at(es, x) is Some && damage().contains(status_at(es, x)->0)
                ==> good_or_queued(now)
            &&& walked(t) && in_sections(s, x) ==> good_or_queued(now)
            &&& good_or_queued(now) || now == status_at(es, x)
            &&& !in_sections(s, x) && !recovered_in(s, es, work, x) ==> now == status_at(es, x)
        }),
{
    lemma_patched(s, es, work, x);
    let (t, fs) = patched(s, es, work);
    if status_at(es, x) is Some && damage().contains(status_at(es, x)->0) {
        lemma_damage_is_in_sections(s, es, x);
    }
    if walked(t) && in_sections(s, x) {
        let i = choose|i: int| 0 <= i < s.sections.len() && any_has(#[trigger] s.sections[i], x);
        if any_has(t.sections[i], x) && !earlier(tiers(t.flat) - 1, i, t.tier, t.index) {
            lemma_passed(t, i, x);
        }
    }
}

/// What a pass keeps all along, of a byte that lies in at most one of its
/// ranges, while the techniques keep to theirs.
proof fn lemma_patched_exactly(s: PatchRunState, es: Seq<MapEntry>, work: Seq<UnitWork>, x: int)
    requires
        patch_begins(s, es),
        forall|k: int| 0 <= k < work.len() ==> spans_fit((#[trigger] work[k]).spans),
        kept_to_sections(s, es, work),
        forall|i: int, j: int|
            0 <= i < j < s.sections.len() ==> !(any_has(#[trigger] s.sections[i], x) && any_has(
                #[trigger] s.sections[j],
                x,
            )),
    ensures
        ({
            let (t, fs) = patched(s, es, work);
            let now = status_at(fs, x);
            &&& recovered_in(s, es, work, x) ==> now == Some(SectorStatus::Finished) && in_sections(
                s,
                x,
            )
            &&& recovered_in(s, es, work, x) ==> forall|i: int|
                0 <= i < t.sections.len() ==> !any_has(#[trigger] t.sections[i], x)
            &&& !recovered_in(s, es, work, x) ==> forall|i: int|
                0 <= i < t.sections.len() ==> (any_has(#[trigger] t.sections[i], x) <==> any_has(
                    s.sections[i],
                    x,
                ))
            &&& !recovered_in(s, es, work, x) ==> forall|i: int|
                0 <= i < t.sections.len() && earlier(tiers(t.flat) - 1, i, t.tier, t.index)
                    && any_has(#[trigger] t.sections[i], x) ==> now == Some(
                    SectorStatus::NonTrimmed,
                )
        }),
    decreases work.len(),
{
    lemma_patched(s, es, work, x);
    if work.len() > 0 {
        let init = work.drop_last();
        let w = work.last();
        assert forall|k: int| 0 <= k < init.len() implies spans_fit((#[trigger] init[k]).spans) by {
            assert(init[k] == work[k]);
        }
        assert(w == work[work.len() - 1]);
        lemma_patched_exactly(s, es, init, x);
        lemma_patched(s, es, init, x);
        let (t, fs) = patched(s, es, init);
        if !over(t) {
            let u = sought(t);
            let m = worked(t, w);
            let last = tiers(t.flat) - 1;
            lemma_unit(t, fs, w, x);
            law_walk_goes_forward(t);
            lemma_sought_in_range(t);
            if any_has(w.spans, x) {
                assert(any_has(s.sections[u.index], x));
            }
            assert forall|i: int| 0 <= i < m.sections.len() && i != u.index implies any_has(
                #[trigger] m.sections[i],
                x,
            ) == any_has(t.sections[i], x) by {
                assert(m.sections[i] == t.sections[i]);
            }
            if recovered_in(s, es, work, x) {
                assert forall|i: int| 0 <= i < m.sections.len() implies !any_has(
                    #[trigger] m.sections[i],
                    x,
                ) by {
                    if i != u.index && any_has(w.spans, x) && any_has(m.sections[i], x) {
                        assert(any_has(t.sections[i], x));
                        assert(any_has(s.sections[i], x));
                    }
                }
            } else {
                assert forall|i: int|
                    0 <= i < m.sections.len() && earlier(last, i, m.tier, m.index) && any_has(
                        #[trigger] m.sections[i],
                        x,
                    ) implies status_at(with_items(fs, unit_items(t, w)), x) == Some(
                    SectorStatus::NonTrimmed,
                ) by {
                    if i != u.index {
                        assert(any_has(t.sections[i], x));
                        if !earlier(last, i, t.tier, t.index) {
                            lemma_passed(t, i, x);
                        }
                    } else {
                        assert(unit_at(u).final_tier);
                    }
                }
            }
        }
    }
}

/// Where the techniques recover only bytes of the ranges they are given, a pass
/// changes no byte outside its ranges, on whole sectors. And of a byte that
/// lies in only one of them the outcome is exact: good where it was recovered,
/// and never taken back; queued where it was not, once the walk has ended.
pub proof fn law_a_patch_pass_records_exactly_what_was_recovered(
    s: PatchRunState,
    es: Seq<MapEntry>,
    work: Seq<UnitWork>,
    x: int,
)
    requires
        patch_begins(s, es),
        forall|k: int| 0 <= k < work.len() ==> spans_fit((#[trigger] work[k]).spans),
        kept_to_sections(s, es, work),
    ensures
        ({
            let (t, fs) = patched(s, es, work);
            let now = status_at(fs, x);
            &&& !in_sections(s, x) ==> now == status_at(es, x)
            &&& (forall|i: int, j: int|
                0 <= i < j < s.sections.len() ==> !(any_has(#[trigger] s.sections[i], x) && any_has(
                    #[trigger] s.sections[j],
                    x,
                ))) && in_sections(s, x) ==> {
                &&& recovered_in(s, es, work, x) ==> now == Some(SectorStatus::Finished)
                &&& !recovered_in(s, es, work, x) && walked(t) ==> now == Some(
                    SectorStatus::NonTrimmed,
                )
            }
        }),
{
    lemma_patched(s, es, work, x);
    let (t, fs) = patched(s, es, work);
    if !in_sections(s, x) {
        lemma_kept(s, es, work, x);
    }
    if (forall|i: int, j: int|
        0 <= i < j < s.sections.len() ==> !(any_has(#[trigger] s.sections[i], x) && any_has(
            #[trigger] s.sections[j],
            x,
        ))) && in_sections(s, x) {
        lemma_patched_exactly(s, es, work, x);
        if !recovered_in(s, es, work, x) && walked(t) {
            let i = choose|i: int|
                0 <= i < s.sections.len() && any_has(#[trigger] s.sections[i], x);
            assert(any_has(t.sections[i], x));
            if !earlier(tiers(t.flat) - 1, i, t.tier, t.index) {
                lemma_passed(t, i, x);
            }
        }
    }
}

/// Techniques that keep to their ranges recover nothing outside them.
proof fn lemma_kept(s: PatchRunState, es: Seq<MapEntry>, work: Seq<UnitWork>, x: int)
    requires
        patch_begins(s, es),
        forall|k: int| 0 <= k < work.len() ==> spans_fit((#[trigger] work[k]).spans),
        kept_to_sections(s, es, work),
        !in_sections(s, x),
    ensures
        !recovered_in(s, es, work, x),
    decreases work.len(),
{
    if work.len() > 0 {
        let init = work.drop_last();
        assert forall|k: int| 0 <= k < init.len() implies spans_fit((#[trigger] init[k]).spans) by {
            assert(init[k] == work[k]);
        }
        lemma_kept(s, es, init, x);
        lemma_patched(s, es, init, x);
        let t = patched(s, es, init).0;
        if !over(t) && any_has(work.last().spans, x) {
            law_walk_goes_forward(t);
            lemma_sought_in_range(t);
            assert(any_has(s.sections[sought(t).index], x));
        }
    }
}

} // verus!
