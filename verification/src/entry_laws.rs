//! What a list of ranges says, byte by byte, and what the statistics count.

use crate::entries::{
    bytes_with, count_with, gapless, lemma_recorded, maximal_runs, ordered, partitions,
    ranges_among, recorded, status_at, MapEntry,
};
use crate::mapfile::{fresh_map, reaches, stats_match, MapStats};
use crate::sections::{any_has, law_what_ranges_hold};
use crate::status::SectorStatus;
use crate::tallies::lemma_earlier_entries_end_below;
use vstd::prelude::*;

verus! {

/// What one more entry adds to a list: its status for the bytes from its
/// position on, as many as its size; to the bytes and the number of entries of
/// that status and of no other; and its range where the status is asked for.
pub proof fn law_what_an_entry_adds(
    es: Seq<MapEntry>,
    e: MapEntry,
    x: int,
    s: SectorStatus,
    among: Seq<SectorStatus>,
)
    ensures
        status_at(Seq::<MapEntry>::empty(), x) is None,
        bytes_with(Seq::<MapEntry>::empty(), s) == 0,
        count_with(Seq::<MapEntry>::empty(), s) == 0,
        ranges_among(Seq::<MapEntry>::empty(), among).len() == 0,
        e.pos <= x < e.pos + e.size ==> status_at(es.push(e), x) == Some(e.status),
        !(e.pos <= x < e.pos + e.size) ==> status_at(es.push(e), x) == status_at(es, x),
        e.status == s ==> bytes_with(es.push(e), s) == bytes_with(es, s) + e.size && count_with(
            es.push(e),
            s,
        ) == count_with(es, s) + 1,
        e.status != s ==> bytes_with(es.push(e), s) == bytes_with(es, s) && count_with(
            es.push(e),
            s,
        ) == count_with(es, s),
        among.contains(e.status) ==> ranges_among(es.push(e), among) == ranges_among(
            es,
            among,
        ).push((e.pos, e.size)),
        !among.contains(e.status) ==> ranges_among(es.push(e), among) == ranges_among(es, among),
{
    assert(es.push(e).drop_last() =~= es);
}

/// The ranges of some statuses hold exactly the bytes that have one of them.
pub proof fn law_ranges_hold_the_bytes_of_their_statuses(
    es: Seq<MapEntry>,
    among: Seq<SectorStatus>,
    x: int,
)
    requires
        ordered(es),
    ensures
        any_has(ranges_among(es, among), x) <==> status_at(es, x) is Some && among.contains(
            status_at(es, x)->0,
        ),
    decreases es.len(),
{
    if es.len() > 0 {
        let init = es.drop_last();
        let e = es.last();
        assert(ordered(init));
        law_ranges_hold_the_bytes_of_their_statuses(init, among, x);
        law_what_ranges_hold(ranges_among(init, among), (e.pos, e.size), x);
        if e.covers(x) {
            lemma_earlier_entries_end_below(es, x);
        }
    } else {
        law_what_ranges_hold(ranges_among(es, among), (0, 0), x);
        assert(ranges_among(es, among) =~= Seq::<(u64, u64)>::empty());
    }
}

/// What recording a range does: its bytes take its status, and every other byte
/// keeps its own. The list stays in order without shared bytes, and no two
/// entries that touch have one status. Where the list covered a disc without a
/// gap, and the range is part of it, it still does.
pub proof fn law_what_recording_a_range_does(
    es: Seq<MapEntry>,
    e: MapEntry,
    x: int,
    i: int,
    total: u64,
)
    requires
        ordered(es),
        0 < e.size,
        e.pos + e.size <= 0xffff_ffff_ffff_ffff,
    ensures
        ({
            let r = recorded(es, e);
            &&& e.pos <= x < e.pos + e.size ==> status_at(r, x) == Some(e.status)
            &&& !(e.pos <= x < e.pos + e.size) ==> status_at(r, x) == status_at(es, x)
            &&& 0 <= i < r.len() - 1 ==> r[i].pos + r[i].size <= r[i + 1].pos
            &&& 0 <= i < r.len() - 1 && r[i].pos + r[i].size == r[i + 1].pos ==> r[i].status != r[i
                + 1].status
            &&& partitions(es, total as int) && e.pos + e.size <= total ==> {
                &&& r.len() > 0 && r[0].pos == 0 && r.last().pos + r.last().size == total
                &&& 0 <= i < r.len() - 1 ==> r[i].pos + r[i].size == r[i + 1].pos
            }
        }),
{
    lemma_recorded(es, e);
    let r = recorded(es, e);
    assert(status_at(r, x) == if e.covers(x) {
        Some(e.status)
    } else {
        status_at(es, x)
    });
    if 0 <= i < r.len() - 1 {
        let j = i + 1;
        assert(r[i].end() <= r[j].pos);
        assert(maximal_runs(r));
        if partitions(es, total as int) && e.pos + e.size <= total {
            assert(partitions(r, total as int));
            assert(gapless(r));
            assert(r[i].end() == r[j].pos);
        }
    }
}

/// What the statistics count: with one more entry, its bytes are added to the
/// good, the unreadable, the untried or the retryable ones, as its status says;
/// the untried and the retryable are pending; and only unreadable entries are
/// bad ranges. The total is the disc's.
pub proof fn law_what_the_statistics_count(
    a: MapStats,
    b: MapStats,
    es: Seq<MapEntry>,
    e: MapEntry,
    total: u64,
)
    requires
        stats_match(a, es, total),
        stats_match(b, es.push(e), total),
    ensures
        a.bytes_total == total && b.bytes_total == total,
        a.bytes_pending == a.bytes_nontried + a.bytes_retryable,
        b.bytes_good - a.bytes_good == if e.status is Finished {
            e.size as int
        } else {
            0
        },
        b.bytes_unreadable - a.bytes_unreadable == if e.status is Unreadable {
            e.size as int
        } else {
            0
        },
        b.bytes_nontried - a.bytes_nontried == if e.status is NonTried {
            e.size as int
        } else {
            0
        },
        b.bytes_retryable - a.bytes_retryable == if e.status is NonTrimmed || e.status
            is NonScraped {
            e.size as int
        } else {
            0
        },
        b.num_bad_ranges - a.num_bad_ranges == if e.status is Unreadable {
            1int
        } else {
            0
        },
{
    assert(es.push(e).drop_last() =~= es);
}

/// A fresh mapfile: the whole disc has not been tried, all of it is pending, and
/// nothing is known of whose disc it is.
pub proof fn law_a_fresh_mapfile(total: u64, version: Seq<char>, x: int)
    ensures
        ({
            let v = fresh_map(total, version);
            &&& v.total_size == total && v.version == version && !v.dirty
            &&& v.vid is None && v.unit_keys.len() == 0
            &&& v.entries.len() == 1
            &&& 0 <= x < total ==> status_at(v.entries, x) == Some(SectorStatus::NonTried)
            &&& !(0 <= x < total) ==> status_at(v.entries, x) is None
            &&& v.stats.bytes_total == total && v.stats.bytes_pending == total
                && v.stats.bytes_nontried == total
            &&& v.stats.bytes_good == 0 && v.stats.bytes_unreadable == 0 && v.stats.bytes_retryable
                == 0 && v.stats.num_bad_ranges == 0
        }),
{
    let es = fresh_map(total, version).entries;
    assert(es.drop_last().len() == 0);
    assert(status_at(es.drop_last(), x) is None);
}

/// An entry is the next of a status beyond a position where it has that status
/// and a byte at the position or after it.
pub proof fn law_what_reaches_beyond(e: MapEntry, from: u64, status: SectorStatus)
    ensures
        reaches(e, from, status) <==> e.status == status && (e.pos + e.size > from),
        e.size > 0 ==> (reaches(e, from, status) <==> e.status == status && exists|x: int|
            from <= x && #[trigger] e.covers(x)),
{
    if e.size > 0 && e.pos + e.size > from {
        let x = e.pos + e.size - 1;
        assert(e.covers(x));
    }
}

/// The statistics of an empty list are all zero.
pub proof fn law_the_statistics_of_nothing(a: MapStats, total: u64)
    requires
        stats_match(a, Seq::<MapEntry>::empty(), total),
    ensures
        a.bytes_good == 0 && a.bytes_unreadable == 0 && a.bytes_pending == 0 && a.bytes_nontried
            == 0 && a.bytes_retryable == 0 && a.num_bad_ranges == 0,
{
}

} // verus!
