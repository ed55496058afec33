//! What a whole sweep leaves behind: each byte as the last read over it came
//! out, and as many more good bytes as were read.

use crate::entries::{
    bytes_with, lemma_bytes_bound, lemma_chain_bytes, ordered, partitions, ranges_among, status_at,
    MapEntry,
};
use crate::geometry::{round_down, round_up, snapped, LAST_SECTOR_END, SECTOR, UNIT_BYTES};
use crate::read_error::{after_failure, least, ReadAction};
use crate::sections::{lemma_sum_len_grows, sum_len};
use crate::status::SectorStatus;
use crate::sweep::{
    block_len, figures, law_failed_reads_record_what_they_pass, law_figures_partition_the_disc,
    law_good_never_exceeds_done, law_good_reads_record_what_they_pass,
    lemma_jump, recorded_by, records_lead, region_begun, settled, sweep_inv, SweepAction,
    SweepState,
};
use crate::sweep_laws::{
    addressable, ahead, begins, in_region, in_window, law_a_finished_sweep_leaves_nothing_untried,
    law_outcomes_are_recorded, lemma_begun, lemma_records_of_one_status, lemma_stepped,
    lemma_swept, lemma_untried_is_ahead, running, stepped, swept, with_records, ReadResult,
};
use crate::tallies::{law_recording_moves_the_bytes, lemma_earlier_entries_end_below};
use vstd::prelude::*;

verus! {

/// The last read that passed over a byte, if one did. A read that is to be
/// tried again passes over nothing.
pub open spec fn last_read_over(
    s: SweepState,
    es: Seq<MapEntry>,
    reads: Seq<ReadResult>,
    x: int,
) -> Option<ReadResult>
    decreases reads.len(),
{
    if reads.len() == 0 {
        None
    } else {
        let t = swept(s, es, reads.drop_last()).0;
        if t.pos < t.region_end && t.pos <= x < stepped(t, reads.last()).0.pos {
            Some(reads.last())
        } else {
            last_read_over(s, es, reads.drop_last(), x)
        }
    }
}

proof fn lemma_last_read(s: SweepState, es: Seq<MapEntry>, reads: Seq<ReadResult>, x: int)
    requires
        begins(s, es),
        reads.len() < u64::MAX,
    ensures
        status_at(swept(s, es, reads).1, x) == match last_read_over(s, es, reads, x) {
            Some(ReadResult::Good) => Some(SectorStatus::Finished),
            Some(ReadResult::Failed(f)) => Some(SectorStatus::NonTrimmed),
            None => status_at(es, x),
        },
    decreases reads.len(),
{
    if reads.len() > 0 {
        let init = reads.drop_last();
        lemma_last_read(s, es, init, x);
        lemma_untried_is_ahead(s, es);
        lemma_swept(s, es, init);
        let (t, fs) = swept(s, es, init);
        if t.pos < t.region_end {
            law_outcomes_are_recorded(t, reads.last(), fs, x);
        }
    }
}

/// After any number of reads each byte is as the last read over it came out:
/// good where that read succeeded, left for a later pass where it failed, and
/// as it was where no read passed over it. A sweep that comes to its end has
/// passed over every byte that had not been tried.
pub proof fn law_each_byte_is_as_its_last_read_came_out(
    s: SweepState,
    es: Seq<MapEntry>,
    reads: Seq<ReadResult>,
    x: int,
)
    requires
        begins(s, es),
        reads.len() < u64::MAX,
    ensures
        status_at(swept(s, es, reads).1, x) == match last_read_over(s, es, reads, x) {
            Some(ReadResult::Good) => Some(SectorStatus::Finished),
            Some(ReadResult::Failed(f)) => Some(SectorStatus::NonTrimmed),
            None => status_at(es, x),
        },
        swept(s, es, reads).0.pos >= swept(s, es, reads).0.region_end && status_at(es, x) == Some(
            SectorStatus::NonTried,
        ) ==> last_read_over(s, es, reads, x) is Some,
{
    lemma_last_read(s, es, reads, x);
    if swept(s, es, reads).0.pos >= swept(s, es, reads).0.region_end {
        law_a_finished_sweep_leaves_nothing_untried(s, es, reads, x);
    }
}

/// How many bytes the reads that succeeded have read.
pub open spec fn bytes_read(s: SweepState, es: Seq<MapEntry>, reads: Seq<ReadResult>) -> int
    decreases reads.len(),
{
    if reads.len() == 0 {
        0
    } else {
        let t = swept(s, es, reads.drop_last()).0;
        bytes_read(s, es, reads.drop_last()) + if t.pos < t.region_end && reads.last() is Good {
            block_len(t) as int
        } else {
            0
        }
    }
}

/// All ranges to read begin and end on sector boundaries, and begin on unit
/// boundaries where units matter: nothing outside them is read.
pub open spec fn on_boundaries(s: SweepState) -> bool {
    forall|j: int|
        0 <= j < s.regions.len() ==> (#[trigger] s.regions[j]).0 % (if s.aacs {
            UNIT_BYTES
        } else {
            SECTOR
        }) == 0 && (s.regions[j].0 + s.regions[j].1) % SECTOR as int == 0
}

proof fn lemma_window_is_region(s: SweepState, j: int, x: int)
    requires
        on_boundaries(s),
        addressable(s),
        0 <= j < s.regions.len(),
        in_window(s, j, x),
    ensures
        in_region(s, j, x),
{
    lemma_window_ends(s, j);
}

/// The range of an entry's status is that of an entry.
pub proof fn lemma_range_of_entry(es: Seq<MapEntry>, among: Seq<SectorStatus>, i: int)
    requires
        0 <= i < ranges_among(es, among).len(),
    ensures
        exists|k: int|
            0 <= k < es.len() && ranges_among(es, among)[i] == (
                (#[trigger] es[k]).pos,
                es[k].size,
            ),
    decreases es.len(),
{
    if es.len() > 0 {
        let init = es.drop_last();
        let ri = ranges_among(init, among);
        if i < ri.len() {
            lemma_range_of_entry(init, among, i);
            let k = choose|k: int|
                0 <= k < init.len() && ri[i] == ((#[trigger] init[k]).pos, init[k].size);
            assert(es[k] == init[k]);
        } else {
            assert(es[es.len() - 1] == es.last());
        }
    }
}

/// Ranges of an ordered list are apart, in position order.
proof fn lemma_ranges_apart(es: Seq<MapEntry>, among: Seq<SectorStatus>)
    requires
        ordered(es),
    ensures
        forall|i: int, j: int|
            0 <= i < j < ranges_among(es, among).len() ==> (#[trigger] ranges_among(es, among)[i]).0
                + ranges_among(es, among)[i].1 <= (#[trigger] ranges_among(es, among)[j]).0,
    decreases es.len(),
{
    if es.len() > 0 {
        let init = es.drop_last();
        let r = ranges_among(es, among);
        let ri = ranges_among(init, among);
        assert(ordered(init));
        lemma_ranges_apart(init, among);
        assert forall|i: int, j: int| 0 <= i < j < r.len() implies (#[trigger] r[i]).0 + r[i].1 <= (
        #[trigger] r[j]).0 by {
            assert(r[i] == ri[i]);
            if j < ri.len() {
                assert(r[j] == ri[j]);
            } else {
                lemma_range_of_entry(init, among, i);
                let k = choose|k: int|
                    0 <= k < init.len() && ri[i] == ((#[trigger] init[k]).pos, init[k].size);
                assert(es[k] == init[k]);
                assert(es[k].end() <= es[es.len() - 1].pos);
            }
        }
    }
}

pub proof fn lemma_range_status(es: Seq<MapEntry>, status: SectorStatus, j: int, x: int)
    requires
        ordered(es),
        0 <= j < ranges_among(es, seq![status]).len(),
        ranges_among(es, seq![status])[j].0 <= x < ranges_among(es, seq![status])[j].0
            + ranges_among(es, seq![status])[j].1,
    ensures
        status_at(es, x) == Some(status),
    decreases es.len(),
{
    if es.len() > 0 {
        let init = es.drop_last();
        assert(ordered(init));
        if j < ranges_among(init, seq![status]).len() {
            lemma_range_status(init, status, j, x);
            if es.last().covers(x) {
                lemma_earlier_entries_end_below(es, x);
            }
        } else {
            assert(seq![status].contains(es.last().status));
        }
    }
}

/// Nothing lies ahead once the cursor has settled that did not before.
proof fn lemma_settling_adds_nothing(s: SweepState, x: int)
    requires
        running(s),
        addressable(s),
        on_boundaries(s),
        ahead(settled(s), x),
    ensures
        ahead(s, x),
    decreases s.regions.len() - s.next_region,
{
    if s.pos < s.region_end || s.next_region >= s.regions.len() {
    } else {
        let n = region_begun(s);
        let j = s.next_region;
        lemma_begun(s);
        lemma_settling_adds_nothing(n, x);
        if n.pos <= x < n.region_end {
            assert(in_window(n, n.next_region - 1, x));
            assert(in_window(s, j, x));
            lemma_window_is_region(s, j, x);
        } else {
            let k = choose|k: int| n.next_region <= k < n.regions.len() && in_region(n, k, x);
            assert(in_region(s, k, x));
        }
    }
}

/// Records of one status over bytes that are not good add what they cover to
/// the good bytes, if good is what they say.
proof fn lemma_records_add(
    es: Seq<MapEntry>,
    actions: Seq<SweepAction>,
    a: int,
    b: int,
    status: SectorStatus,
)
    requires
        ordered(es),
        records_lead(actions, a, b),
        b <= u64::MAX,
        forall|i: int|
            0 <= i < actions.len() ==> (recorded_by(#[trigger] actions[i]) matches Some(e)
                ==> e.status == status),
        forall|x: int| a <= x < b ==> #[trigger] status_at(es, x) != Some(SectorStatus::Finished),
    ensures
        a <= b,
        bytes_with(with_records(es, actions), SectorStatus::Finished) == bytes_with(
            es,
            SectorStatus::Finished,
        ) + if status == SectorStatus::Finished {
            b - a
        } else {
            0
        },
    decreases actions.len(),
{
    let good = SectorStatus::Finished;
    if actions.len() > 0 {
        let init = actions.drop_last();
        assert(actions.last() == actions[actions.len() - 1]);
        assert forall|i: int| 0 <= i < init.len() implies (recorded_by(
            #[trigger] init[i],
        ) matches Some(e) ==> e.status == status) by {
            assert(init[i] == actions[i]);
        }
        match recorded_by(actions.last()) {
            None => {
                lemma_records_add(es, init, a, b, status);
            },
            Some(e) => {
                lemma_records_add(es, init, a, e.pos as int, status);
                let before = with_records(es, init);
                lemma_records_of_one_status(es, init, a, e.pos as int, status, a);
                assert forall|x: int| e.covers(x) implies #[trigger] status_at(before, x) != Some(
                    good,
                ) by {
                    lemma_records_of_one_status(es, init, a, e.pos as int, status, x);
                    assert(status_at(es, x) != Some(good));
                }
                law_recording_moves_the_bytes(before, e, good);
            },
        }
    }
}

/// What a sweep on whole sectors keeps all along: what lies ahead has not been
/// tried, and what was read has become good.
proof fn lemma_account(s: SweepState, es: Seq<MapEntry>, reads: Seq<ReadResult>)
    requires
        begins(s, es),
        on_boundaries(s),
        reads.len() < u64::MAX,
    ensures
        forall|x: int|
            #![trigger status_at(swept(s, es, reads).1, x)]
            ahead(swept(s, es, reads).0, x) ==> status_at(swept(s, es, reads).1, x) == Some(
                SectorStatus::NonTried,
            ),
        bytes_with(swept(s, es, reads).1, SectorStatus::Finished) == bytes_with(
            es,
            SectorStatus::Finished,
        ) + bytes_read(s, es, reads),
    decreases reads.len(),
{
    lemma_untried_is_ahead(s, es);
    if reads.len() == 0 {
        let t = settled(s);
        assert forall|x: int| #![trigger status_at(es, x)] ahead(t, x) implies status_at(es, x)
            == Some(SectorStatus::NonTried) by {
            lemma_settling_adds_nothing(s, x);
            let j = choose|j: int| s.next_region <= j < s.regions.len() && in_region(s, j, x);
            lemma_range_status(es, SectorStatus::NonTried, j, x);
        }
    } else {
        let init = reads.drop_last();
        let o = reads.last();
        lemma_account(s, es, init);
        lemma_swept(s, es, init);
        let (t, fs) = swept(s, es, init);
        if t.pos < t.region_end {
            let (u, actions) = stepped(t, o);
            let gs = with_records(fs, actions);
            let v = settled(u);
            lemma_stepped(t, o);
            lemma_step_adds(t, fs, o);
            lemma_ranges_apart(es, seq![SectorStatus::NonTried]);
            assert forall|x: int| #![trigger status_at(gs, x)] ahead(v, x) implies status_at(gs, x)
                == Some(SectorStatus::NonTried) by {
                lemma_settling_adds_nothing(u, x);
                law_outcomes_are_recorded(t, o, fs, x);
                if u.pos <= x < u.region_end {
                    assert(ahead(t, x));
                } else {
                    let j = choose|j: int|
                        u.next_region <= j < u.regions.len() && in_region(u, j, x);
                    assert(in_region(t, j, x));
                    assert(ahead(t, x));
                    if t.pos <= x < t.region_end {
                        let c = t.next_region - 1;
                        assert(in_window(t, c, x));
                        lemma_window_is_region(t, c, x);
                        assert(s.regions[c].0 + s.regions[c].1 <= s.regions[j].0);
                    }
                }
                assert(status_at(fs, x) == Some(SectorStatus::NonTried));
            }
        }
    }
}

/// One read over bytes that have not been tried.
proof fn lemma_step_adds(t: SweepState, fs: Seq<MapEntry>, o: ReadResult)
    requires
        running(t),
        t.pos < t.region_end,
        t.iter_count < u64::MAX,
        ordered(fs),
        forall|x: int|
            #![trigger status_at(fs, x)]
            ahead(t, x) ==> status_at(fs, x) == Some(SectorStatus::NonTried),
    ensures
        bytes_with(with_records(fs, stepped(t, o).1), SectorStatus::Finished) == bytes_with(
            fs,
            SectorStatus::Finished,
        ) + if o is Good {
            block_len(t) as int
        } else {
            0
        },
{
    let (u, actions) = stepped(t, o);
    let status = match o {
        ReadResult::Good => SectorStatus::Finished,
        ReadResult::Failed(f) => SectorStatus::NonTrimmed,
    };
    match o {
        ReadResult::Good => {
            law_good_reads_record_what_they_pass(t);
        },
        ReadResult::Failed(f) => {
            law_failed_reads_record_what_they_pass(t, f);
        },
    }
    assert forall|i: int| 0 <= i < actions.len() implies (recorded_by(
        #[trigger] actions[i],
    ) matches Some(e) ==> e.status == status) by {}
    assert forall|x: int| t.pos <= x < u.pos implies #[trigger] status_at(fs, x) != Some(
        SectorStatus::Finished,
    ) by {
        assert(ahead(t, x));
    }
    lemma_records_add(fs, actions, t.pos as int, u.pos as int, status);
}

/// The sweep's own count of what it has read, held at the top where it would
/// not fit.
proof fn lemma_good_done(s: SweepState, es: Seq<MapEntry>, reads: Seq<ReadResult>)
    requires
        begins(s, es),
        reads.len() < u64::MAX,
    ensures
        0 <= bytes_read(s, es, reads),
        swept(s, es, reads).0.bytes_good_done == least(bytes_read(s, es, reads), u64::MAX as int),
    decreases reads.len(),
{
    if reads.len() == 0 {
        lemma_settled_keeps_count(s);
    } else {
        let init = reads.drop_last();
        lemma_good_done(s, es, init);
        let (t, fs) = swept(s, es, init);
        if t.pos < t.region_end {
            lemma_settled_keeps_count(stepped(t, reads.last()).0);
        }
    }
}

proof fn lemma_settled_keeps_count(s: SweepState)
    ensures
        settled(s).bytes_good_done == s.bytes_good_done,
        settled(s).bytes_done == s.bytes_done,
        settled(s).total_bytes == s.total_bytes,
    decreases s.regions.len() - s.next_region,
{
    if s.pos < s.region_end || s.next_region >= s.regions.len() || s.next_region < 0 {
    } else {
        lemma_settled_keeps_count(region_begun(s));
    }
}

/// How much a sweep on whole sectors still has to pass over.
pub open spec fn bytes_ahead(s: SweepState) -> int {
    (s.region_end - s.pos) + sum_len(s.regions) - sum_len(s.regions.take(s.next_region))
}

proof fn lemma_settling_keeps_the_rest(s: SweepState)
    requires
        running(s),
        addressable(s),
        on_boundaries(s),
    ensures
        bytes_ahead(settled(s)) == bytes_ahead(s),
        settled(s).bytes_done == s.bytes_done,
    decreases s.regions.len() - s.next_region,
{
    if s.pos < s.region_end || s.next_region >= s.regions.len() {
    } else {
        let n = region_begun(s);
        let j = s.next_region;
        let (p, l) = s.regions[j];
        lemma_begun(s);
        lemma_settling_keeps_the_rest(n);
        assert(s.regions.take(j + 1).drop_last() =~= s.regions.take(j));
        assert(s.regions.take(j + 1).last() == s.regions[j]);
        lemma_window_ends(s, j);
    }
}

/// What is read for a range on boundaries is the range.
proof fn lemma_window_ends(s: SweepState, j: int)
    requires
        on_boundaries(s),
        addressable(s),
        0 <= j < s.regions.len(),
    ensures
        snapped(s.regions[j].0, s.regions[j].1) == s.regions[j],
        s.aacs ==> round_down(s.regions[j].0 as int, UNIT_BYTES as int) == s.regions[j].0,
{
    let (p, l) = s.regions[j];
    assert(p + l <= LAST_SECTOR_END);
    if s.aacs {
        assert(p % 6144 == 0);
        assert(p as int == p as int / 6144 * 6144);
        assert(p as int / 6144 * 6144 == p as int / 6144 * 3 * 2048);
    }
    assert(p as int % 2048 == 0);
    if l > 0 {
        assert(round_up(p + l, 2048) == p + l);
    }
}

proof fn lemma_untried_sum(es: Seq<MapEntry>)
    ensures
        sum_len(ranges_among(es, seq![SectorStatus::NonTried])) == bytes_with(
            es,
            SectorStatus::NonTried,
        ),
    decreases es.len(),
{
    if es.len() > 0 {
        let among = seq![SectorStatus::NonTried];
        lemma_untried_sum(es.drop_last());
        assert(among[0] == SectorStatus::NonTried);
        if es.last().status == SectorStatus::NonTried {
            assert(among.contains(es.last().status));
            assert(ranges_among(es, among).drop_last() =~= ranges_among(es.drop_last(), among));
        }
    }
}

/// A read counts what it passes over.
proof fn lemma_step_done(t: SweepState, o: ReadResult)
    requires
        sweep_inv(t),
        t.pos < t.region_end,
        t.iter_count < u64::MAX,
        t.bytes_done + (t.region_end - t.pos) <= u64::MAX,
    ensures
        stepped(t, o).0.bytes_done == t.bytes_done + (stepped(t, o).0.pos - t.pos),
{
    match o {
        ReadResult::Good => {},
        ReadResult::Failed(f) => {
            match after_failure(t.ctx, f).1 {
                ReadAction::JumpAhead { sectors, pause_secs } => {
                    lemma_jump(t, sectors);
                },
                _ => {},
            }
        },
    }
}

/// What a sweep has passed over and what it still has to add up to what had not
/// been tried.
proof fn lemma_done_and_ahead(s: SweepState, es: Seq<MapEntry>, reads: Seq<ReadResult>)
    requires
        begins(s, es),
        on_boundaries(s),
        reads.len() < u64::MAX,
    ensures
        ({
            let t = swept(s, es, reads).0;
            &&& t.bytes_done + bytes_ahead(t) == bytes_with(es, SectorStatus::NonTried)
            &&& 0 <= bytes_ahead(t)
        }),
    decreases reads.len(),
{
    lemma_untried_is_ahead(s, es);
    lemma_untried_sum(es);
    lemma_swept(s, es, reads);
    let now = swept(s, es, reads).0;
    lemma_sum_len_grows(now.regions, now.next_region);
    if reads.len() == 0 {
        lemma_settling_keeps_the_rest(s);
        assert(sum_len(s.regions.take(0)) == 0);
    } else {
        let init = reads.drop_last();
        lemma_done_and_ahead(s, es, init);
        lemma_swept(s, es, init);
        let t = swept(s, es, init).0;
        lemma_sum_len_grows(t.regions, t.next_region);
        if t.pos < t.region_end {
            let u = stepped(t, reads.last()).0;
            lemma_stepped(t, reads.last());
            lemma_bytes_bound(es);
            if es.len() > 0 {
                assert(es[es.len() - 1].end() <= u64::MAX);
            }
            lemma_step_done(t, reads.last());
            lemma_settling_keeps_the_rest(u);
        }
    }
}

/// Whatever the reads come to, a sweep has never read more than it has passed
/// over.
pub proof fn law_a_sweep_reads_no_more_than_it_passes(
    s: SweepState,
    es: Seq<MapEntry>,
    reads: Seq<ReadResult>,
)
    requires
        begins(s, es),
        reads.len() < u64::MAX,
    ensures
        swept(s, es, reads).0.bytes_good_done <= swept(s, es, reads).0.bytes_done,
    decreases reads.len(),
{
    if reads.len() == 0 {
        lemma_settled_keeps_count(s);
    } else {
        let init = reads.drop_last();
        law_a_sweep_reads_no_more_than_it_passes(s, es, init);
        lemma_untried_is_ahead(s, es);
        lemma_swept(s, es, init);
        let t = swept(s, es, init).0;
        if t.pos < t.region_end {
            lemma_settled_keeps_count(stepped(t, reads.last()).0);
            match reads.last() {
                ReadResult::Good => {},
                ReadResult::Failed(f) => {
                    law_good_never_exceeds_done(t, f);
                },
            }
        }
    }
}

/// All through a sweep over ranges of whole sectors, what has been read is no
/// more than what has been passed over, and that no more than the disc; so the
/// figures that a front-end is told add up to the disc, whatever the reads come
/// to. At the end all that had not been tried has been passed over, once.
pub proof fn law_the_figures_of_a_sweep_add_up(
    s: SweepState,
    es: Seq<MapEntry>,
    reads: Seq<ReadResult>,
)
    requires
        begins(s, es),
        on_boundaries(s),
        partitions(es, s.total_bytes as int),
        reads.len() < u64::MAX,
    ensures
        ({
            let t = swept(s, es, reads).0;
            let f = figures(t, None);
            &&& t.total_bytes == s.total_bytes
            &&& t.bytes_good_done <= t.bytes_done <= s.total_bytes
            &&& t.bytes_done <= bytes_with(es, SectorStatus::NonTried)
            &&& f.bytes_good + f.bytes_unreadable + f.bytes_retryable + f.bytes_pending
                == s.total_bytes
            &&& t.pos >= t.region_end ==> t.bytes_done == bytes_with(es, SectorStatus::NonTried)
        }),
{
    lemma_done_and_ahead(s, es, reads);
    law_a_sweep_reads_no_more_than_it_passes(s, es, reads);
    lemma_same_disc(s, es, reads);
    lemma_untried_is_ahead(s, es);
    lemma_swept(s, es, reads);
    lemma_bytes_bound(es);
    lemma_chain_bytes(es, 0, s.total_bytes as int);
    let t = swept(s, es, reads).0;
    law_figures_partition_the_disc(t);
    if t.pos >= t.region_end {
        assert(t.regions.take(t.next_region) =~= t.regions);
    }
}

proof fn lemma_same_disc(s: SweepState, es: Seq<MapEntry>, reads: Seq<ReadResult>)
    ensures
        swept(s, es, reads).0.total_bytes == s.total_bytes,
    decreases reads.len(),
{
    if reads.len() == 0 {
        lemma_settled_keeps_count(s);
    } else {
        lemma_same_disc(s, es, reads.drop_last());
        let t = swept(s, es, reads.drop_last()).0;
        lemma_settled_keeps_count(stepped(t, reads.last()).0);
    }
}

/// The good bytes are the bytes read: a sweep over ranges of whole sectors adds
/// to the good bytes exactly what its successful reads have read, no more and
/// no less, and that is what it counts itself.
pub proof fn law_the_good_bytes_are_the_bytes_read(
    s: SweepState,
    es: Seq<MapEntry>,
    reads: Seq<ReadResult>,
)
    requires
        begins(s, es),
        on_boundaries(s),
        reads.len() < u64::MAX,
    ensures
        bytes_with(swept(s, es, reads).1, SectorStatus::Finished) == bytes_with(
            es,
            SectorStatus::Finished,
        ) + bytes_read(s, es, reads),
        swept(s, es, reads).0.bytes_good_done == bytes_read(s, es, reads),
{
    lemma_account(s, es, reads);
    lemma_good_done(s, es, reads);
    lemma_untried_is_ahead(s, es);
    lemma_swept(s, es, reads);
    let fs = swept(s, es, reads).1;
    lemma_bytes_bound(fs);
    if fs.len() > 0 {
        assert(fs[fs.len() - 1].end() <= u64::MAX);
    }
}

} // verus!
