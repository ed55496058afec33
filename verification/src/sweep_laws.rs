//! What a whole sweep does to a mapfile, whatever the reads come to.

use crate::entries::{
    lemma_recorded, ordered, ranges_among, recorded, status_at, MapEntry,
};
use crate::geometry::{
    law_snapping_covers_the_range, round_down, snapped, LAST_SECTOR_END, UNIT_BYTES,
};
use crate::read_error::{after_failure, ReadAction, ReadFailure};
use crate::status::SectorStatus;
use crate::sweep::{
    after_failed_read, after_read, law_failed_reads_record_what_they_pass,
    law_good_reads_record_what_they_pass, lemma_failed_read, lemma_good_read, lemma_jump,
    lemma_region_begun, lemma_units, next_request, recorded_by, records_lead, region_begun, settled,
    sweep_inv, SweepAction, SweepState,
};
use vstd::prelude::*;

verus! {

/// How a read came out.
pub enum ReadResult {
    Good,
    Failed(ReadFailure),
}

/// The state after a read, and what is to be done.
pub open spec fn stepped(s: SweepState, o: ReadResult) -> (SweepState, Seq<SweepAction>) {
    match o {
        ReadResult::Good => after_read(s),
        ReadResult::Failed(f) => after_failed_read(s, f),
    }
}

/// The entries once the records of some actions have been made.
pub open spec fn with_records(es: Seq<MapEntry>, actions: Seq<SweepAction>) -> Seq<MapEntry>
    decreases actions.len(),
{
    if actions.len() == 0 {
        es
    } else {
        let before = with_records(es, actions.drop_last());
        match recorded_by(actions.last()) {
            None => before,
            Some(e) => if e.size == 0 {
                before
            } else {
                recorded(before, e)
            },
        }
    }
}

/// A sweep and the entries it works on, after a number of reads. Once nothing
/// is left to read, nothing more happens.
pub open spec fn swept(s: SweepState, es: Seq<MapEntry>, reads: Seq<ReadResult>) -> (
    SweepState,
    Seq<MapEntry>,
)
    decreases reads.len(),
{
    if reads.len() == 0 {
        (settled(s), es)
    } else {
        let (t, fs) = swept(s, es, reads.drop_last());
        if t.pos >= t.region_end {
            (t, fs)
        } else {
            let (u, actions) = stepped(t, reads.last());
            (settled(u), with_records(fs, actions))
        }
    }
}

/// Whether a byte still lies ahead of a sweep.
pub open spec fn ahead(s: SweepState, x: int) -> bool {
    ||| s.pos <= x < s.region_end
    ||| exists|j: int| s.next_region <= j < s.regions.len() && in_region(s, j, x)
}

/// Whether a byte lies in a range that a sweep is to read.
pub open spec fn in_region(s: SweepState, j: int, x: int) -> bool {
    s.regions[j].0 <= x < s.regions[j].0 + s.regions[j].1
}

/// Whether a byte lies in what is read for a range: the range on whole sectors,
/// from a unit boundary where units matter.
pub open spec fn in_window(s: SweepState, j: int, x: int) -> bool {
    let (start, len) = snapped(s.regions[j].0, s.regions[j].1);
    (if s.aacs {
        round_down(start as int, UNIT_BYTES as int)
    } else {
        start as int
    }) <= x < start + len
}

/// All ranges end where an address can hold the end of their last sector.
pub open spec fn addressable(s: SweepState) -> bool {
    forall|j: int|
        0 <= j < s.regions.len() ==> (#[trigger] s.regions[j]).0 + s.regions[j].1 <= LAST_SECTOR_END
}

/// What holds all through a sweep: its invariant, and that the cursor is in the
/// window of the range being read.
pub open spec fn running(s: SweepState) -> bool {
    &&& sweep_inv(s)
    &&& s.pos < s.region_end ==> s.next_region > 0
    &&& forall|x: int|
        s.pos <= x < s.region_end ==> s.next_region > 0 && #[trigger] in_window(
            s,
            s.next_region - 1,
            x,
        )
}

pub proof fn lemma_begun(s: SweepState)
    requires
        running(s),
        addressable(s),
        s.pos >= s.region_end,
        s.next_region < s.regions.len(),
    ensures
        running(region_begun(s)),
        forall|x: int| #[trigger] ahead(s, x) ==> ahead(region_begun(s), x),
{
    lemma_region_begun(s);
    let n = region_begun(s);
    let j = s.next_region;
    let (p, l) = s.regions[j];
    law_snapping_covers_the_range(p, l);
    let (start, len) = snapped(p, l);
    assert forall|x: int| n.pos <= x < n.region_end implies #[trigger] in_window(
        n,
        n.next_region - 1,
        x,
    ) by {
        assert(n.regions[j] == s.regions[j]);
    }
    assert forall|x: int| #[trigger] ahead(s, x) implies ahead(n, x) by {
        let k = choose|k: int| s.next_region <= k < s.regions.len() && in_region(s, k, x);
        if k == j {
            assert(start <= x < start + len);
            assert(round_down(start as int, 6144) <= start);
        } else {
            assert(in_region(n, k, x));
        }
    }
}

pub proof fn lemma_settled(s: SweepState)
    requires
        running(s),
        addressable(s),
    ensures
        running(settled(s)),
        forall|x: int| #[trigger] ahead(s, x) ==> ahead(settled(s), x),
        settled(s).regions == s.regions,
        settled(s).aacs == s.aacs,
        settled(s).iter_count == s.iter_count,
        settled(s).next_region >= s.next_region,
        settled(s).pos >= settled(s).region_end ==> settled(s).next_region == s.regions.len(),
    decreases s.regions.len() - s.next_region,
{
    if s.pos < s.region_end || s.next_region >= s.regions.len() {
    } else {
        lemma_begun(s);
        let n = region_begun(s);
        lemma_settled(n);
        assert forall|x: int| #[trigger] ahead(s, x) implies ahead(settled(s), x) by {
            assert(ahead(n, x));
        }
    }
}

/// The records of some actions give every byte they pass over a new status, and
/// leave every other as it is.
proof fn lemma_with_records(es: Seq<MapEntry>, actions: Seq<SweepAction>, a: int, b: int)
    requires
        ordered(es),
        records_lead(actions, a, b),
        b <= u64::MAX,
    ensures
        a <= b,
        ordered(with_records(es, actions)),
        forall|x: int|
            #![trigger status_at(with_records(es, actions), x)]
            if a <= x < b {
                status_at(with_records(es, actions), x) is Some && status_at(
                    with_records(es, actions),
                    x,
                ) != Some(SectorStatus::NonTried)
            } else {
                status_at(with_records(es, actions), x) == status_at(es, x)
            },
    decreases actions.len(),
{
    if actions.len() > 0 {
        let init = actions.drop_last();
        match recorded_by(actions.last()) {
            None => {
                lemma_with_records(es, init, a, b);
            },
            Some(e) => {
                lemma_with_records(es, init, a, e.pos as int);
                let before = with_records(es, init);
                lemma_recorded(before, e);
                let after = with_records(es, actions);
                assert forall|x: int|
                    #![trigger status_at(with_records(es, actions), x)]
                    if a <= x < b {
                        status_at(after, x) is Some && status_at(after, x) != Some(
                            SectorStatus::NonTried,
                        )
                    } else {
                        status_at(after, x) == status_at(es, x)
                    } by {
                    assert(status_at(recorded(before, e), x) == if e.covers(x) {
                        Some(e.status)
                    } else {
                        status_at(before, x)
                    });
                    assert(if a <= x < e.pos {
                        status_at(before, x) is Some && status_at(before, x) != Some(
                            SectorStatus::NonTried,
                        )
                    } else {
                        status_at(before, x) == status_at(es, x)
                    });
                }
            },
        }
    }
}

pub proof fn lemma_stepped(s: SweepState, o: ReadResult)
    requires
        running(s),
        s.pos < s.region_end,
        s.iter_count < u64::MAX,
    ensures
        running(stepped(s, o).0),
        records_lead(stepped(s, o).1, s.pos as int, stepped(s, o).0.pos as int),
        s.pos <= stepped(s, o).0.pos <= s.region_end,
        stepped(s, o).0.region_end == s.region_end,
        stepped(s, o).0.next_region == s.next_region,
        stepped(s, o).0.regions == s.regions,
        stepped(s, o).0.aacs == s.aacs,
        stepped(s, o).0.iter_count <= s.iter_count + 1,
{
    let t = stepped(s, o).0;
    match o {
        ReadResult::Good => {
            law_good_reads_record_what_they_pass(s);
            lemma_good_read(s);
        },
        ReadResult::Failed(f) => {
            law_failed_reads_record_what_they_pass(s, f);
            lemma_failed_read(s, f);
        },
    }
    assert(sweep_inv(t));
    assert forall|x: int| t.pos <= x < t.region_end implies t.next_region > 0
        && #[trigger] in_window(t, t.next_region - 1, x) by {
        assert(in_window(s, s.next_region - 1, x));
    }
}

/// What a sweep keeps all along: everything not yet tried lies ahead, and a byte
/// outside all windows is as it was.
pub proof fn lemma_swept(s: SweepState, es: Seq<MapEntry>, reads: Seq<ReadResult>)
    requires
        sweep_inv(s),
        s.pos >= s.region_end,
        s.next_region == 0,
        s.iter_count == 0,
        addressable(s),
        ordered(es),
        forall|x: int| #[trigger] status_at(es, x) == Some(SectorStatus::NonTried) ==> ahead(s, x),
        reads.len() < u64::MAX,
    ensures
        ({
            let (t, fs) = swept(s, es, reads);
            &&& running(t)
            &&& ordered(fs)
            &&& t.regions == s.regions
            &&& t.aacs == s.aacs
            &&& t.iter_count <= reads.len()
            &&& t.pos >= t.region_end ==> t.next_region == t.regions.len()
            &&& forall|x: int| #[trigger]
                status_at(fs, x) == Some(SectorStatus::NonTried) ==> ahead(t, x)
            &&& forall|x: int|
                #![trigger status_at(fs, x)]
                (forall|j: int| 0 <= j < s.regions.len() ==> !in_window(s, j, x)) ==> status_at(
                    fs,
                    x,
                ) == status_at(es, x)
        }),
    decreases reads.len(),
{
    if reads.len() == 0 {
        assert(running(s));
        lemma_settled(s);
        let t = settled(s);
        assert forall|x: int| #[trigger]
            status_at(es, x) == Some(SectorStatus::NonTried) implies ahead(t, x) by {
            assert(ahead(s, x));
        }
    } else {
        let init = reads.drop_last();
        lemma_swept(s, es, init);
        let (t, fs) = swept(s, es, init);
        if t.pos < t.region_end {
            let (u, actions) = stepped(t, reads.last());
            lemma_stepped(t, reads.last());
            lemma_settled(u);
            lemma_with_records(fs, actions, t.pos as int, u.pos as int);
            let gs = with_records(fs, actions);
            let v = settled(u);
            assert forall|x: int| #[trigger]
                status_at(gs, x) == Some(SectorStatus::NonTried) implies ahead(v, x) by {
                assert(!(t.pos <= x < u.pos));
                assert(status_at(gs, x) == status_at(fs, x));
                assert(ahead(t, x));
                if !(t.pos <= x < t.region_end) {
                    let j = choose|j: int|
                        t.next_region <= j < t.regions.len() && in_region(t, j, x);
                    assert(in_region(u, j, x));
                }
                assert(ahead(u, x));
            }
            assert forall|x: int|
                #![trigger status_at(gs, x)]
                (forall|j: int| 0 <= j < s.regions.len() ==> !in_window(s, j, x)) implies status_at(
                gs,
                x,
            ) == status_at(es, x) by {
                assert(status_at(fs, x) == status_at(es, x));
                if t.pos <= x < u.pos {
                    assert(in_window(t, t.next_region - 1, x));
                    assert(in_window(s, t.next_region - 1, x));
                }
            }
        }
    }
}

/// The bytes of the entries of some statuses are those of their ranges.
pub proof fn lemma_ranges_among(es: Seq<MapEntry>, among: Seq<SectorStatus>, x: int)
    ensures
        status_at(es, x) is Some && among.contains(status_at(es, x)->0) ==> exists|j: int|
            0 <= j < ranges_among(es, among).len() && (#[trigger] ranges_among(es, among)[j]).0 <= x
                < ranges_among(es, among)[j].0 + ranges_among(es, among)[j].1,
    decreases es.len(),
{
    if es.len() > 0 {
        let init = es.drop_last();
        let r = ranges_among(es, among);
        let ri = ranges_among(init, among);
        lemma_ranges_among(init, among, x);
        if status_at(es, x) is Some && among.contains(status_at(es, x)->0) {
            if es.last().covers(x) {
                let j = r.len() - 1;
                assert(r[j] == (es.last().pos, es.last().size));
            } else {
                let j = choose|j: int|
                    0 <= j < ri.len() && (#[trigger] ri[j]).0 <= x < ri[j].0 + ri[j].1;
                assert(r[j] == ri[j]);
            }
        }
    }
}

/// A sweep that is about to begin on the entries of a mapfile: it is to read
/// what has not been tried.
pub open spec fn begins(s: SweepState, es: Seq<MapEntry>) -> bool {
    &&& sweep_inv(s)
    &&& s.regions == ranges_among(es, seq![SectorStatus::NonTried])
    &&& s.pos == 0 && s.region_end == 0 && s.next_region == 0
    &&& s.iter_count == 0 && s.bytes_done == 0 && s.bytes_good_done == 0
    &&& addressable(s)
    &&& ordered(es)
}

pub proof fn lemma_untried_is_ahead(s: SweepState, es: Seq<MapEntry>)
    requires
        begins(s, es),
    ensures
        forall|x: int| #[trigger] status_at(es, x) == Some(SectorStatus::NonTried) ==> ahead(s, x),
{
    let among = seq![SectorStatus::NonTried];
    assert(among[0] == SectorStatus::NonTried);
    assert forall|x: int| #[trigger]
        status_at(es, x) == Some(SectorStatus::NonTried) implies ahead(s, x) by {
        lemma_ranges_among(es, among, x);
        let j = choose|j: int|
            0 <= j < s.regions.len() && (#[trigger] s.regions[j]).0 <= x < s.regions[j].0
                + s.regions[j].1;
        assert(in_region(s, j, x));
    }
}

/// A sweep that comes to its end leaves nothing untried: every byte of every
/// range that had not been tried has been read, or is marked for a later pass.
pub proof fn law_a_finished_sweep_leaves_nothing_untried(
    s: SweepState,
    es: Seq<MapEntry>,
    reads: Seq<ReadResult>,
    x: int,
)
    requires
        begins(s, es),
        reads.len() < u64::MAX,
        swept(s, es, reads).0.pos >= swept(s, es, reads).0.region_end,
    ensures
        status_at(swept(s, es, reads).1, x) != Some(SectorStatus::NonTried),
{
    lemma_untried_is_ahead(s, es);
    lemma_swept(s, es, reads);
    let (t, fs) = swept(s, es, reads);
    if status_at(fs, x) == Some(SectorStatus::NonTried) {
        assert(ahead(t, x));
    }
}

/// A sweep changes nothing but what it reads for its ranges.
pub proof fn law_a_sweep_touches_only_its_ranges(
    s: SweepState,
    es: Seq<MapEntry>,
    reads: Seq<ReadResult>,
    x: int,
)
    requires
        begins(s, es),
        reads.len() < u64::MAX,
        forall|j: int| 0 <= j < s.regions.len() ==> !in_window(s, j, x),
    ensures
        status_at(swept(s, es, reads).1, x) == status_at(es, x),
{
    lemma_untried_is_ahead(s, es);
    lemma_swept(s, es, reads);
}

/// Where units matter, every range is begun on a unit boundary, and whatever
/// comes of a read, good or failed, retried, skipped or jumped over, the next
/// one of the range starts on one too.
pub proof fn law_reads_start_on_units(s: SweepState, o: ReadResult)
    requires
        sweep_inv(s),
        s.aacs,
    ensures
        s.pos < s.region_end ==> next_request(s).pos % UNIT_BYTES == 0,
        s.next_region < s.regions.len() ==> region_begun(s).pos % UNIT_BYTES == 0,
        s.pos < s.region_end && s.iter_count < u64::MAX ==> stepped(s, o).0.pos % UNIT_BYTES == 0
            || stepped(s, o).0.pos == s.region_end,
{
    if s.next_region < s.regions.len() {
        let (start, len) = snapped(s.regions[s.next_region].0, s.regions[s.next_region].1);
        assert(round_down(start as int, 6144) == start as int / 6144 * 6144);
    }
    if s.pos < s.region_end && s.iter_count < u64::MAX {
        lemma_units(s);
        match o {
            ReadResult::Good => {
                law_good_reads_record_what_they_pass(s);
            },
            ReadResult::Failed(f) => {
                law_failed_reads_record_what_they_pass(s, f);
                match after_failure(s.ctx, f).1 {
                    ReadAction::JumpAhead { sectors, pause_secs } => {
                        lemma_jump(s, sectors);
                    },
                    _ => {},
                }
            },
        }
    }
}

/// Every read that a decrypting sweep asks for starts on a unit boundary,
/// whatever the reads before it came to.
pub proof fn law_every_read_of_a_sweep_starts_on_a_unit(
    s: SweepState,
    es: Seq<MapEntry>,
    reads: Seq<ReadResult>,
)
    requires
        begins(s, es),
        s.aacs,
        reads.len() < u64::MAX,
    ensures
        ({
            let t = swept(s, es, reads).0;
            t.pos < t.region_end ==> next_request(t).pos % UNIT_BYTES == 0
        }),
{
    lemma_untried_is_ahead(s, es);
    lemma_swept(s, es, reads);
}

/// What a read comes to is what is recorded: bytes that were read are good,
/// bytes that were not wait for a later pass, and no other byte changes.
pub proof fn law_outcomes_are_recorded(s: SweepState, o: ReadResult, es: Seq<MapEntry>, x: int)
    requires
        sweep_inv(s),
        s.pos < s.region_end,
        s.iter_count < u64::MAX,
        ordered(es),
    ensures
        ({
            let (t, actions) = stepped(s, o);
            status_at(with_records(es, actions), x) == if s.pos <= x < t.pos {
                match o {
                    ReadResult::Good => Some(SectorStatus::Finished),
                    ReadResult::Failed(f) => Some(SectorStatus::NonTrimmed),
                }
            } else {
                status_at(es, x)
            }
        }),
{
    let (t, actions) = stepped(s, o);
    let status = match o {
        ReadResult::Good => SectorStatus::Finished,
        ReadResult::Failed(f) => SectorStatus::NonTrimmed,
    };
    match o {
        ReadResult::Good => {
            law_good_reads_record_what_they_pass(s);
        },
        ReadResult::Failed(f) => {
            law_failed_reads_record_what_they_pass(s, f);
        },
    }
    assert forall|i: int| 0 <= i < actions.len() implies (recorded_by(#[trigger] actions[i]) matches Some(
        e,
    ) ==> e.status == status) by {}
    lemma_records_of_one_status(es, actions, s.pos as int, t.pos as int, status, x);
}

pub proof fn lemma_records_of_one_status(
    es: Seq<MapEntry>,
    actions: Seq<SweepAction>,
    a: int,
    b: int,
    status: SectorStatus,
    x: int,
)
    requires
        ordered(es),
        records_lead(actions, a, b),
        b <= u64::MAX,
        forall|i: int|
            0 <= i < actions.len() ==> (recorded_by(#[trigger] actions[i]) matches Some(e)
                ==> e.status == status),
    ensures
        a <= b,
        ordered(with_records(es, actions)),
        status_at(with_records(es, actions), x) == if a <= x < b {
            Some(status)
        } else {
            status_at(es, x)
        },
    decreases actions.len(),
{
    if actions.len() > 0 {
        let init = actions.drop_last();
        assert(actions.last() == actions[actions.len() - 1]);
        assert forall|i: int| 0 <= i < init.len() implies (recorded_by(
            #[trigger] init[i],
        ) matches Some(e) ==> e.status == status) by {
            assert(init[i] == actions[i]);
        }
        match recorded_by(actions.last()) {
            None => {
                lemma_records_of_one_status(es, init, a, b, status, x);
            },
            Some(e) => {
                lemma_records_of_one_status(es, init, a, e.pos as int, status, x);
                lemma_recorded(with_records(es, init), e);
                assert(status_at(recorded(with_records(es, init), e), x) == if e.covers(x) {
                    Some(e.status)
                } else {
                    status_at(with_records(es, init), x)
                });
            },
        }
    }
}

} // verus!
