//! What a sweep asks for and does about each read, in plain numbers.

use crate::disc::DiscFormat;
use crate::entries::{ordered, status_at, MapEntry};
use crate::geometry::{
    law_rounding_stays_within_a_unit, law_snapping_moves_out_to_sectors, round_down, snapped,
    LAST_SECTOR_END,
};
use crate::mapfile::MapStats;
use crate::read_error::{after_failure, after_success, fresh_state, ReadAction, ReadFailure};
use crate::status::SectorStatus;
use crate::sweep::{
    after_failed_read, after_read, figures, law_reads_fit_the_batch, lemma_jump, new_sweep,
    next_request,
    recorded_by, region_begun, sweep_batch, sweep_inv, SweepAction, SweepState,
    DAMAGE_ZONE_EXIT_THRESHOLD, HEARTBEAT_READS, MAX_SPEED, MIN_SPEED, ZERO_CHUNK,
};
use crate::sweep_laws::{
    begins, in_region, lemma_ranges_among, lemma_swept, lemma_untried_is_ahead, swept, ReadResult,
};
use crate::sweep_outcomes::{lemma_range_of_entry, lemma_range_status};
use vstd::prelude::*;

verus! {

/// A read asks for the sectors that its block lies in: sectors have 2048 bytes,
/// the address is that of the block's first sector on a disc of up to 2^32 of
/// them, and the count is that of the bytes. The block is a full batch, or what
/// is left of the range.
pub proof fn law_a_read_asks_for_the_sectors_of_its_block(s: SweepState)
    requires
        sweep_inv(s),
        s.pos < s.region_end,
    ensures
        ({
            let q = next_request(s);
            &&& q.pos == s.pos
            &&& q.pos % 2048 == 0
            &&& q.pos / 2048 < 0x1_0000_0000 ==> q.lba * 2048 == q.pos
            &&& 0 < q.block_bytes <= s.batch * 2048
            &&& q.block_bytes % 2048 == 0
            &&& q.pos + q.block_bytes <= s.region_end
            &&& q.block_bytes == s.batch * 2048 || q.pos + q.block_bytes == s.region_end
            &&& !s.aacs ==> q.read_bytes == q.block_bytes
            &&& q.block_bytes <= q.read_bytes <= s.batch * 2048
            &&& q.read_bytes % 2048 == 0 ==> q.count * 2048 == q.read_bytes
            &&& s.total_bytes % 2048 == 0 ==> q.read_bytes % 2048 == 0
            &&& s.aacs && q.pos + q.read_bytes < s.total_bytes ==> q.read_bytes % 6144 == 0
        }),
{
    law_reads_fit_the_batch(s);
    let q = next_request(s);
    assert(s.batch * 2048 <= 65535 * 2048);
    assert(q.block_bytes % 2048 == 0);
    law_rounding_stays_within_a_unit(q.block_bytes as int, 6144);
    let r = q.read_bytes as int;
    if r % 6144 == 0 {
        assert(r == r / 6144 * 6144);
        assert(r / 6144 * 6144 == r / 6144 * 3 * 2048);
    }
}

/// So do all reads of a sweep, whatever the reads before them came to.
pub proof fn law_all_reads_of_a_sweep_ask_for_their_sectors(
    s: SweepState,
    es: Seq<MapEntry>,
    reads: Seq<ReadResult>,
)
    requires
        begins(s, es),
        s.total_bytes % 2048 == 0,
        reads.len() < u64::MAX,
    ensures
        ({
            let t = swept(s, es, reads).0;
            let q = next_request(t);
            t.pos < t.region_end ==> {
                &&& q.pos == t.pos
                &&& q.pos / 2048 < 0x1_0000_0000 ==> q.lba * 2048 == q.pos
                &&& q.read_bytes % 2048 == 0 ==> q.count * 2048 == q.read_bytes
                &&& 0 < q.block_bytes <= q.read_bytes
            }
        }),
{
    lemma_untried_is_ahead(s, es);
    lemma_swept(s, es, reads);
    let t = swept(s, es, reads).0;
    if t.pos < t.region_end {
        law_a_read_asks_for_the_sectors_of_its_block(t);
    }
}

/// How many sectors a sweep reads at a time: as many as requested, but at least
/// one; where nothing is requested 60, or an ECC block where errors are skipped.
/// Where units matter, the least whole number of units of three sectors that
/// holds as many.
pub proof fn law_the_batch_of_a_sweep(requested: Option<u16>, skip: bool, format: DiscFormat)
    ensures
        ({
            let plain = sweep_batch(requested, skip, format, false);
            let aligned = sweep_batch(requested, skip, format, true);
            &&& requested matches Some(b) ==> plain == if b == 0 {
                1int
            } else {
                b as int
            }
            &&& requested is None && !skip ==> plain == 60
            &&& requested is None && skip && (format is Dvd || format is HdDvd) ==> plain == 16
            &&& requested is None && skip && !(format is Dvd || format is HdDvd) ==> plain == 32
            &&& aligned % 3 == 0
            &&& plain <= aligned < plain + 3
        }),
{
    law_rounding_stays_within_a_unit(sweep_batch(requested, skip, format, false), 3);
}

/// A new sweep begins on what has not been tried, all of it and nothing else,
/// with nothing counted, on the disc and in the manner it was made for.
pub proof fn law_a_new_sweep_begins_on_what_is_untried(
    es: Seq<MapEntry>,
    total: u64,
    requested: Option<u16>,
    skip: bool,
    format: DiscFormat,
    aacs: bool,
    x: int,
)
    requires
        ordered(es),
        forall|i: int|
            0 <= i < es.len() ==> (#[trigger] es[i]).pos + es[i].size <= 0xffff_ffff_ffff_f800,
    ensures
        ({
            let s = new_sweep(es, total, requested, skip, format, aacs);
            &&& begins(s, es)
            &&& s.total_bytes == total && s.aacs == aacs && s.skip_on_error == skip
            &&& s.batch == sweep_batch(requested, skip, format, aacs)
            &&& s.ctx == fresh_state(s.batch, false)
            &&& !s.in_damage_zone && s.last_log_iter == 0
            &&& (exists|j: int| 0 <= j < s.regions.len() && in_region(s, j, x)) <==> status_at(es, x)
                == Some(SectorStatus::NonTried)
        }),
{
    let s = new_sweep(es, total, requested, skip, format, aacs);
    let among = seq![SectorStatus::NonTried];
    assert(among[0] == SectorStatus::NonTried);
    law_the_batch_of_a_sweep(requested, skip, format);
    let plain = sweep_batch(requested, skip, format, false);
    assert(plain <= 65535);
    assert(sweep_batch(requested, skip, format, true) <= 65535) by {
        assert(65535int % 3 == 0);
    }
    assert forall|j: int| 0 <= j < s.regions.len() implies (#[trigger] s.regions[j]).0
        + s.regions[j].1 <= LAST_SECTOR_END by {
        lemma_range_of_entry(es, among, j);
        let k = choose|k: int|
            0 <= k < es.len() && s.regions[j] == ((#[trigger] es[k]).pos, es[k].size);
    }
    lemma_ranges_among(es, among, x);
    if exists|j: int| 0 <= j < s.regions.len() && in_region(s, j, x) {
        let j = choose|j: int| 0 <= j < s.regions.len() && in_region(s, j, x);
        lemma_range_status(es, SectorStatus::NonTried, j, x);
    }
    if status_at(es, x) == Some(SectorStatus::NonTried) {
        let j = choose|j: int|
            0 <= j < s.regions.len() && (#[trigger] s.regions[j]).0 <= x < s.regions[j].0
                + s.regions[j].1;
        assert(in_region(s, j, x));
    }
}

/// A range is begun at its first sector, or at the unit that sector lies in,
/// and goes to the end of its last sector; nothing else changes.
pub proof fn law_a_range_is_begun_at_its_start(s: SweepState)
    requires
        sweep_inv(s),
        s.next_region < s.regions.len(),
        s.regions[s.next_region].0 + s.regions[s.next_region].1 <= 0xffff_ffff_ffff_f800,
    ensures
        ({
            let (p, l) = s.regions[s.next_region];
            let t = region_begun(s);
            &&& t == (SweepState {
                pos: t.pos,
                region_end: t.region_end,
                next_region: s.next_region + 1,
                ..s
            })
            &&& !s.aacs ==> t.pos % 2048 == 0 && t.pos <= p < t.pos + 2048
            &&& s.aacs ==> t.pos % 6144 == 0 && t.pos <= p < t.pos + 6144
            &&& l > 0 ==> t.region_end % 2048 == 0 && p + l <= t.region_end < p + l + 2048
            &&& l == 0 ==> t.pos <= t.region_end <= p
        }),
{
    let (p, l) = s.regions[s.next_region];
    law_snapping_moves_out_to_sectors(p, l);
    let (start, len) = snapped(p, l);
    if s.aacs {
        law_rounding_stays_within_a_unit(start as int, 6144);
        let at = round_down(start as int, 6144);
        assert(p < at + 6144) by {
            assert(at == at / 6144 * 6144);
            assert(at / 6144 * 6144 == at / 6144 * 3 * 2048);
            assert(start % 2048 == 0);
            assert(at + 6144 - start >= 2048);
        }
    }
}

/// What follows a good read: the block is reported good at its place and passed
/// over. The drive is put back to full speed once, with the sixteenth good read
/// in a row after it was slowed down; that also ends the growth of jumps.
pub proof fn law_what_follows_a_good_read(s: SweepState)
    requires
        sweep_inv(s),
        s.pos < s.region_end,
        s.iter_count < u64::MAX,
    ensures
        ({
            let (t, actions) = after_read(s);
            let block = next_request(s).block_bytes;
            let calm = s.ctx.consecutive_good + 1 >= 16;
            &&& t.pos == s.pos + block
            &&& s.bytes_done + block <= u64::MAX ==> t.bytes_done == s.bytes_done + block
            &&& s.bytes_good_done + block <= u64::MAX ==> t.bytes_good_done == s.bytes_good_done
                + block
            &&& t.iter_count == s.iter_count + 1
            &&& t.in_damage_zone <==> s.in_damage_zone && !calm
            &&& calm ==> t.ctx.jump_multiplier == 1
            &&& !calm ==> t.ctx == after_success(s.ctx)
            &&& actions == if s.in_damage_zone && calm {
                seq![
                    SweepAction::SetSpeed { speed: 65535 },
                    SweepAction::Good { pos: s.pos, len: block },
                ]
            } else {
                seq![SweepAction::Good { pos: s.pos, len: block }]
            }
            &&& t.regions == s.regions && t.next_region == s.next_region && t.region_end
                == s.region_end && t.batch == s.batch && t.total_bytes == s.total_bytes && t.aacs
                == s.aacs && t.skip_on_error == s.skip_on_error
        }),
{
}

/// What follows a failed read. Where errors are not skipped it ends the sweep.
/// Else the read-error policy decides: a retry changes nothing but the pause; a
/// skip queues the block; a jump queues the block and what it jumps over, slows
/// the drive down once, and goes as far as it should, but neither beyond the
/// range nor into the middle of a unit.
pub proof fn law_what_follows_a_failed_read(s: SweepState, f: ReadFailure)
    requires
        sweep_inv(s),
        s.pos < s.region_end,
        s.iter_count < u64::MAX,
    ensures
        ({
            let (t, actions) = after_failed_read(s, f);
            let block = next_request(s).block_bytes;
            let skip = SweepAction::SkipFill { pos: s.pos, len: block };
            &&& !s.skip_on_error ==> t == s && actions == seq![SweepAction::Abort]
            &&& s.skip_on_error ==> t.ctx == after_failure(s.ctx, f).0 && t.iter_count
                == s.iter_count + 1
            &&& t.bytes_good_done == s.bytes_good_done
            &&& t.regions == s.regions && t.next_region == s.next_region && t.region_end
                == s.region_end && t.batch == s.batch && t.total_bytes == s.total_bytes && t.aacs
                == s.aacs && t.skip_on_error == s.skip_on_error
            &&& s.skip_on_error ==> match after_failure(s.ctx, f).1 {
                ReadAction::AbortPass => t.pos == s.pos && actions == seq![SweepAction::Abort],
                ReadAction::Retry { pause_secs } => t.pos == s.pos && t.in_damage_zone
                    == s.in_damage_zone && actions == seq![SweepAction::Pause { secs: pause_secs }],
                ReadAction::SkipBlock { pause_secs } => t.pos == s.pos + block && t.in_damage_zone
                    == s.in_damage_zone && actions == seq![
                    skip,
                    SweepAction::Pause { secs: pause_secs },
                ],
                ReadAction::JumpAhead { sectors, pause_secs } => {
                    let from = s.pos + block;
                    let to = from + sectors * 2048;
                    &&& to >= s.region_end ==> t.pos == s.region_end
                    &&& to < s.region_end && !s.aacs ==> t.pos == to
                    &&& to < s.region_end && s.aacs ==> t.pos % 6144 == 0 && t.pos <= to < t.pos
                        + 6144
                    &&& from <= t.pos
                    &&& t.in_damage_zone
                    &&& actions.len() >= 2
                    &&& actions[0] == skip
                    &&& actions.last() == (SweepAction::Pause { secs: pause_secs })
                    &&& actions.contains(SweepAction::SetSpeed { speed: 0 }) <==> !s.in_damage_zone
                    &&& t.pos > from ==> actions.contains(
                        SweepAction::GapFill { pos: from as u64, len: (t.pos - from) as u64 },
                    )
                    &&& actions.len() == 2 + (if s.in_damage_zone {
                        0int
                    } else {
                        1
                    }) + (if t.pos > from {
                        1int
                    } else {
                        0
                    })
                },
            }
        }),
{
    let (t, actions) = after_failed_read(s, f);
    let block = next_request(s).block_bytes;
    if s.skip_on_error {
        match after_failure(s.ctx, f).1 {
            ReadAction::JumpAhead { sectors, pause_secs } => {
                lemma_jump(s, sectors);
                let from = s.pos + block;
                let to = from + sectors * 2048;
                law_rounding_stays_within_a_unit(to, 6144);
                let slow = SweepAction::SetSpeed { speed: 0 };
                if !s.in_damage_zone {
                    assert(actions[1] == slow);
                }
                if t.pos > from {
                    let gap = SweepAction::GapFill {
                        pos: from as u64,
                        len: (t.pos - from) as u64,
                    };
                    assert(actions[actions.len() - 2] == gap);
                }
                if s.in_damage_zone && actions.contains(slow) {
                    let i = choose|i: int| 0 <= i < actions.len() && actions[i] == slow;
                    assert(actions[i] == slow);
                }
            },
            _ => {},
        }
    }
}

/// The drive's highest and lowest speeds, as the drive is asked for them; zeros
/// are written 64 KiB at a time, and a heartbeat comes every hundred reads.
pub proof fn law_the_paces_of_a_sweep()
    ensures
        MAX_SPEED == 65535,
        MIN_SPEED == 0,
        DAMAGE_ZONE_EXIT_THRESHOLD == 16,
        HEARTBEAT_READS == 100,
        ZERO_CHUNK == 65536,
{
}

/// What each action has recorded, once it has been carried out: what was read
/// is good, what was filled waits for a later pass, nothing else is recorded.
pub proof fn law_what_an_action_records(pos: u64, len: u64, n: u64, speed: u16)
    ensures
        recorded_by(SweepAction::Good { pos, len }) == Some(
            MapEntry { pos, size: len, status: SectorStatus::Finished },
        ),
        recorded_by(SweepAction::SkipFill { pos, len }) == Some(
            MapEntry { pos, size: len, status: SectorStatus::NonTrimmed },
        ),
        recorded_by(SweepAction::GapFill { pos, len }) == Some(
            MapEntry { pos, size: len, status: SectorStatus::NonTrimmed },
        ),
        recorded_by(SweepAction::SetSpeed { speed }) is None,
        recorded_by(SweepAction::Pause { secs: n }) is None,
        recorded_by(SweepAction::Abort) is None,
{
}

/// What a front-end is told. The cursor and the disc's size come from the
/// sweep, and the good bytes are the larger of what the mapfile and the sweep
/// count; the rest is the mapfile's. Without a mapfile's figures, what was
/// passed over is good or waits for a retry, the rest is pending, and nothing
/// is unreadable yet.
pub proof fn law_what_a_front_end_is_told(s: SweepState, st: MapStats)
    ensures
        ({
            let f = figures(s, Some(st));
            &&& f.work_done == s.pos && f.work_total == s.total_bytes
            &&& f.bytes_good >= st.bytes_good && f.bytes_good >= s.bytes_good_done
            &&& f.bytes_good == st.bytes_good || f.bytes_good == s.bytes_good_done
            &&& f.bytes_unreadable == st.bytes_unreadable
            &&& f.bytes_pending == st.bytes_pending
            &&& f.bytes_retryable == st.bytes_retryable
        }),
        ({
            let f = figures(s, None);
            &&& f.work_done == s.pos && f.work_total == s.total_bytes
            &&& f.bytes_good == s.bytes_good_done
            &&& f.bytes_unreadable == 0
            &&& s.bytes_done <= s.total_bytes ==> f.bytes_pending + s.bytes_done == s.total_bytes
            &&& s.bytes_done > s.total_bytes ==> f.bytes_pending == 0
            &&& s.bytes_good_done <= s.bytes_done ==> f.bytes_good + f.bytes_retryable
                == s.bytes_done
            &&& s.bytes_good_done > s.bytes_done ==> f.bytes_retryable == 0
        }),
{
}

} // verus!
