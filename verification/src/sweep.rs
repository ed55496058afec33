//! The first pass over a disc: read forward through everything not yet tried,
//! write what can be read, and leave the rest for later passes.
//!
//! A [`Sweep`] holds the cursor and decides; its owner performs. The owner asks
//! for the next read, makes it, reports how it went, and carries out the
//! actions it is given, in order.

use crate::copy::CopyResult;
use crate::disc::DiscFormat;
use crate::entries::{ranges_among, recorded, MapEntry};
use crate::geometry::{
    aacs_aligned_batch, aacs_aligned_read_bytes, aacs_aligned_region_start, ecc_block,
    law_rounding_stays_within_a_unit, law_snapping_moves_out_to_sectors, read_span,
    round_down, round_up, snap_to_sectors, snapped, sweep_batch_sectors,
    DEFAULT_BATCH_SECTORS_OPTICAL, LAST_SECTOR_END, SECTOR, UNIT_BYTES, UNIT_SECTORS,
};
use crate::mapfile::{countable, MapStats, Mapfile, MapfileInvalid};
use crate::read_error::{
    after_failure, after_success, failure_countable, fresh_state, handle_read_error, least,
    ReadAction, ReadCtx, ReadFailure, ReadState, DAMAGE_WINDOW,
};
use crate::status::SectorStatus;
use vstd::prelude::*;

verus! {

/// Good reads in a row after which the drive is put back to full speed.
pub const DAMAGE_ZONE_EXIT_THRESHOLD: u64 = 16;

/// Ask the drive for its highest read speed.
pub const MAX_SPEED: u16 = 0xffff;

/// Ask the drive for its lowest read speed.
pub const MIN_SPEED: u16 = 0;

/// Reads between two heartbeats.
pub const HEARTBEAT_READS: u64 = 100;

/// Bytes of zeros written at a time.
pub const ZERO_CHUNK: u64 = 65536;

/// Something for the owner of a sweep to do.
#[derive(Debug, Clone, Copy, PartialEq, Eq, Structural)]
pub enum SweepAction {
    /// Set the drive's read speed.
    SetSpeed { speed: u16 },
    /// Write the first `len` bytes of the read at `pos`, and record them good.
    Good { pos: u64, len: u64 },
    /// Write zeros over a block that could not be read, and record it for a
    /// later pass.
    SkipFill { pos: u64, len: u64 },
    /// Write zeros over what a jump skipped, and record it for a later pass.
    GapFill { pos: u64, len: u64 },
    /// Pause.
    Pause { secs: u64 },
    /// End the pass with the read's error.
    Abort,
}

/// A read to make.
#[derive(Debug, Clone, Copy, PartialEq, Eq, Structural)]
pub struct ReadRequest {
    /// Where the block starts, in bytes.
    pub pos: u64,
    /// How much of the read counts.
    pub block_bytes: u64,
    /// How much to read.
    pub read_bytes: u64,
    /// The first sector to read.
    pub lba: u32,
    /// How many sectors to read.
    pub count: u16,
}

/// What a sweep tells a front-end.
#[derive(Debug, Clone, Copy, PartialEq, Eq, Structural)]
pub struct SweepProgress {
    pub work_done: u64,
    pub work_total: u64,
    pub bytes_good: u64,
    pub bytes_unreadable: u64,
    pub bytes_pending: u64,
    pub bytes_retryable: u64,
}

/// A sweep under way.
#[derive(Debug)]
pub struct Sweep {
    batch: u16,
    decrypt_is_aacs: bool,
    skip_on_error: bool,
    total_bytes: u64,
    regions: Vec<(u64, u64)>,
    next_region: usize,
    pos: u64,
    region_end: u64,
    ctx: ReadCtx,
    in_damage_zone: bool,
    bytes_done: u64,
    bytes_good_done: u64,
    iter_count: u64,
    last_log_iter: u64,
}

/// What a [`Sweep`] holds.
#[verifier::ext_equal]
pub struct SweepState {
    /// Sectors per read.
    pub batch: u16,
    /// Whether reads are decrypted in AACS units.
    pub aacs: bool,
    /// Whether a failed read is skipped rather than ending the pass.
    pub skip_on_error: bool,
    /// Size of the disc.
    pub total_bytes: u64,
    /// The ranges to read, in order.
    pub regions: Seq<(u64, u64)>,
    /// How many of them have been begun.
    pub next_region: int,
    /// The cursor.
    pub pos: u64,
    /// Where the range being read ends.
    pub region_end: u64,
    /// The read-error bookkeeping.
    pub ctx: ReadState,
    /// Whether the drive has been slowed down.
    pub in_damage_zone: bool,
    /// How far the cursor has come, good bytes and skipped ones alike.
    pub bytes_done: u64,
    /// How much was read.
    pub bytes_good_done: u64,
    /// Outcomes reported.
    pub iter_count: u64,
    /// Outcomes reported up to the last heartbeat.
    pub last_log_iter: u64,
}

impl View for Sweep {
    type V = SweepState;

    closed spec fn view(&self) -> SweepState {
        SweepState {
            batch: self.batch,
            aacs: self.decrypt_is_aacs,
            skip_on_error: self.skip_on_error,
            total_bytes: self.total_bytes,
            regions: self.regions@,
            next_region: self.next_region as int,
            pos: self.pos,
            region_end: self.region_end,
            ctx: self.ctx@,
            in_damage_zone: self.in_damage_zone,
            bytes_done: self.bytes_done,
            bytes_good_done: self.bytes_good_done,
            iter_count: self.iter_count,
            last_log_iter: self.last_log_iter,
        }
    }
}

// ---------------------------------------------------------------------------
// The decisions
// ---------------------------------------------------------------------------

/// The batch size of a sweep.
pub open spec fn sweep_batch(
    requested: Option<u16>,
    skip_on_error: bool,
    format: DiscFormat,
    aacs: bool,
) -> int {
    let plain = match requested {
        Some(b) => if b == 0 {
            1
        } else {
            b
        },
        None => if skip_on_error {
            ecc_block(format)
        } else {
            DEFAULT_BATCH_SECTORS_OPTICAL
        },
    };
    if aacs {
        round_up(plain as int, UNIT_SECTORS as int)
    } else {
        plain as int
    }
}

/// A sweep that has not begun: of everything that some entries say has not been
/// tried.
pub open spec fn new_sweep(
    es: Seq<MapEntry>,
    total_bytes: u64,
    requested_batch: Option<u16>,
    skip_on_error: bool,
    format: DiscFormat,
    aacs: bool,
) -> SweepState {
    let batch = sweep_batch(requested_batch, skip_on_error, format, aacs) as u16;
    SweepState {
        batch,
        aacs,
        skip_on_error,
        total_bytes,
        regions: ranges_among(es, seq![SectorStatus::NonTried]),
        next_region: 0,
        pos: 0,
        region_end: 0,
        ctx: fresh_state(batch, false),
        in_damage_zone: false,
        bytes_done: 0,
        bytes_good_done: 0,
        iter_count: 0,
        last_log_iter: 0,
    }
}

/// The state on beginning the next range: on whole sectors, and from a unit
/// boundary where units matter.
pub open spec fn region_begun(s: SweepState) -> SweepState {
    let (start, len) = snapped(s.regions[s.next_region].0, s.regions[s.next_region].1);
    SweepState {
        next_region: s.next_region + 1,
        pos: if s.aacs {
            round_down(start as int, UNIT_BYTES as int) as u64
        } else {
            start
        },
        region_end: (start + len) as u64,
        ..s
    }
}

/// The state with the cursor at the next byte to read, if there is one.
pub open spec fn settled(s: SweepState) -> SweepState
    decreases s.regions.len() - s.next_region,
{
    if s.pos < s.region_end || s.next_region >= s.regions.len() || s.next_region < 0 {
        s
    } else {
        settled(region_begun(s))
    }
}

/// How many bytes the next block holds.
pub open spec fn block_len(s: SweepState) -> u64 {
    least(s.region_end - s.pos, s.batch * SECTOR) as u64
}

/// The read of the next block.
pub open spec fn next_request(s: SweepState) -> ReadRequest {
    let read = read_span(s.pos as int, block_len(s) as int, s.total_bytes as int, s.aacs);
    ReadRequest {
        pos: s.pos,
        block_bytes: block_len(s),
        read_bytes: read as u64,
        lba: (s.pos as int / SECTOR as int % 0x1_0000_0000) as u32,
        count: (read / SECTOR as int % 0x1_0000) as u16,
    }
}

/// A sum of byte counts, held at the top where it would not fit.
pub open spec fn sum_up(a: u64, b: u64) -> u64 {
    least(a + b, u64::MAX as int) as u64
}

/// The state with the cursor moved over a number of bytes.
pub open spec fn advanced(s: SweepState, bytes: u64) -> SweepState {
    SweepState {
        pos: (s.pos + bytes) as u64,
        bytes_done: sum_up(s.bytes_done, bytes),
        ..s
    }
}

/// After a successful read: the block is good, and enough good reads in a row
/// put the drive back to full speed.
pub open spec fn after_read(s: SweepState) -> (SweepState, Seq<SweepAction>) {
    let c = after_success(s.ctx);
    let calm = c.consecutive_good >= DAMAGE_ZONE_EXIT_THRESHOLD;
    let block = block_len(s);
    let good = SweepAction::Good { pos: s.pos, len: block };
    (
        SweepState {
            ctx: if calm {
                ReadState { jump_multiplier: 1, ..c }
            } else {
                c
            },
            in_damage_zone: s.in_damage_zone && !calm,
            bytes_good_done: sum_up(s.bytes_good_done, block),
            iter_count: (s.iter_count + 1) as u64,
            ..advanced(s, block)
        },
        if s.in_damage_zone && calm {
            seq![SweepAction::SetSpeed { speed: MAX_SPEED }, good]
        } else {
            seq![good]
        },
    )
}

/// Where a jump after the failed block leads: no further than the range goes,
/// and where units matter and the range goes on, back to a unit boundary, so
/// that the next read starts on one.
pub open spec fn jump_target(s: SweepState, sectors: u64) -> int {
    let plain = s.pos + block_len(s) + sectors * SECTOR;
    if plain >= s.region_end {
        s.region_end as int
    } else if s.aacs {
        round_down(plain, UNIT_BYTES as int)
    } else {
        plain
    }
}

/// How many bytes a jump skips after the failed block.
pub open spec fn gap_len(s: SweepState, sectors: u64) -> u64 {
    (jump_target(s, sectors) - (s.pos + block_len(s))) as u64
}

/// After a failed read: what the read-error policy says.
pub open spec fn after_failed_read(s: SweepState, f: ReadFailure) -> (
    SweepState,
    Seq<SweepAction>,
) {
    if !s.skip_on_error {
        (s, seq![SweepAction::Abort])
    } else {
        let (c, action) = after_failure(s.ctx, f);
        let block = block_len(s);
        let skip = SweepAction::SkipFill { pos: s.pos, len: block };
        let noted = SweepState { ctx: c, iter_count: (s.iter_count + 1) as u64, ..s };
        match action {
            ReadAction::Retry { pause_secs } => (
                noted,
                seq![SweepAction::Pause { secs: pause_secs }],
            ),
            ReadAction::SkipBlock { pause_secs } => (
                advanced(noted, block),
                seq![skip, SweepAction::Pause { secs: pause_secs }],
            ),
            ReadAction::JumpAhead { sectors, pause_secs } => {
                let gap = gap_len(s, sectors);
                let slow = if s.in_damage_zone {
                    seq![]
                } else {
                    seq![SweepAction::SetSpeed { speed: MIN_SPEED }]
                };
                let fill = if gap > 0 {
                    seq![SweepAction::GapFill { pos: (s.pos + block) as u64, len: gap }]
                } else {
                    seq![]
                };
                (
                    SweepState {
                        in_damage_zone: true,
                        ..advanced(advanced(noted, block), gap)
                    },
                    seq![skip] + slow + fill + seq![SweepAction::Pause { secs: pause_secs }],
                )
            },
            ReadAction::AbortPass => (noted, seq![SweepAction::Abort]),
        }
    }
}

/// What a sweep tells a front-end: the mapfile's figures where there are any,
/// but never less good than what has been read; else the sweep's own.
pub open spec fn figures(s: SweepState, snapshot: Option<MapStats>) -> SweepProgress {
    match snapshot {
        Some(st) => SweepProgress {
            work_done: s.pos,
            work_total: s.total_bytes,
            bytes_good: if st.bytes_good >= s.bytes_good_done {
                st.bytes_good
            } else {
                s.bytes_good_done
            },
            bytes_unreadable: st.bytes_unreadable,
            bytes_pending: st.bytes_pending,
            bytes_retryable: st.bytes_retryable,
        },
        None => SweepProgress {
            work_done: s.pos,
            work_total: s.total_bytes,
            bytes_good: s.bytes_good_done,
            bytes_unreadable: 0,
            bytes_pending: if s.total_bytes >= s.bytes_done {
                (s.total_bytes - s.bytes_done) as u64
            } else {
                0
            },
            bytes_retryable: if s.bytes_done >= s.bytes_good_done {
                (s.bytes_done - s.bytes_good_done) as u64
            } else {
                0
            },
        },
    }
}

/// No counter exceeds the number of outcomes.
pub open spec fn counters_within(c: ReadState, n: int) -> bool {
    &&& c.consecutive_good <= n
    &&& c.consecutive_failures <= n
    &&& c.consecutive_outer_failures <= n
    &&& c.wedge_count <= n
    &&& c.total_errors <= n
    &&& c.total_reads_ok <= n
    &&& c.zones_entered <= n
    &&& c.jumps_taken <= n
    &&& c.long_pause_escalations <= n
    &&& c.marginal_recovered <= n
    &&& c.damage_window.len() <= c.damage_window_max
    &&& c.damage_window_max == DAMAGE_WINDOW
}

/// What every sweep keeps: reads are not empty, the cursor lies in its range of
/// whole sectors, on a unit boundary where units matter and the range goes on, and no counter
/// exceeds the number of outcomes.
pub open spec fn sweep_inv(s: SweepState) -> bool {
    &&& s.batch > 0
    &&& s.aacs ==> s.batch % UNIT_SECTORS == 0
    &&& s.aacs && s.pos < s.region_end ==> s.pos % UNIT_BYTES == 0
    &&& s.pos <= s.region_end <= LAST_SECTOR_END
    &&& s.pos % SECTOR == 0 && s.region_end % SECTOR == 0
    &&& 0 <= s.next_region <= s.regions.len()
    &&& s.last_log_iter <= s.iter_count
    &&& counters_within(s.ctx, s.iter_count as int)
}

pub proof fn lemma_counters(c: ReadState, f: ReadFailure, n: int)
    requires
        counters_within(c, n),
        n < u64::MAX,
    ensures
        failure_countable(c),
        counters_within(after_success(c), n + 1),
        counters_within(after_failure(c, f).0, n + 1),
{
}

pub proof fn lemma_region_begun(s: SweepState)
    requires
        sweep_inv(s),
        s.next_region < s.regions.len(),
    ensures
        sweep_inv(region_begun(s)),
{
    let (p, l) = s.regions[s.next_region];
    let (start, len) = snapped(p, l);
    law_snapping_moves_out_to_sectors(p, l);
    assert(start + len <= LAST_SECTOR_END);
    assert((start + len) % 2048 == 0);
    if s.aacs {
        law_rounding_stays_within_a_unit(start as int, 6144);
        let at = round_down(start as int, 6144);
        assert(at == at / 6144 * 6144);
        assert(at / 6144 * 6144 == at / 6144 * 3 * 2048);
        assert(at % 2048 == 0);
    }
}

/// Reads of whole batches keep the cursor on unit boundaries where units
/// matter.
pub proof fn lemma_units(s: SweepState)
    requires
        sweep_inv(s),
        s.aacs,
        s.pos < s.region_end,
    ensures
        s.pos + block_len(s) < s.region_end ==> (s.pos + block_len(s)) % UNIT_BYTES as int == 0,
{
    let units = s.batch as int / 3;
    assert(s.batch == units * 3);
    assert(s.batch * SECTOR == units * 6144);
    assert(s.pos == s.pos as int / 6144 * 6144 + s.pos % 6144);
    assert((s.pos as int / 6144 + units) * 6144 == s.pos + s.batch * SECTOR);
    assert((s.pos + s.batch * SECTOR) % 6144 == 0);
}

/// A jump leads forward, within the range, and to a unit boundary where units
/// matter and the range goes on.
pub proof fn lemma_jump(s: SweepState, sectors: u64)
    requires
        sweep_inv(s),
    ensures
        s.pos + block_len(s) <= jump_target(s, sectors) <= s.region_end,
        s.aacs && jump_target(s, sectors) < s.region_end ==> jump_target(s, sectors)
            % UNIT_BYTES as int == 0,
{
    let start = s.pos + block_len(s);
    let plain = start + sectors * SECTOR;
    assert(start <= s.region_end);
    assert(sectors * SECTOR >= 0);
    if s.aacs && plain < s.region_end {
        assert(s.pos < s.region_end);
        lemma_units(s);
        assert(start == start / 6144 * 6144);
        assert(plain == plain / 6144 * 6144 + plain % 6144);
        assert(start / 6144 <= plain / 6144);
        let down = round_down(plain, 6144);
        assert(down == plain / 6144 * 6144);
        assert(down % 6144 == 0);
    }
}

/// A block ends on a sector, within the range, and on a unit where units matter
/// and the range goes on.
proof fn lemma_block_end(s: SweepState)
    requires
        sweep_inv(s),
    ensures
        s.pos + block_len(s) <= s.region_end,
        (s.pos + block_len(s)) % 2048 == 0,
        s.aacs && s.pos + block_len(s) < s.region_end ==> (s.pos + block_len(s)) % 6144 == 0,
{
    assert(SECTOR == 2048);
    assert((s.batch * 2048) % 2048 == 0);
    assert((s.pos + s.batch * 2048) % 2048 == 0);
    if s.aacs && s.pos < s.region_end {
        lemma_units(s);
    }
}

/// A jump ends on a sector.
proof fn lemma_jump_end(s: SweepState, sectors: u64)
    requires
        sweep_inv(s),
    ensures
        jump_target(s, sectors) % 2048 == 0,
{
    lemma_block_end(s);
    lemma_jump(s, sectors);
    let from = s.pos + block_len(s);
    let plain = from + sectors * 2048;
    assert((sectors * 2048) % 2048 == 0);
    assert(plain % 2048 == 0);
    let to = jump_target(s, sectors);
    if to < s.region_end && s.aacs {
        assert(to == to / 6144 * 6144);
        assert(to / 6144 * 6144 == to / 6144 * 3 * 2048);
    }
}

/// What holds of a cursor within its range.
spec fn in_place(s: SweepState, pos: int) -> bool {
    &&& 0 <= pos <= s.region_end
    &&& pos % 2048 == 0
    &&& s.aacs && pos < s.region_end ==> pos % 6144 == 0
}

/// A failed read moves the cursor to a place where it may stand.
#[verifier::spinoff_prover]
proof fn lemma_failed_place(s: SweepState, f: ReadFailure)
    requires
        sweep_inv(s),
    ensures
        in_place(s, after_failed_read(s, f).0.pos as int),
{
    lemma_block_end(s);
    assert(in_place(s, s.pos as int));
    assert(in_place(s, s.pos + block_len(s)));
    if s.skip_on_error {
        match after_failure(s.ctx, f).1 {
            ReadAction::JumpAhead { sectors, pause_secs } => {
                lemma_jump(s, sectors);
                lemma_jump_end(s, sectors);
                assert(in_place(s, jump_target(s, sectors)));
                assert(after_failed_read(s, f).0.pos == jump_target(s, sectors));
            },
            ReadAction::SkipBlock { pause_secs } => {
                assert(after_failed_read(s, f).0.pos == s.pos + block_len(s));
            },
            _ => {
                assert(after_failed_read(s, f).0.pos == s.pos);
            },
        }
    }
}

/// A good read keeps what every sweep keeps.
#[verifier::spinoff_prover]
pub proof fn lemma_good_read(s: SweepState)
    requires
        sweep_inv(s),
        s.iter_count < u64::MAX,
    ensures
        sweep_inv(after_read(s).0),
{
    let f = ReadFailure {
        transport_failure: false,
        unit_attention: false,
        bridge_degradation: false,
        sense_key: None,
        family: crate::read_error::SenseFamily::Other,
    };
    lemma_counters(s.ctx, f, s.iter_count as int);
    lemma_block_end(s);
}

/// A failed read keeps what every sweep keeps.
#[verifier::spinoff_prover]
pub proof fn lemma_failed_read(s: SweepState, f: ReadFailure)
    requires
        sweep_inv(s),
        s.iter_count < u64::MAX,
    ensures
        sweep_inv(after_failed_read(s, f).0),
{
    lemma_counters(s.ctx, f, s.iter_count as int);
    lemma_failed_place(s, f);
}

impl Sweep {
    /// What every sweep keeps.
    pub open spec fn wf(&self) -> bool {
        sweep_inv(self@)
    }

    /// A sweep of everything that a mapfile says has not been tried.
    pub fn new(
        map: &Mapfile,
        total_bytes: u64,
        requested_batch: Option<u16>,
        skip_on_error: bool,
        format: DiscFormat,
        decrypt_is_aacs: bool,
    ) -> (r: Sweep)
        ensures
            r.wf(),
            r@ == new_sweep(
                map@.entries,
                total_bytes,
                requested_batch,
                skip_on_error,
                format,
                decrypt_is_aacs,
            ),
            r@ == (SweepState {
                batch: sweep_batch(requested_batch, skip_on_error, format, decrypt_is_aacs) as u16,
                aacs: decrypt_is_aacs,
                skip_on_error,
                total_bytes,
                regions: ranges_among(map@.entries, seq![SectorStatus::NonTried]),
                next_region: 0,
                pos: 0,
                region_end: 0,
                ctx: fresh_state(
                    sweep_batch(requested_batch, skip_on_error, format, decrypt_is_aacs) as u16,
                    false,
                ),
                in_damage_zone: false,
                bytes_done: 0,
                bytes_good_done: 0,
                iter_count: 0,
                last_log_iter: 0,
            }),
    {
        let batch: u16 = aacs_aligned_batch(
            sweep_batch_sectors(requested_batch, skip_on_error, format),
            decrypt_is_aacs,
        );
        let untried: [SectorStatus; 1] = [SectorStatus::NonTried];
        assert(untried@ =~= seq![SectorStatus::NonTried]);
        let regions: Vec<(u64, u64)> = map.ranges_with(untried.as_slice());
        Sweep {
            batch,
            decrypt_is_aacs,
            skip_on_error,
            total_bytes,
            regions,
            next_region: 0,
            pos: 0,
            region_end: 0,
            ctx: ReadCtx::for_sweep(batch),
            in_damage_zone: false,
            bytes_done: 0,
            bytes_good_done: 0,
            iter_count: 0,
            last_log_iter: 0,
        }
    }

    /// The sectors per read: the owner's buffer holds as many.
    pub fn batch(&self) -> (r: u16)
        ensures
            r == self@.batch,
    {
        self.batch
    }

    /// The cursor.
    pub fn pos(&self) -> (r: u64)
        ensures
            r == self@.pos,
    {
        self.pos
    }

    /// The read-error bookkeeping.
    pub fn ctx(&self) -> (r: &ReadCtx)
        ensures
            r@ == self@.ctx,
    {
        &self.ctx
    }

    /// The next read to make; `None` when everything has been read.
    pub fn next_read(&mut self) -> (r: Option<ReadRequest>)
        requires
            old(self).wf(),
        ensures
            final(self).wf(),
            final(self)@ == settled(old(self)@),
            r is Some <==> final(self)@.pos < final(self)@.region_end,
            r matches Some(req) ==> req == next_request(final(self)@),
            r is None ==> final(self)@.next_region == final(self)@.regions.len(),
    {
        while self.pos >= self.region_end && self.next_region < self.regions.len()
            invariant
                self.wf(),
                settled(self@) == settled(old(self)@),
            decreases self.regions@.len() - self.next_region,
        {
            proof {
                lemma_region_begun(self@);
            }
            let ghost before = self@;
            let (raw_pos, raw_len) = self.regions[self.next_region];
            let (start, len) = snap_to_sectors(raw_pos, raw_len);
            self.next_region = self.next_region + 1;
            self.region_end = start + len;
            self.pos = aacs_aligned_region_start(start, self.decrypt_is_aacs);
            assert(self@ =~= region_begun(before));
        }
        if self.pos >= self.region_end {
            return None;
        }
        let room: u64 = self.region_end - self.pos;
        let full: u64 = self.batch as u64 * SECTOR;
        let block_bytes: u64 = if room <= full {
            room
        } else {
            full
        };
        let read_bytes: u64 = aacs_aligned_read_bytes(
            self.pos,
            block_bytes,
            self.total_bytes,
            self.decrypt_is_aacs,
        );
        Some(
            ReadRequest {
                pos: self.pos,
                block_bytes,
                read_bytes,
                lba: (self.pos / SECTOR % 0x1_0000_0000) as u32,
                count: (read_bytes / SECTOR % 0x1_0000) as u16,
            },
        )
    }

    /// How many bytes the next block holds.
    fn block(&self) -> (r: u64)
        requires
            self.wf(),
        ensures
            r == block_len(self@),
            self@.pos + r <= self@.region_end,
    {
        let room: u64 = self.region_end - self.pos;
        let full: u64 = self.batch as u64 * SECTOR;
        if room <= full {
            room
        } else {
            full
        }
    }

    /// Report that the last read succeeded.
    pub fn read_ok(&mut self) -> (r: Vec<SweepAction>)
        requires
            old(self).wf(),
            old(self)@.iter_count < u64::MAX,
        ensures
            final(self).wf(),
            (final(self)@, r@) == after_read(old(self)@),
    {
        proof {
            lemma_counters(
                self@.ctx,
                ReadFailure {
                    transport_failure: false,
                    unit_attention: false,
                    bridge_degradation: false,
                    sense_key: None,
                    family: crate::read_error::SenseFamily::Other,
                },
                self@.iter_count as int,
            );
            lemma_good_read(self@);
        }
        let mut actions: Vec<SweepAction> = Vec::new();
        let block: u64 = self.block();
        self.ctx.on_success();
        if self.ctx.consecutive_good >= DAMAGE_ZONE_EXIT_THRESHOLD {
            self.ctx.jump_multiplier = 1;
            if self.in_damage_zone {
                self.in_damage_zone = false;
                actions.push(SweepAction::SetSpeed { speed: MAX_SPEED });
            }
        }
        actions.push(SweepAction::Good { pos: self.pos, len: block });
        self.bytes_good_done = self.bytes_good_done.saturating_add(block);
        self.bytes_done = self.bytes_done.saturating_add(block);
        self.pos = self.pos + block;
        self.iter_count = self.iter_count + 1;
        assert(actions@ =~= after_read(old(self)@).1);
        assert(self@ =~= after_read(old(self)@).0);
        actions
    }

    /// Report that the last read failed.
    #[verifier::rlimit(40)]
    pub fn read_failed(&mut self, err: &ReadFailure) -> (r: Vec<SweepAction>)
        requires
            old(self).wf(),
            old(self)@.iter_count < u64::MAX,
        ensures
            final(self).wf(),
            (final(self)@, r@) == after_failed_read(old(self)@, *err),
    {
        let mut actions: Vec<SweepAction> = Vec::new();
        if !self.skip_on_error {
            actions.push(SweepAction::Abort);
            assert(actions@ =~= after_failed_read(old(self)@, *err).1);
            return actions;
        }
        proof {
            lemma_counters(self@.ctx, *err, self@.iter_count as int);
            lemma_failed_read(self@, *err);
        }
        let block: u64 = self.block();
        match handle_read_error(err, &mut self.ctx) {
            ReadAction::Retry { pause_secs } => {
                actions.push(SweepAction::Pause { secs: pause_secs });
            },
            ReadAction::SkipBlock { pause_secs } => {
                actions.push(SweepAction::SkipFill { pos: self.pos, len: block });
                self.bytes_done = self.bytes_done.saturating_add(block);
                self.pos = self.pos + block;
                actions.push(SweepAction::Pause { secs: pause_secs });
            },
            ReadAction::JumpAhead { sectors, pause_secs } => {
                actions.push(SweepAction::SkipFill { pos: self.pos, len: block });
                self.bytes_done = self.bytes_done.saturating_add(block);
                if !self.in_damage_zone {
                    self.in_damage_zone = true;
                    actions.push(SweepAction::SetSpeed { speed: MIN_SPEED });
                }
                let gap_start: u64 = self.pos + block;
                let target: u128 = gap_start as u128 + sectors as u128 * SECTOR as u128;
                let jump_pos: u64 = if target >= self.region_end as u128 {
                    self.region_end
                } else if self.decrypt_is_aacs {
                    target as u64 - target as u64 % UNIT_BYTES
                } else {
                    target as u64
                };
                proof {
                    lemma_jump(old(self)@, sectors);
                }
                let gap: u64 = jump_pos - gap_start;
                assert(gap == gap_len(old(self)@, sectors));
                if gap > 0 {
                    actions.push(SweepAction::GapFill { pos: gap_start, len: gap });
                    self.bytes_done = self.bytes_done.saturating_add(gap);
                }
                self.pos = jump_pos;
                actions.push(SweepAction::Pause { secs: pause_secs });
            },
            ReadAction::AbortPass => {
                actions.push(SweepAction::Abort);
            },
        }
        self.iter_count = self.iter_count + 1;
        assert(actions@ =~= after_failed_read(old(self)@, *err).1);
        assert(self@ =~= after_failed_read(old(self)@, *err).0);
        actions
    }
}

impl Sweep {
    /// Whether it is time for a heartbeat: enough reads since the last, or
    /// enough time.
    pub fn heartbeat(&mut self, time_due: bool) -> (r: bool)
        requires
            old(self).wf(),
        ensures
            final(self).wf(),
            r == (time_due || old(self)@.iter_count - old(self)@.last_log_iter >= 100),
            final(self)@ == if r {
                SweepState { last_log_iter: old(self)@.iter_count, ..old(self)@ }
            } else {
                old(self)@
            },
    {
        if self.iter_count - self.last_log_iter >= HEARTBEAT_READS || time_due {
            self.last_log_iter = self.iter_count;
            return true;
        }
        false
    }

    /// What to tell a front-end.
    pub fn progress(&self, snapshot: Option<MapStats>) -> (r: SweepProgress)
        ensures
            r == figures(self@, snapshot),
    {
        match snapshot {
            Some(st) => SweepProgress {
                work_done: self.pos,
                work_total: self.total_bytes,
                bytes_good: if st.bytes_good >= self.bytes_good_done {
                    st.bytes_good
                } else {
                    self.bytes_good_done
                },
                bytes_unreadable: st.bytes_unreadable,
                bytes_pending: st.bytes_pending,
                bytes_retryable: st.bytes_retryable,
            },
            None => SweepProgress {
                work_done: self.pos,
                work_total: self.total_bytes,
                bytes_good: self.bytes_good_done,
                bytes_unreadable: 0,
                bytes_pending: self.total_bytes.saturating_sub(self.bytes_done),
                bytes_retryable: self.bytes_done.saturating_sub(self.bytes_good_done),
            },
        }
    }

    /// The outcome of the sweep, by the mapfile's final statistics.
    pub fn result(&self, stats: MapStats, halted: bool) -> (r: CopyResult)
        ensures
            r == (CopyResult {
                bytes_total: self@.total_bytes,
                bytes_good: stats.bytes_good,
                bytes_unreadable: stats.bytes_unreadable,
                bytes_pending: stats.bytes_pending,
                recovered_this_pass: 0,
                complete: stats.bytes_pending == 0 && stats.bytes_unreadable == 0 && !halted,
                halted,
            }),
    {
        CopyResult::new(
            self.total_bytes,
            stats.bytes_good,
            stats.bytes_unreadable,
            stats.bytes_pending,
            0,
            halted,
        )
    }
}

/// The range and status that an action records, if it records one.
pub open spec fn recorded_by(a: SweepAction) -> Option<MapEntry> {
    match a {
        SweepAction::Good { pos, len } => Some(
            MapEntry { pos, size: len, status: SectorStatus::Finished },
        ),
        SweepAction::SkipFill { pos, len } | SweepAction::GapFill { pos, len } => Some(
            MapEntry { pos, size: len, status: SectorStatus::NonTrimmed },
        ),
        SweepAction::SetSpeed { .. } | SweepAction::Pause { .. } | SweepAction::Abort => None,
    }
}

/// Record an action that has been carried out.
pub fn record_action(map: &mut Mapfile, action: &SweepAction) -> (r: Result<(), MapfileInvalid>)
    requires
        old(map).wf(),
        recorded_by(*action) matches Some(e) ==> countable(old(map)@, e),
    ensures
        final(map).wf(),
        match recorded_by(*action) {
            None => r is Ok && final(map)@ == old(map)@,
            Some(e) => {
                &&& r == if e.size == 0 || e.end() <= u64::MAX {
                    Ok::<(), MapfileInvalid>(())
                } else {
                    Err(MapfileInvalid::Range)
                }
                &&& r is Ok && e.size > 0 ==> final(map)@.entries == recorded(
                    old(map)@.entries,
                    e,
                ) && final(map)@.dirty
                &&& r is Err || e.size == 0 ==> final(map)@ == old(map)@
            },
        },
        final(map)@.total_size == old(map)@.total_size,
        final(map)@.version == old(map)@.version,
        final(map)@.vid == old(map)@.vid,
        final(map)@.unit_keys == old(map)@.unit_keys,
{
    match *action {
        SweepAction::Good { pos, len } => map.record(pos, len, SectorStatus::Finished),
        SweepAction::SkipFill { pos, len } => map.record(pos, len, SectorStatus::NonTrimmed),
        SweepAction::GapFill { pos, len } => map.record(pos, len, SectorStatus::NonTrimmed),
        SweepAction::SetSpeed { .. } => Ok(()),
        SweepAction::Pause { .. } => Ok(()),
        SweepAction::Abort => Ok(()),
    }
}

/// How many zeros to write next, when some of a fill has been written.
pub fn next_zero_chunk(filled: u64, len: u64) -> (r: u64)
    requires
        filled <= len,
    ensures
        r == least(len - filled, ZERO_CHUNK as int),
        filled < len ==> 0 < r,
        r <= 65536 && filled + r <= len,
        r == 65536 || filled + r == len,
{
    let left: u64 = len - filled;
    if left <= ZERO_CHUNK {
        left
    } else {
        ZERO_CHUNK
    }
}

// ---------------------------------------------------------------------------
// Laws
// ---------------------------------------------------------------------------

/// Whether the records of some actions lead from one position to another, each
/// beginning where the one before ends.
pub open spec fn records_lead(actions: Seq<SweepAction>, a: int, b: int) -> bool
    decreases actions.len(),
{
    if actions.len() == 0 {
        a == b
    } else {
        match recorded_by(actions.last()) {
            None => records_lead(actions.drop_last(), a, b),
            Some(e) => e.size > 0 && e.end() == b && records_lead(
                actions.drop_last(),
                a,
                e.pos as int,
            ),
        }
    }
}

/// A successful read moves the cursor over exactly what it records, forward
/// and within the range being read.
pub proof fn law_good_reads_record_what_they_pass(s: SweepState)
    requires
        sweep_inv(s),
        s.pos < s.region_end,
        s.iter_count < u64::MAX,
    ensures
        records_lead(after_read(s).1, s.pos as int, after_read(s).0.pos as int),
        s.pos < after_read(s).0.pos <= s.region_end,
        after_read(s).0.region_end == s.region_end,
{
    let actions = after_read(s).1;
    let init = actions.drop_last();
    assert(block_len(s) > 0);
    if init.len() > 0 {
        assert(init.drop_last().len() == 0);
        assert(records_lead(init.drop_last(), s.pos as int, s.pos as int));
        assert(recorded_by(init.last()) is None);
    }
    assert(records_lead(init, s.pos as int, s.pos as int));
}

/// A failed read that does not end the pass moves the cursor over exactly what
/// it records; only a retry leaves it where it was.
pub proof fn law_failed_reads_record_what_they_pass(s: SweepState, f: ReadFailure)
    requires
        sweep_inv(s),
        s.pos < s.region_end,
        s.iter_count < u64::MAX,
    ensures
        records_lead(after_failed_read(s, f).1, s.pos as int, after_failed_read(s, f).0.pos as int),
        s.pos <= after_failed_read(s, f).0.pos <= s.region_end,
        after_failed_read(s, f).0.region_end == s.region_end,
        after_failed_read(s, f).0.pos == s.pos ==> !s.skip_on_error || after_failure(
            s.ctx,
            f,
        ).1 is Retry || after_failure(s.ctx, f).1 is AbortPass,
{
    lemma_counters(s.ctx, f, s.iter_count as int);
    let (next, actions) = after_failed_read(s, f);
    let p = s.pos as int;
    let none = Seq::<SweepAction>::empty();
    let block = block_len(s);
    assert(block > 0);
    assert(records_lead(none, p, p));
    if !s.skip_on_error {
        assert(actions.drop_last() =~= none);
    } else {
        match after_failure(s.ctx, f).1 {
            ReadAction::Retry { pause_secs } => {
                assert(actions.drop_last() =~= none);
            },
            ReadAction::AbortPass => {
                assert(actions.drop_last() =~= none);
            },
            ReadAction::SkipBlock { pause_secs } => {
                let one = actions.drop_last();
                assert(one.drop_last() =~= none);
                assert(records_lead(one, p, p + block));
            },
            ReadAction::JumpAhead { sectors, pause_secs } => {
                let gap = gap_len(s, sectors);
                let skip = seq![SweepAction::SkipFill { pos: s.pos, len: block }];
                assert(skip.drop_last() =~= none);
                assert(records_lead(skip, p, p + block));
                let slow = if s.in_damage_zone {
                    Seq::<SweepAction>::empty()
                } else {
                    seq![SweepAction::SetSpeed { speed: MIN_SPEED }]
                };
                let two = skip + slow;
                if slow.len() > 0 {
                    assert(two.drop_last() =~= skip);
                } else {
                    assert(two =~= skip);
                }
                assert(records_lead(two, p, p + block));
                let fill = if gap > 0 {
                    seq![SweepAction::GapFill { pos: (s.pos + block) as u64, len: gap }]
                } else {
                    seq![]
                };
                let three = two + fill;
                if gap > 0 {
                    assert(three.drop_last() =~= two);
                } else {
                    assert(three =~= two);
                }
                assert(records_lead(three, p, p + block + gap));
                assert(actions.drop_last() =~= three);
            },
        }
    }
}

/// A read never exceeds the buffer of one batch, and covers its block. Where
/// units matter it holds whole units, unless the disc ends first.
pub proof fn law_reads_fit_the_batch(s: SweepState)
    requires
        sweep_inv(s),
        s.pos < s.region_end,
    ensures
        next_request(s).block_bytes <= next_request(s).read_bytes <= s.batch * SECTOR,
        s.aacs && s.pos + round_up(block_len(s) as int, UNIT_BYTES as int) <= s.total_bytes
            ==> next_request(s).read_bytes % UNIT_BYTES == 0,
{
    let block = block_len(s) as int;
    let full = s.batch * SECTOR;
    if s.aacs {
        let units = s.batch as int / 3;
        assert(s.batch == units * 3);
        assert(full == units * 6144);
        let up = round_up(block, 6144);
        assert(block == block / 6144 * 6144 + block % 6144);
        assert(up % 6144 == 0) by {
            if block % 6144 != 0 {
                assert(up == (block / 6144 + 1) * 6144);
            }
        }
        assert(up <= full) by {
            if block % 6144 != 0 {
                assert(block / 6144 < units);
                assert((block / 6144 + 1) * 6144 <= units * 6144);
            }
        }
        assert(up <= u64::MAX);
    }
}

/// Without a snapshot of the mapfile, the figures of a sweep add up to the
/// disc: what is good, what waits for a retry, and what is still unread.
pub proof fn law_figures_partition_the_disc(s: SweepState)
    requires
        s.bytes_good_done <= s.bytes_done <= s.total_bytes,
    ensures
        ({
            let f = figures(s, None);
            f.bytes_good + f.bytes_unreadable + f.bytes_retryable + f.bytes_pending == s.total_bytes
        }),
{
}

/// What has been read never exceeds how far the cursor has come.
pub proof fn law_good_never_exceeds_done(s: SweepState, f: ReadFailure)
    requires
        sweep_inv(s),
        s.pos < s.region_end,
        s.iter_count < u64::MAX,
        s.bytes_good_done <= s.bytes_done,
    ensures
        after_read(s).0.bytes_good_done <= after_read(s).0.bytes_done,
        after_failed_read(s, f).0.bytes_good_done == s.bytes_good_done,
        s.bytes_done <= after_failed_read(s, f).0.bytes_done,
{
}

/// The good bytes a front-end is told never fall below what has been read.
pub proof fn law_reported_good_never_regresses(s: SweepState, snapshot: Option<MapStats>)
    ensures
        figures(s, snapshot).bytes_good >= s.bytes_good_done,
{
}

} // verus!
