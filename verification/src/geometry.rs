//! Sectors, ECC blocks and AACS units: where reads may start and end.

use crate::disc::DiscFormat;
use vstd::prelude::*;

verus! {

/// Bytes in a sector.
pub const SECTOR: u64 = 2048;

/// Sectors in one AACS aligned unit.
pub const UNIT_SECTORS: u16 = 3;

/// Bytes in one AACS aligned unit.
pub const UNIT_BYTES: u64 = 6144;

/// Sectors a sweep reads at a time where a failed batch need not be small.
pub const DEFAULT_BATCH_SECTORS_OPTICAL: u16 = 60;

/// The largest whole number of sectors that an address can hold, in bytes.
pub const LAST_SECTOR_END: u64 = 0xffff_ffff_ffff_f800;

/// The largest multiple of `unit` that is not above `x`.
pub open spec fn round_down(x: int, unit: int) -> int {
    x - x % unit
}

/// The smallest multiple of `unit` that is not below `x`.
pub open spec fn round_up(x: int, unit: int) -> int {
    if x % unit == 0 {
        x
    } else {
        x + unit - x % unit
    }
}

/// Sectors in an ECC block of a disc.
pub open spec fn ecc_block(format: DiscFormat) -> u16 {
    match format {
        DiscFormat::Dvd | DiscFormat::HdDvd => 16,
        _ => 32,
    }
}

/// Sectors in an ECC block: 64 KiB for the Blu-ray family, 32 KiB for DVD and
/// HD DVD.
pub fn ecc_sectors(format: DiscFormat) -> (r: u16)
    ensures
        r == ecc_block(format),
{
    match format {
        DiscFormat::Uhd | DiscFormat::Fmts | DiscFormat::BluRay => 32,
        DiscFormat::Dvd | DiscFormat::HdDvd => 16,
        DiscFormat::Unknown => 32,
    }
}

/// The batch size a sweep reads in, before AACS unit alignment. Where none is
/// requested, a sweep that skips errors reads one ECC block at a time, so that
/// a skipped batch loses one block; a clean sweep prefers the larger batch. A
/// request for none is one: an empty batch would never get anywhere.
pub fn sweep_batch_sectors(requested: Option<u16>, skip_on_error: bool, format: DiscFormat) -> (r:
    u16)
    ensures
        r == match requested {
            Some(b) => if b == 0 {
                1
            } else {
                b
            },
            None => if skip_on_error {
                ecc_block(format)
            } else {
                DEFAULT_BATCH_SECTORS_OPTICAL
            },
        },
        r > 0,
{
    match requested {
        Some(b) => if b == 0 {
            1
        } else {
            b
        },
        None => if skip_on_error {
            ecc_sectors(format)
        } else {
            DEFAULT_BATCH_SECTORS_OPTICAL
        },
    }
}

/// Round a sweep's batch size up to a whole number of AACS units, where the
/// sweep decrypts AACS. Units are counted from the start of a read, so a read
/// that held part of one would be decrypted under the wrong alignment.
pub fn aacs_aligned_batch(batch: u16, decrypt_is_aacs: bool) -> (r: u16)
    ensures
        !decrypt_is_aacs ==> r == batch,
        decrypt_is_aacs ==> r == round_up(batch as int, UNIT_SECTORS as int),
        decrypt_is_aacs ==> r % UNIT_SECTORS == 0,
        batch <= r < batch + UNIT_SECTORS,
{
    let rem: u16 = batch % UNIT_SECTORS;
    if decrypt_is_aacs && rem != 0 {
        return batch.saturating_add(UNIT_SECTORS - rem);
    }
    batch
}

/// Anchor a region's read cursor down to the nearest AACS unit boundary, where
/// the sweep decrypts AACS. Reading the few sectors before it again does no
/// harm.
pub fn aacs_aligned_region_start(region_pos: u64, decrypt_is_aacs: bool) -> (r: u64)
    ensures
        !decrypt_is_aacs ==> r == region_pos,
        decrypt_is_aacs ==> r == round_down(region_pos as int, UNIT_BYTES as int),
        decrypt_is_aacs ==> r % UNIT_BYTES == 0,
        r <= region_pos < r + UNIT_BYTES,
{
    if !decrypt_is_aacs {
        return region_pos;
    }
    region_pos - region_pos % UNIT_BYTES
}

/// How many bytes to read for a block.
pub open spec fn read_span(pos: int, block_bytes: int, limit: int, aacs: bool) -> int {
    if !aacs || block_bytes % (UNIT_BYTES as int) == 0 {
        block_bytes
    } else {
        let whole = if round_up(block_bytes, UNIT_BYTES as int) <= u64::MAX {
            round_up(block_bytes, UNIT_BYTES as int)
        } else {
            u64::MAX as int
        };
        let room = if limit >= pos {
            limit - pos
        } else {
            0
        };
        if whole <= room {
            whole
        } else if room >= block_bytes {
            room
        } else {
            block_bytes
        }
    }
}

/// Widen the read of a block out to whole AACS units, where the sweep decrypts
/// AACS: never past `limit`, and never narrower than the block. Only the read
/// widens; what is recorded is the block.
pub fn aacs_aligned_read_bytes(pos: u64, block_bytes: u64, limit: u64, decrypt_is_aacs: bool) -> (r:
    u64)
    ensures
        r == read_span(pos as int, block_bytes as int, limit as int, decrypt_is_aacs),
        block_bytes <= r < block_bytes + UNIT_BYTES,
        r > block_bytes ==> pos + r <= limit,
{
    if !decrypt_is_aacs {
        return block_bytes;
    }
    let rem: u64 = block_bytes % UNIT_BYTES;
    if rem == 0 {
        return block_bytes;
    }
    let widened: u64 = block_bytes.saturating_add(UNIT_BYTES - rem);
    let room: u64 = limit.saturating_sub(pos);
    let capped: u64 = if widened <= room {
        widened
    } else {
        room
    };
    if capped >= block_bytes {
        capped
    } else {
        block_bytes
    }
}

/// Where a byte range ends once its end is moved up to a sector boundary, or
/// down to the last that an address can hold.
pub open spec fn snapped_end(end: int) -> int {
    if round_up(end, SECTOR as int) <= LAST_SECTOR_END {
        round_up(end, SECTOR as int)
    } else {
        LAST_SECTOR_END as int
    }
}

/// A byte range moved out to whole sectors: its start down, its end up. An
/// empty range stays empty.
pub open spec fn snapped(pos: u64, len: u64) -> (u64, u64) {
    let start = round_down(pos as int, SECTOR as int);
    if len == 0 {
        (start as u64, 0)
    } else {
        (start as u64, (snapped_end(pos + len) - start) as u64)
    }
}

/// Move a byte range out to whole sectors. A range that reaches into a last
/// sector whose end no address can hold loses that sector.
pub fn snap_to_sectors(pos: u64, len: u64) -> (r: (u64, u64))
    ensures
        r == snapped(pos, len),
        r.0 % SECTOR == 0,
        r.1 % SECTOR == 0,
        r.0 + r.1 <= LAST_SECTOR_END,
{
    let start: u64 = pos - pos % SECTOR;
    assert(start % SECTOR == 0 && start <= LAST_SECTOR_END) by {
        assert(start == pos / SECTOR * SECTOR);
    }
    if len == 0 {
        return (start, 0);
    }
    let sum: u128 = pos as u128 + len as u128;
    let rem: u128 = sum % (SECTOR as u128);
    let up: u128 = if rem == 0 {
        sum
    } else {
        sum + (SECTOR as u128 - rem)
    };
    proof {
        assert(up == round_up(pos + len, SECTOR as int));
        assert(up % (SECTOR as u128) == 0) by {
            assert(sum == sum / 2048 * 2048 + rem);
            if rem != 0 {
                assert(up == (sum / 2048 + 1) * 2048);
            }
        }
        assert(start <= pos);
        assert(up >= pos);
    }
    let end: u64 = if up <= LAST_SECTOR_END as u128 {
        up as u64
    } else {
        LAST_SECTOR_END
    };
    (start, end - start)
}

/// Moving a range out to whole sectors loses none of it, unless it reaches
/// into a last sector whose end no address can hold.
pub proof fn law_snapping_covers_the_range(pos: u64, len: u64)
    requires
        pos + len <= LAST_SECTOR_END,
    ensures
        snapped(pos, len).0 <= pos,
        len > 0 ==> pos + len <= snapped(pos, len).0 + snapped(pos, len).1,
        len > 0 ==> snapped(pos, len).1 >= SECTOR,
        len > 0 ==> snapped(pos, len).0 + snapped(pos, len).1 < pos + len + SECTOR,
{
    let start = round_down(pos as int, SECTOR as int);
    let end = round_up(pos + len, SECTOR as int);
    assert(start == pos as int / 2048 * 2048);
    assert((pos + len) == (pos + len) / 2048 * 2048 + (pos + len) % 2048);
    assert(end % 2048 == 0) by {
        if (pos + len) % 2048 != 0 {
            assert(end == ((pos + len) / 2048 + 1) * 2048);
        }
    }
    assert(end <= LAST_SECTOR_END) by {
        assert(LAST_SECTOR_END as int % 2048 == 0);
    }
}

/// Rounding leads to the nearest multiple on its side.
pub proof fn law_rounding_stays_within_a_unit(x: int, unit: int)
    requires
        unit > 0,
    ensures
        round_down(x, unit) % unit == 0,
        round_down(x, unit) <= x < round_down(x, unit) + unit,
        round_up(x, unit) % unit == 0,
        round_up(x, unit) - unit < x <= round_up(x, unit),
{
    let q = x / unit;
    let r = x % unit;
    vstd::arithmetic::div_mod::lemma_fundamental_div_mod(x, unit);
    vstd::arithmetic::div_mod::lemma_mod_bound(x, unit);
    vstd::arithmetic::div_mod::lemma_mod_multiples_basic(q, unit);
    vstd::arithmetic::div_mod::lemma_mod_multiples_basic(q + 1, unit);
    vstd::arithmetic::mul::lemma_mul_is_commutative(q, unit);
    vstd::arithmetic::mul::lemma_mul_is_distributive_add_other_way(unit, q, 1);
    assert(round_down(x, unit) == q * unit);
    assert(round_up(x, unit) == q * unit || round_up(x, unit) == (q + 1) * unit);
}

/// A range is moved out to sectors of 2048 bytes, by less than one on either
/// side; an empty range stays empty. Only at the very end of the address space,
/// where the last sector has no end, is a range cut short.
pub proof fn law_snapping_moves_out_to_sectors(pos: u64, len: u64)
    ensures
        snapped(pos, len).0 % 2048 == 0,
        snapped(pos, len).1 % 2048 == 0,
        snapped(pos, len).0 <= pos < snapped(pos, len).0 + 2048,
        len == 0 ==> snapped(pos, len).1 == 0,
        len > 0 && pos + len <= 0xffff_ffff_ffff_f800 ==> pos + len <= snapped(pos, len).0
            + snapped(pos, len).1 < pos + len + 2048,
        len > 0 && pos + len > 0xffff_ffff_ffff_f800 ==> snapped(pos, len).0 + snapped(pos, len).1
            == 0xffff_ffff_ffff_f800,
{
    law_rounding_stays_within_a_unit(pos as int, 2048);
    law_rounding_stays_within_a_unit(pos + len, 2048);
    assert(SECTOR == 2048);
    let start = round_down(pos as int, 2048);
    let end = snapped_end(pos + len);
    assert(end % 2048 == 0);
    assert(start <= end);
    assert((end - start) % 2048 == 0);
}

/// Sectors in an ECC block: 16 on DVD and HD DVD, 32 on everything else.
pub proof fn law_ecc_blocks(format: DiscFormat)
    ensures
        ecc_block(format) == 16 <==> format is Dvd || format is HdDvd,
        ecc_block(format) == 32 <==> format is Uhd || format is Fmts || format is BluRay
            || format is Unknown,
{
}

/// The read of a block is the block, and where units matter out to a whole unit
/// of 6144 bytes: by less than a unit, never beyond the limit, and short of a
/// whole unit only where the limit is.
pub proof fn law_reads_are_widened_to_units(pos: u64, block: u64, limit: u64, aacs: bool)
    requires
        pos + block + 6144 <= u64::MAX,
    ensures
        ({
            let r = read_span(pos as int, block as int, limit as int, aacs);
            &&& !aacs ==> r == block
            &&& block <= r < block + 6144
            &&& r > block ==> pos + r <= limit
            &&& aacs && pos + block <= limit ==> r % 6144 == 0 || pos + r == limit
            &&& aacs && pos + block > limit ==> r == block
        }),
{
    law_rounding_stays_within_a_unit(block as int, 6144);
}

/// A range of whole sectors is not changed by moving it out to whole sectors.
pub proof fn law_snapping_keeps_whole_sectors(pos: u64, len: u64)
    requires
        pos % SECTOR == 0,
        len % SECTOR == 0,
        pos + len <= u64::MAX,
    ensures
        snapped(pos, len) == (pos, len),
{
    assert((pos + len) % 2048 == 0);
    assert(pos + len <= LAST_SECTOR_END);
}

/// A unit-aligned cursor that advances by unit-aligned batches stays on a unit
/// boundary, and every full batch read from it is a whole number of units.
pub proof fn law_aligned_batches_stay_aligned(pos: int, batch: int)
    requires
        pos % (UNIT_BYTES as int) == 0,
        batch % (UNIT_SECTORS as int) == 0,
    ensures
        (pos + batch * SECTOR) % (UNIT_BYTES as int) == 0,
        (batch * SECTOR) % (UNIT_BYTES as int) == 0,
{
    assert(batch == batch / 3 * 3);
    assert(batch * 2048 == batch / 3 * 6144);
    assert(pos == pos / 6144 * 6144);
    assert(pos + batch * 2048 == (pos / 6144 + batch / 3) * 6144);
}

} // verus!
