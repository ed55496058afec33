use freemkv_engine::disc::DiscFormat;
use freemkv_engine::geometry::{
    aacs_aligned_batch, aacs_aligned_read_bytes, aacs_aligned_region_start, ecc_sectors,
    snap_to_sectors, sweep_batch_sectors, UNIT_BYTES, UNIT_SECTORS,
};

const UNIT: u64 = 6144;
const FAR: u64 = 1 << 40;

#[test]
fn rounds_the_real_bd_batch_up_to_a_unit_boundary() {
    assert_eq!(aacs_aligned_batch(32, true), 33);
}

#[test]
fn result_is_the_next_multiple_of_a_unit() {
    for batch in 1u16..=256 {
        let aligned = aacs_aligned_batch(batch, true);
        assert!(aligned >= batch, "{batch} rounded down to {aligned}");
        assert!(
            aligned % UNIT_SECTORS == 0,
            "{batch} → {aligned}, not a whole number of units"
        );
        assert!(
            aligned - batch < UNIT_SECTORS,
            "{batch} → {aligned} overshot by a whole unit or more"
        );
    }
}

#[test]
fn an_aligned_batch_is_left_alone() {
    for batch in [3u16, 33, 96, 300] {
        assert_eq!(aacs_aligned_batch(batch, true), batch);
    }
}

#[test]
fn a_non_aacs_sweep_keeps_its_batch() {
    for batch in [1u16, 32, 64, 65535] {
        assert_eq!(aacs_aligned_batch(batch, false), batch);
    }
}

#[test]
fn near_max_saturates_instead_of_wrapping() {
    let aligned = aacs_aligned_batch(u16::MAX - 1, true);
    assert!(aligned >= u16::MAX - 1, "wrapped to {aligned}");
}

#[test]
fn the_last_block_of_a_region_is_widened_to_a_whole_unit() {
    assert_eq!(aacs_aligned_read_bytes(0, 4096, FAR, true), UNIT);
    assert_eq!(aacs_aligned_read_bytes(0, 2048, FAR, true), UNIT);
    assert_eq!(aacs_aligned_read_bytes(0, 69_632, FAR, true), 73_728);
}

#[test]
fn a_unit_aligned_block_is_untouched() {
    for bytes in [UNIT, 2 * UNIT, 11 * UNIT, 67_584] {
        assert_eq!(aacs_aligned_read_bytes(12_288, bytes, FAR, true), bytes);
    }
}

#[test]
fn a_non_aacs_sweep_reads_exactly_the_block() {
    for bytes in [2048u64, 4096, 65_536, 69_632] {
        assert_eq!(aacs_aligned_read_bytes(0, bytes, FAR, false), bytes);
    }
}

#[test]
fn widening_stops_at_the_end_of_the_disc() {
    let capacity = 204_800u64;
    assert_eq!(
        aacs_aligned_read_bytes(capacity - 4096, 4096, capacity, true),
        4096,
        "must not read past capacity to complete a unit"
    );
    assert_eq!(
        aacs_aligned_read_bytes(0, 4096, capacity, true),
        UNIT,
        "room to widen inside the image"
    );
}

#[test]
fn never_returns_less_than_the_requested_block() {
    assert_eq!(aacs_aligned_read_bytes(8192, 4096, 0, true), 4096);
    assert_eq!(aacs_aligned_read_bytes(8192, 4096, 8192, true), 4096);
}

#[test]
fn an_unaligned_range_widens_to_whole_sectors() {
    assert_eq!(snap_to_sectors(512, 1024), (0, 2048));
    assert_eq!(snap_to_sectors(2048 - 512, 1024), (0, 4096));
    assert_eq!(snap_to_sectors(4096, 2048), (4096, 2048));
    assert_eq!(snap_to_sectors(700, 0), (0, 0));
}

#[test]
fn rounding_up_saturates_at_the_end_of_the_address_space() {
    let (start, len) = snap_to_sectors(u64::MAX - 1023, 1024);
    assert_eq!(start % 2048, 0, "start stays sector-aligned");
    assert!(
        start.checked_add(len).is_some(),
        "snapped range wrapped past u64::MAX: start={start} len={len}"
    );
    assert_eq!(
        len % 2048,
        0,
        "returned length must be a whole number of sectors"
    );
    assert_eq!(len, 0, "the final sector here cannot be represented in u64");
}

#[test]
fn a_normal_range_is_unaffected_by_the_overflow_fix() {
    assert_eq!(snap_to_sectors(512, 1024), (0, 2048));
    assert_eq!(snap_to_sectors(1_000_000, 5_000), (999_424, 6144));
}

#[test]
fn aacs_region_start_anchors_down_to_a_unit_boundary() {
    let unit = UNIT_BYTES; // 6144

    for (pos, want) in [
        (0u64, 0u64),
        (2048, 0),
        (4096, 0),
        (6144, 6144),
        (8192, 6144),
        (65_536, 61_440),
        (67_584, 67_584),
    ] {
        assert_eq!(
            aacs_aligned_region_start(pos, true),
            want,
            "region {pos} must anchor to {want}"
        );
    }

    for pos in (0u64..40_000).step_by(512) {
        let got = aacs_aligned_region_start(pos, true);
        assert_eq!(got % unit, 0, "{pos} -> {got} is not unit-aligned");
        assert!(got <= pos, "{pos} -> {got} moved the cursor UP");
        assert!(pos - got < unit, "{pos} -> {got} skipped a whole unit back");
    }

    for pos in [0u64, 2048, 8192, 67_583] {
        assert_eq!(aacs_aligned_region_start(pos, false), pos);
    }
}

#[test]
fn the_sweep_batch_defaults_by_mode_and_format() {
    assert_eq!(sweep_batch_sectors(None, true, DiscFormat::Uhd), 32);
    assert_eq!(sweep_batch_sectors(None, true, DiscFormat::BluRay), 32);
    assert_eq!(sweep_batch_sectors(None, true, DiscFormat::Dvd), 16);
    assert_eq!(sweep_batch_sectors(None, true, DiscFormat::HdDvd), 16);

    assert_eq!(sweep_batch_sectors(None, false, DiscFormat::Uhd), 60);
    assert_eq!(sweep_batch_sectors(None, false, DiscFormat::Dvd), 60);

    assert_eq!(sweep_batch_sectors(Some(7), true, DiscFormat::Uhd), 7);
    assert_eq!(sweep_batch_sectors(Some(7), false, DiscFormat::Uhd), 7);

    assert_eq!(sweep_batch_sectors(Some(0), true, DiscFormat::Uhd), 1);
    assert_eq!(sweep_batch_sectors(Some(0), false, DiscFormat::Dvd), 1);
}

#[test]
fn aligned_ranges_pass_through() {
    assert_eq!(snap_to_sectors(0, 2048), (0, 2048));
    assert_eq!(snap_to_sectors(4096, 8192), (4096, 8192));
}

#[test]
fn unaligned_ranges_widen_outward_and_cover_the_original() {
    for &(pos, len) in &[
        (512u64, 1024u64),
        (2048 + 512, 512),
        (100 * 2048 + 1, 3000),
        (1, 1),
    ] {
        let (p, l) = snap_to_sectors(pos, len);
        assert_eq!(p % 2048, 0, "start {p} not sector-aligned");
        assert_eq!(l % 2048, 0, "len {l} not a sector multiple");
        assert!(p <= pos, "widening must not lose the head");
        assert!(p + l >= pos + len, "widening must not lose the tail");
        assert!(l >= 2048, "a non-empty span must be at least one sector");
    }
}

#[test]
fn sub_sector_spans_never_truncate_to_zero_sectors() {
    let (_, l) = snap_to_sectors(1000, 48);
    assert!(l / 2048 >= 1, "span {l} truncates to a zero-sector read");
}

#[test]
fn ecc_blocks_by_format() {
    assert_eq!(ecc_sectors(DiscFormat::Uhd), 32);
    assert_eq!(ecc_sectors(DiscFormat::Fmts), 32);
    assert_eq!(ecc_sectors(DiscFormat::BluRay), 32);
    assert_eq!(ecc_sectors(DiscFormat::Unknown), 32);
    assert_eq!(ecc_sectors(DiscFormat::Dvd), 16);
    assert_eq!(ecc_sectors(DiscFormat::HdDvd), 16);
}

#[test]
fn snapping_stops_at_the_last_whole_sector() {
    assert_eq!(
        snap_to_sectors(u64::MAX - 5000, 5000),
        (0xffff_ffff_ffff_e800, 0x1000)
    );
}

#[test]
fn widening_takes_what_room_there_is() {
    assert_eq!(aacs_aligned_read_bytes(0, 2048, 4096, true), 4096);
}
