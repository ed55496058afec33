use freemkv_engine::copy::CopyResult;
use freemkv_engine::disc::DiscFormat;
use freemkv_engine::mapfile::{Mapfile, MapfileInvalid};
use freemkv_engine::read_error::{
    ReadFailure, SenseFamily, SENSE_KEY_HARDWARE_ERROR, SENSE_KEY_MEDIUM_ERROR,
};
use freemkv_engine::status::SectorStatus;
use freemkv_engine::sweep::{
    next_zero_chunk, record_action, ReadRequest, Sweep, SweepAction, MAX_SPEED, MIN_SPEED,
    ZERO_CHUNK,
};

const SECTOR: u64 = 2048;

fn medium() -> ReadFailure {
    ReadFailure {
        transport_failure: false,
        unit_attention: false,
        bridge_degradation: false,
        sense_key: Some(SENSE_KEY_MEDIUM_ERROR),
        family: SenseFamily::Medium,
    }
}

fn wedged() -> ReadFailure {
    ReadFailure {
        transport_failure: false,
        unit_attention: false,
        bridge_degradation: false,
        sense_key: Some(SENSE_KEY_HARDWARE_ERROR),
        family: SenseFamily::Hardware,
    }
}

fn lost() -> ReadFailure {
    ReadFailure {
        transport_failure: true,
        unit_attention: false,
        bridge_degradation: false,
        sense_key: None,
        family: SenseFamily::Other,
    }
}

#[test]
fn a_clean_sweep_reads_everything_in_batches() {
    let total = 100 * SECTOR;
    let mut map = Mapfile::create(total, "t");
    let mut s = Sweep::new(&map, total, None, false, DiscFormat::BluRay, false);
    assert_eq!(s.batch(), 60);
    assert_eq!(
        s.next_read(),
        Some(ReadRequest {
            pos: 0,
            block_bytes: 60 * SECTOR,
            read_bytes: 60 * SECTOR,
            lba: 0,
            count: 60,
        })
    );
    for a in s.read_ok() {
        record_action(&mut map, &a).unwrap();
    }
    assert_eq!(
        s.next_read(),
        Some(ReadRequest {
            pos: 60 * SECTOR,
            block_bytes: 40 * SECTOR,
            read_bytes: 40 * SECTOR,
            lba: 60,
            count: 40,
        })
    );
    for a in s.read_ok() {
        record_action(&mut map, &a).unwrap();
    }
    assert_eq!(s.next_read(), None);
    assert_eq!(s.pos(), total);
    assert_eq!(map.stats().bytes_good, total);
    assert_eq!(
        s.result(map.stats(), false),
        CopyResult::new(total, total, 0, 0, 0, false)
    );
}

#[test]
fn a_decrypting_sweep_reads_whole_units() {
    let total = 100 * SECTOR;
    let map = Mapfile::create(total, "t");
    let mut s = Sweep::new(&map, total, Some(32), false, DiscFormat::BluRay, true);
    assert_eq!(s.batch(), 33);
    let mut ends = Vec::new();
    while let Some(r) = s.next_read() {
        assert_eq!(r.pos % 6144, 0);
        ends.push((r.block_bytes / SECTOR, r.count));
        s.read_ok();
    }
    assert_eq!(ends, vec![(33, 33), (33, 33), (33, 33), (1, 1)]);
}

#[test]
fn a_resumed_region_starts_on_a_unit_and_ends_on_one() {
    let total = 300 * SECTOR;
    let mut map = Mapfile::create(total, "t");
    map.record(0, 100 * SECTOR, SectorStatus::Finished).unwrap();
    map.record(110 * SECTOR, 190 * SECTOR, SectorStatus::Finished).unwrap();
    let mut s = Sweep::new(&map, total, None, true, DiscFormat::BluRay, true);
    let r = s.next_read().unwrap();
    assert_eq!(r.pos, 99 * SECTOR);
    assert_eq!(r.block_bytes, 11 * SECTOR);
    assert_eq!(r.read_bytes, 12 * SECTOR);
    assert_eq!(r.count, 12);
    assert_eq!(
        s.read_ok(),
        vec![SweepAction::Good { pos: 99 * SECTOR, len: 11 * SECTOR }]
    );
    assert_eq!(s.next_read(), None);
}

#[test]
fn a_region_is_read_on_whole_sectors() {
    let map = Mapfile::load("0 200 +\n200 800 ?\na00 600 +\n").unwrap();
    let mut s = Sweep::new(&map, 4096, None, true, DiscFormat::Dvd, false);
    let r = s.next_read().unwrap();
    assert_eq!((r.pos, r.block_bytes, r.lba, r.count), (0, 4096, 0, 2));
}

#[test]
fn a_plain_sweep_ends_at_the_first_failure() {
    let map = Mapfile::create(100 * SECTOR, "t");
    let mut s = Sweep::new(&map, 100 * SECTOR, None, false, DiscFormat::BluRay, false);
    s.next_read();
    assert_eq!(s.read_failed(&medium()), vec![SweepAction::Abort]);
    assert_eq!(s.ctx().total_errors, 0);
}

#[test]
fn a_damage_jump_fills_what_it_skips() {
    let total = 100_000 * SECTOR;
    let mut map = Mapfile::create(total, "t");
    let mut s = Sweep::new(&map, total, None, true, DiscFormat::BluRay, false);
    s.next_read();
    let actions = s.read_failed(&medium());
    assert_eq!(
        actions,
        vec![
            SweepAction::SkipFill { pos: 0, len: 32 * SECTOR },
            SweepAction::SetSpeed { speed: MIN_SPEED },
            SweepAction::GapFill { pos: 32 * SECTOR, len: 32_768 * SECTOR },
            SweepAction::Pause { secs: 32 },
        ]
    );
    for a in &actions {
        record_action(&mut map, a).unwrap();
    }
    assert_eq!(
        map.ranges_with(&[SectorStatus::NonTrimmed]),
        vec![(0, 32_800 * SECTOR)]
    );
    assert_eq!(s.pos(), 32_800 * SECTOR);
    let p = s.progress(None);
    assert_eq!(p.bytes_good, 0);
    assert_eq!(p.bytes_retryable, 32_800 * SECTOR);
    assert_eq!(
        p.bytes_good + p.bytes_unreadable + p.bytes_retryable + p.bytes_pending,
        total
    );
    // The drive is slowed down once, not on every failure.
    s.next_read();
    let actions = s.read_failed(&medium());
    assert!(!actions.contains(&SweepAction::SetSpeed { speed: MIN_SPEED }));
    // Sixteen good reads bring it back to speed.
    let mut seen = 0;
    for i in 0..16 {
        s.next_read().unwrap();
        let a = s.read_ok();
        if a.contains(&SweepAction::SetSpeed { speed: MAX_SPEED }) {
            seen = i + 1;
        }
    }
    assert_eq!(seen, 16);
    assert_eq!(s.ctx().jump_multiplier, 1);
}

#[test]
fn a_jump_stops_at_the_end_of_the_region() {
    let total = 40 * SECTOR;
    let map = Mapfile::create(total, "t");
    let mut s = Sweep::new(&map, total, None, true, DiscFormat::BluRay, false);
    s.next_read();
    assert!(s
        .read_failed(&medium())
        .contains(&SweepAction::GapFill { pos: 32 * SECTOR, len: 8 * SECTOR }));
    assert_eq!(s.next_read(), None);
    let map = Mapfile::create(32 * SECTOR, "t");
    let mut s = Sweep::new(&map, 32 * SECTOR, None, true, DiscFormat::BluRay, false);
    s.next_read();
    assert_eq!(
        s.read_failed(&medium()),
        vec![
            SweepAction::SkipFill { pos: 0, len: 32 * SECTOR },
            SweepAction::SetSpeed { speed: MIN_SPEED },
            SweepAction::Pause { secs: 32 },
        ]
    );
}

#[test]
fn a_wedge_jump_lands_on_a_unit_where_units_matter() {
    let total = 8 << 30;
    let map = Mapfile::create(total, "t");
    let mut s = Sweep::new(&map, total, None, true, DiscFormat::BluRay, true);
    s.next_read();
    assert!(s
        .read_failed(&wedged())
        .contains(&SweepAction::GapFill { pos: 33 * SECTOR, len: 524_286 * SECTOR }));
    assert_eq!(s.pos(), 524_319 * SECTOR);
    assert_eq!(s.next_read().unwrap().pos % (3 * SECTOR), 0);
    // A sweep that does not decrypt jumps all the way.
    let mut s = Sweep::new(&map, total, None, true, DiscFormat::BluRay, false);
    s.next_read();
    s.read_failed(&wedged());
    assert_eq!(s.pos(), (32 + 524_288) * SECTOR);
    // The end of the range is as far as a jump goes, on a unit or not.
    let total = 100 * SECTOR;
    let map = Mapfile::create(total, "t");
    let mut s = Sweep::new(&map, total, None, true, DiscFormat::BluRay, true);
    s.next_read();
    s.read_failed(&wedged());
    assert_eq!(s.pos(), total);
    assert_eq!(s.next_read(), None);
}

#[test]
fn every_read_of_a_decrypting_sweep_starts_on_a_unit() {
    let total = 40 << 30;
    let map = Mapfile::create(total, "t");
    let mut s = Sweep::new(&map, total, None, true, DiscFormat::BluRay, true);
    let mut n = 0u64;
    while let Some(req) = s.next_read() {
        assert_eq!(req.pos % (3 * SECTOR), 0, "read {n}");
        match n % 4 {
            0 => s.read_failed(&wedged()),
            1 => s.read_failed(&medium()),
            _ => s.read_ok(),
        };
        n += 1;
    }
    assert!(n > 40);
}

#[test]
fn the_figures_of_a_sweep_always_add_up_to_the_disc() {
    let total = 3_000 * SECTOR;
    let mut map = Mapfile::create(total, "t");
    map.record(600 * SECTOR, 300 * SECTOR, SectorStatus::Finished).unwrap();
    for aacs in [false, true] {
        let mut s = Sweep::new(&map, total, Some(6), true, DiscFormat::BluRay, aacs);
        let mut n = 0u64;
        while s.next_read().is_some() {
            if n % 9 == 4 {
                s.read_failed(&medium());
            } else {
                s.read_ok();
            }
            let p = s.progress(None);
            assert_eq!(
                p.bytes_good + p.bytes_unreadable + p.bytes_retryable + p.bytes_pending,
                total
            );
            n += 1;
        }
        let p = s.progress(None);
        assert_eq!(p.bytes_good + p.bytes_retryable, 2_700 * SECTOR);
    }
}

#[test]
fn a_lost_transport_ends_the_pass() {
    let map = Mapfile::create(100 * SECTOR, "t");
    let mut s = Sweep::new(&map, 100 * SECTOR, None, true, DiscFormat::BluRay, false);
    s.next_read();
    assert_eq!(s.read_failed(&lost()), vec![SweepAction::Abort]);
    assert_eq!(s.pos(), 0);
}

#[test]
fn a_sweep_over_damage_leaves_nothing_untried() {
    let total = 5_000 * SECTOR;
    let mut map = Mapfile::create(total, "t");
    let mut s = Sweep::new(&map, total, Some(4), true, DiscFormat::BluRay, false);
    let mut n = 0u64;
    while s.next_read().is_some() {
        let actions = if n % 7 == 3 { s.read_failed(&medium()) } else { s.read_ok() };
        for a in &actions {
            record_action(&mut map, a).unwrap();
        }
        n += 1;
    }
    let st = map.stats();
    assert_eq!(st.bytes_nontried, 0);
    assert_eq!(st.bytes_good + st.bytes_retryable, total);
    assert_eq!(s.progress(None).bytes_good, st.bytes_good);
}

#[test]
fn each_byte_of_a_sweep_is_as_its_read_came_out() {
    let total = 400 * SECTOR;
    let mut map = Mapfile::create(total, "t");
    map.record(16 * SECTOR, 8 * SECTOR, SectorStatus::Unreadable).unwrap();
    map.record(100 * SECTOR, 4 * SECTOR, SectorStatus::Finished).unwrap();
    let mut s = Sweep::new(&map, total, Some(4), true, DiscFormat::BluRay, false);
    let mut expected: Vec<SectorStatus> = vec![SectorStatus::NonTried; 400];
    expected[16..24].fill(SectorStatus::Unreadable);
    expected[100..104].fill(SectorStatus::Finished);
    let mut read = 0;
    let mut n = 0u64;
    while let Some(req) = s.next_read() {
        let good = n % 5 != 2;
        let actions = if good { s.read_ok() } else { s.read_failed(&medium()) };
        let outcome = if good { SectorStatus::Finished } else { SectorStatus::NonTrimmed };
        expected[(req.pos / SECTOR) as usize..(s.pos() / SECTOR) as usize].fill(outcome);
        if good {
            read += req.block_bytes;
        }
        for a in &actions {
            record_action(&mut map, a).unwrap();
        }
        n += 1;
    }
    for (i, want) in expected.iter().enumerate() {
        let at = i as u64 * SECTOR;
        let e = map.entries().iter().find(|e| e.pos <= at && at < e.pos + e.size).unwrap();
        assert_eq!(e.status, *want, "sector {i}");
    }
    assert_eq!(map.stats().bytes_good, read + 4 * SECTOR);
    assert_eq!(s.progress(None).bytes_good, read);
}

#[test]
fn reported_good_bytes_never_fall_behind_what_was_read() {
    let total = 100 * SECTOR;
    let map = Mapfile::create(total, "t");
    let mut s = Sweep::new(&map, total, None, false, DiscFormat::BluRay, false);
    s.next_read();
    s.read_ok();
    let p = s.progress(Some(map.stats()));
    assert_eq!(p.bytes_good, 60 * SECTOR);
    assert_eq!(p.bytes_pending, total);
    assert_eq!((p.work_done, p.work_total), (60 * SECTOR, total));
}

#[test]
fn a_heartbeat_comes_every_hundred_reads_or_when_time_is_up() {
    let total = 1_000 * SECTOR;
    let map = Mapfile::create(total, "t");
    let mut s = Sweep::new(&map, total, Some(1), false, DiscFormat::BluRay, false);
    let mut beats = Vec::new();
    for i in 1..=250 {
        s.next_read();
        s.read_ok();
        if s.heartbeat(false) {
            beats.push(i);
        }
    }
    assert_eq!(beats, vec![100, 200]);
    assert!(s.heartbeat(true));
}

#[test]
fn zeros_are_written_exactly_over_the_gap() {
    let len = ZERO_CHUNK * 2 + 3 * 2048;
    let mut filled = 0;
    let mut chunks = Vec::new();
    while filled < len {
        let c = next_zero_chunk(filled, len);
        chunks.push(c);
        filled += c;
    }
    assert_eq!(chunks, vec![65_536, 65_536, 6_144]);
    assert_eq!(filled, len);
    assert_eq!(next_zero_chunk(0, 3072), 3072);
}

#[test]
fn an_action_that_records_beyond_the_address_space_is_refused() {
    let mut map = Mapfile::create(100 * SECTOR, "t");
    assert_eq!(
        record_action(&mut map, &SweepAction::Good { pos: u64::MAX, len: 2 }),
        Err(MapfileInvalid::Range)
    );
    assert_eq!(record_action(&mut map, &SweepAction::Abort), Ok(()));
    assert_eq!(record_action(&mut map, &SweepAction::Pause { secs: 1 }), Ok(()));
    assert!(!map.is_dirty());
}
