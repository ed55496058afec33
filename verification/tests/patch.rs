use freemkv_engine::disc::{Disc, DiscFormat};
use freemkv_engine::handlers::{
    build_flat_pool, build_tier_handlers, Direction, Handler, ReadParams, SpeedPref, TimeoutPref,
    PATCH_TIERS,
};
use freemkv_engine::mapfile::{MapStats, Mapfile, MapfileInvalid};
use freemkv_engine::patch::{
    build_outcome, check_patch_start, due, flat_handler_budget_secs, handler_budget_secs,
    handlers_for, initial_batch_of, loss_ranges, pass_kind, patch_figures, patch_flat_mode,
    published_ranges, record_item, recovered_bytes, recovery_window, work_order, HandlerOutcome,
    MapLoad, PatchItem, PatchLoopState, PatchOptions, PatchPlan, PatchRefusal, PatchRun,
    ReadWindow, RegionOutcome,
};
use freemkv_engine::progress::{snapshot_figures, PassKind};
use freemkv_engine::status::SectorStatus;

const SECTOR: u64 = 2048;

fn disc(capacity_bytes: u64) -> Disc {
    Disc {
        format: DiscFormat::BluRay,
        capacity_bytes,
        encrypted: false,
        aacs: None,
        css: false,
        aacs_error: None,
    }
}

#[test]
fn patch_refuses_an_image_shorter_than_the_mapfile_describes() {
    let disc = disc(64 * SECTOR);
    let full = disc.capacity_bytes;
    let mut mf = Mapfile::create(full, "vTEST");
    mf.record(0, full, SectorStatus::Finished).unwrap();
    mf.record(2048, 2048, SectorStatus::NonTrimmed).unwrap();
    match check_patch_start(&mf, &disc, full / 2, true) {
        Err(PatchRefusal::ImageTruncated { have, want }) => {
            assert_eq!(have, full / 2, "reports the length actually found");
            assert_eq!(want, full, "reports the length the mapfile describes");
        }
        other => panic!("expected ImageTruncated, got {other:?}"),
    }
}

#[test]
fn patch_accepts_an_image_of_the_length_the_mapfile_describes() {
    let disc = disc(64 * SECTOR);
    let full = disc.capacity_bytes;
    let mut mf = Mapfile::create(full, "vTEST");
    mf.record(0, full, SectorStatus::Finished).unwrap();
    assert_eq!(check_patch_start(&mf, &disc, full, true), Ok(()));
}

#[test]
fn patch_does_not_apply_the_truncation_gate_to_a_non_regular_destination() {
    let disc = disc(64 * SECTOR);
    let full = disc.capacity_bytes;
    let mut mf = Mapfile::create(full, "vTEST");
    mf.record(0, full, SectorStatus::Finished).unwrap();
    assert_eq!(check_patch_start(&mf, &disc, 0, false), Ok(()));
}

#[test]
fn a_pass_over_a_mapfile_of_another_disc_is_refused() {
    let disc = disc(4096);
    let mut mf = Mapfile::create(4096, "t");
    mf.set_vid([9; 16]);
    assert_eq!(
        check_patch_start(&mf, &disc, 0, true),
        Err(PatchRefusal::Mapfile(MapfileInvalid::DiscMismatch))
    );
}

#[test]
fn flat_pool_is_all_tiers_with_unique_names() {
    let flat = build_flat_pool();
    let tiered: usize = (0..PATCH_TIERS).map(|t| build_tier_handlers(t).len()).sum();
    assert_eq!(
        flat.len(),
        tiered,
        "flat pool must equal the sum of all tier rosters"
    );
    let mut names: Vec<String> = flat.iter().map(|h| h.name()).collect();
    let total = names.len();
    names.sort();
    names.dedup();
    assert_eq!(
        names.len(),
        total,
        "every flat-pool handler must have a unique scoreboard name"
    );
}

#[test]
fn the_tiers_are_scouts_then_deep_reads_then_specialists() {
    let fast = ReadParams { speed: SpeedPref::Max, fua: false, timeout: TimeoutPref::Fast };
    let deep = ReadParams { speed: SpeedPref::Max, fua: false, timeout: TimeoutPref::Deep };
    assert_eq!(
        build_tier_handlers(0),
        vec![
            Handler::Bisect { params: fast },
            Handler::Jump { params: fast },
            Handler::Linear { direction: Direction::Reverse, params: fast },
            Handler::Linear { direction: Direction::Forward, params: fast },
        ]
    );
    assert_eq!(
        build_tier_handlers(1),
        vec![
            Handler::Linear { direction: Direction::Reverse, params: deep },
            Handler::Linear { direction: Direction::Forward, params: deep },
        ]
    );
    assert_eq!(build_tier_handlers(2).len(), 10);
    assert_eq!(build_tier_handlers(7), build_tier_handlers(2));
    assert_eq!(handlers_for(1, true), build_flat_pool());
    assert_eq!(handlers_for(1, false), build_tier_handlers(1));
    assert_eq!(build_tier_handlers(0)[2].name(), "linear-rev-mfc");
}

#[test]
fn flat_mode_toggle_reads_the_env_var() {
    assert!(!patch_flat_mode(None), "unset must keep the proven tier ladder");
    assert!(!patch_flat_mode(Some("")), "empty is not an opt-in");
    assert!(!patch_flat_mode(Some("0")), "0 is the explicit off switch");
    assert!(patch_flat_mode(Some("1")), "1 selects the flat bandit");
    assert!(
        patch_flat_mode(Some("true")),
        "any non-empty, non-zero value opts in — not just \"1\""
    );
    assert!(patch_flat_mode(Some("00")));
}

#[test]
fn flat_handler_budget_defaults_parses_and_floors() {
    assert_eq!(flat_handler_budget_secs(None), 12, "shipped default is 12 s");
    assert_eq!(flat_handler_budget_secs(Some("30")), 30, "an override is honoured");
    assert_eq!(
        flat_handler_budget_secs(Some("  7 ")),
        7,
        "surrounding space is trimmed"
    );
    assert_eq!(flat_handler_budget_secs(Some("0")), 1, "floored at 1 s");
    for junk in ["", "abc", "-5", "12s"] {
        assert_eq!(
            flat_handler_budget_secs(Some(junk)),
            12,
            "unparseable {junk:?} must fall back to the default"
        );
    }
    assert_eq!(handler_budget_secs(false, Some("30")), 60);
    assert_eq!(handler_budget_secs(true, Some("30")), 30);
}

fn walk(flat: bool, ranges: &[(u64, u64)]) -> Vec<(usize, u64, bool)> {
    let mut run = PatchRun::new(ranges, flat, PatchLoopState::new(0, 1, 0));
    let mut out = Vec::new();
    while let Some(u) = run.next_unit() {
        out.push((u.tier, u.range_pos / SECTOR, u.final_tier));
        assert_eq!(
            run.end_section(HandlerOutcome::Remaining, false),
            RegionOutcome::Completed
        );
    }
    out
}

#[test]
fn the_flat_scheduler_finishes_a_range_before_starting_the_next() {
    let a = (100 * SECTOR, 16 * SECTOR);
    let b = (1000 * SECTOR, 4 * SECTOR);
    assert_eq!(walk(true, &[b, a]), vec![(0, 100, true), (0, 1000, true)]);
    assert_eq!(
        walk(false, &[b, a]),
        vec![
            (0, 100, false),
            (0, 1000, false),
            (1, 100, false),
            (1, 1000, false),
            (2, 100, true),
            (2, 1000, true),
        ]
    );
}

#[test]
fn a_recovered_section_is_not_visited_again() {
    let ranges = [(0, 4 * SECTOR), (100 * SECTOR, 2 * SECTOR)];
    let mut run = PatchRun::new(&ranges, false, PatchLoopState::new(0, 1, 0));
    let u = run.next_unit().unwrap();
    assert_eq!(u.range_pos, 0);
    run.recovered(SECTOR, SECTOR);
    assert_eq!(run.section().ranges(), &[(0, SECTOR), (2 * SECTOR, 2 * SECTOR)]);
    run.recovered(0, 4 * SECTOR);
    assert!(run.section().is_empty());
    run.end_section(HandlerOutcome::Complete, false);
    let mut rest = Vec::new();
    while let Some(u) = run.next_unit() {
        rest.push((u.tier, u.range_pos / SECTOR));
    }
    assert_eq!(rest, vec![(0, 100), (1, 100), (2, 100)]);
}

#[test]
fn a_patch_pass_leaves_all_damage_good_or_queued() {
    for flat in [false, true] {
        let total = 200 * SECTOR;
        let mut map = Mapfile::create(total, "t");
        map.record(0, total, SectorStatus::Finished).unwrap();
        map.record(10 * SECTOR, 8 * SECTOR, SectorStatus::NonTrimmed).unwrap();
        map.record(40 * SECTOR, 4 * SECTOR, SectorStatus::Unreadable).unwrap();
        map.record(60 * SECTOR + 100, 100, SectorStatus::NonScraped).unwrap();
        map.record(100 * SECTOR, 50 * SECTOR, SectorStatus::NonTried).unwrap();
        let plan = PatchPlan::from_map(&map);
        assert_eq!(plan.bad_ranges.len(), 3);
        let mut run = PatchRun::new(&plan.bad_ranges, flat, PatchLoopState::new(0, 1, 0));
        while let Some(u) = run.next_unit() {
            let bad = run.section().ranges().to_vec();
            // The first sector of what is still bad of the largest range comes
            // back at every tier; of the others nothing does.
            if u.range_pos == 10 * SECTOR {
                let item = PatchItem::Recovered { pos: bad[0].0, len: SECTOR };
                run.recovered(bad[0].0, SECTOR);
                record_item(&mut map, &item).unwrap();
            }
            for item in run.residue(u.final_tier) {
                record_item(&mut map, &item).unwrap();
            }
            run.end_section(HandlerOutcome::Remaining, false);
        }
        let recovered = if flat { 1 } else { 3 };
        assert_eq!(
            map.ranges_with(&[SectorStatus::NonTrimmed]),
            vec![
                ((10 + recovered) * SECTOR, (8 - recovered) * SECTOR),
                (40 * SECTOR, 4 * SECTOR),
                (60 * SECTOR, SECTOR),
            ]
        );
        assert_eq!(
            map.ranges_with(&[SectorStatus::NonTried]),
            vec![(100 * SECTOR, 50 * SECTOR)]
        );
        let st = map.stats();
        assert_eq!((st.bytes_unreadable, st.num_bad_ranges), (0, 0));
        assert_eq!(st.bytes_good, (200 - 50 - 13 + recovered) * SECTOR);
    }
}

#[test]
fn the_end_of_a_section_is_noted() {
    let mut run = PatchRun::new(&[(0, SECTOR)], false, PatchLoopState::new(0, 1, 0));
    assert_eq!(run.end_section(HandlerOutcome::Halted, false), RegionOutcome::Halted);
    assert!(run.state().halted && !run.state().wedged_exit);
    let mut run = PatchRun::new(&[(0, SECTOR)], false, PatchLoopState::new(0, 1, 0));
    assert_eq!(
        run.end_section(HandlerOutcome::TransportFault, false),
        RegionOutcome::TransportFault
    );
    assert!(!run.state().halted && run.state().wedged_exit);
    let mut run = PatchRun::new(&[(0, SECTOR)], false, PatchLoopState::new(0, 1, 0));
    assert_eq!(
        run.end_section(HandlerOutcome::TransportFault, true),
        RegionOutcome::Halted
    );
    assert!(run.state().halted && !run.state().wedged_exit);
}

#[test]
fn the_largest_range_comes_first_and_of_equals_the_lowest() {
    assert_eq!(
        work_order(&[(10, 5), (900, 70), (30, 5), (20, 70), (5, 1)]),
        vec![(20, 70), (900, 70), (10, 5), (30, 5), (5, 1)]
    );
    assert!(work_order(&[]).is_empty());
}

#[test]
fn sections_are_whole_sectors() {
    let mut run = PatchRun::new(&[(512, 1024)], false, PatchLoopState::new(0, 1, 0));
    let u = run.next_unit().unwrap();
    assert_eq!((u.range_pos, u.range_size), (512, 1024));
    assert_eq!(run.section().ranges(), &[(0, 2048)]);
}

#[test]
fn recovery_read_widens_unaligned_aacs_window() {
    let w = recovery_window(true, 4, 1);
    assert_eq!(w.lba, 3, "widened down to the unit-aligned start");
    assert_eq!(w.count, 3, "widened to a whole 3-sector unit");
    let mut read = Vec::new();
    for s in 0..w.count {
        read.extend(vec![(w.lba + s) as u8; 2048]);
    }
    let buf = recovered_bytes(&w, 1, &read);
    assert_eq!(buf.len(), 2048);
    assert_eq!(
        buf[0], 4u8,
        "copied back the requested sector (lba 4), not the unit head (lba 3)"
    );
    assert!(buf.iter().all(|&b| b == 4));
}

#[test]
fn a_read_on_units_or_without_them_is_not_widened() {
    assert_eq!(recovery_window(true, 6, 9), ReadWindow { lba: 6, count: 9, head: 0 });
    assert_eq!(recovery_window(false, 7, 2), ReadWindow { lba: 7, count: 2, head: 0 });
    assert_eq!(recovery_window(true, 8, 2), ReadWindow { lba: 6, count: 6, head: 2 });
    assert_eq!(recovery_window(true, 6, 2), ReadWindow { lba: 6, count: 3, head: 0 });
}

#[test]
fn for_patch_pass_carries_the_shipped_tuning() {
    let o = PatchOptions::for_patch_pass(false);
    assert_eq!(o.block_sectors, Some(32));
    assert!(o.full_recovery, "diagnostics-only, but pinned");
    assert!(o.reverse);
    assert_eq!(o.wedged_threshold, 50);
    assert!(!o.decrypt, "decrypt is the caller's, forwarded verbatim");
    assert!(PatchOptions::for_patch_pass(true).decrypt);
}

#[test]
fn the_preset_reports_a_reverse_trim_pass() {
    let o = PatchOptions::for_patch_pass(false);
    let kind = pass_kind(initial_batch_of(&o), o.reverse);
    assert!(
        matches!(kind, PassKind::Trim { reverse: true }),
        "the shipped preset must render as a reverse TRIM pass, got {kind:?}"
    );
    let mut scrape = PatchOptions::for_patch_pass(false);
    scrape.block_sectors = Some(1);
    scrape.reverse = false;
    assert!(matches!(
        pass_kind(initial_batch_of(&scrape), scrape.reverse),
        PassKind::Scrape { reverse: false }
    ));
    let mut zero = PatchOptions::for_patch_pass(false);
    zero.block_sectors = Some(0);
    assert_eq!(initial_batch_of(&zero), 1, "clamped to a valid batch");
}

#[test]
fn the_wedged_threshold_is_reported_not_enforced() {
    let o = PatchOptions::for_patch_pass(false);
    let state = PatchLoopState::new(0, initial_batch_of(&o), 4096);
    let outcome = build_outcome(&state, &MapStats::default(), 4096, o.wedged_threshold);
    assert_eq!(
        outcome.wedged_threshold, 50,
        "the preset's threshold must reach the caller's outcome verbatim"
    );
    assert!(
        !outcome.wedged_exit,
        "the threshold alone must not mark a pass wedged — `wedged_exit` \
         comes from a handler's TransportFault, nothing counts against 50"
    );
}

#[test]
fn a_plan_is_the_damage_and_how_much_of_it() {
    let mut mf = Mapfile::create(100 * SECTOR, "t");
    mf.record(0, 50 * SECTOR, SectorStatus::Finished).unwrap();
    mf.record(10 * SECTOR, SECTOR, SectorStatus::NonTrimmed).unwrap();
    mf.record(20 * SECTOR, 2 * SECTOR, SectorStatus::NonScraped).unwrap();
    mf.record(30 * SECTOR, 3 * SECTOR, SectorStatus::Unreadable).unwrap();
    let plan = PatchPlan::from_map(&mf);
    assert_eq!(plan.total_bytes, 100 * SECTOR);
    assert_eq!(
        plan.bad_ranges,
        vec![(10 * SECTOR, SECTOR), (20 * SECTOR, 2 * SECTOR), (30 * SECTOR, 3 * SECTOR)]
    );
    assert_eq!(plan.work_total, 6 * SECTOR);
    let state = PatchLoopState::new(plan.stats.bytes_good, 32, plan.work_total);
    let f = patch_figures(&state, &plan.stats, true, plan.total_bytes);
    assert_eq!(f.work_done, 0, "nothing is recovered when a pass begins");
    record_item(&mut mf, &PatchItem::Recovered { pos: 30 * SECTOR, len: SECTOR }).unwrap();
    let f = patch_figures(&state, &mf.stats(), true, plan.total_bytes);
    assert_eq!(f.work_done, SECTOR);
    assert_eq!(f.kind, PassKind::Trim { reverse: true });
    record_item(&mut mf, &PatchItem::NonTrimmed { pos: 31 * SECTOR, len: 2 * SECTOR }).unwrap();
    let f = patch_figures(&state, &mf.stats(), true, plan.total_bytes);
    assert_eq!(f.work_done, SECTOR, "a new name for damage is no progress");
    let out = build_outcome(&state, &mf.stats(), plan.total_bytes, 50);
    assert_eq!(out.bytes_recovered_this_pass, SECTOR);
    assert_eq!(out.bytes_pending, 55 * SECTOR);
    record_item(&mut mf, &PatchItem::Unreadable { pos: 31 * SECTOR, len: 2 * SECTOR }).unwrap();
    assert_eq!(mf.stats().bytes_unreadable, 2 * SECTOR);
    assert_eq!(
        record_item(&mut mf, &PatchItem::Unreadable { pos: u64::MAX, len: 2 }),
        Err(MapfileInvalid::Range)
    );
}

#[test]
fn a_lost_record_counts_as_total_loss() {
    assert!(loss_ranges(&MapLoad::Missing).is_empty());
    assert_eq!(loss_ranges(&MapLoad::Corrupt), vec![(0, u64::MAX)]);
    let mut mf = Mapfile::create(200 * SECTOR, "test");
    mf.record(0, 100 * SECTOR, SectorStatus::Finished).unwrap();
    mf.record(10 * SECTOR, SECTOR, SectorStatus::Unreadable).unwrap();
    assert_eq!(
        loss_ranges(&MapLoad::Loaded(mf)),
        vec![(10 * SECTOR, SECTOR), (100 * SECTOR, 100 * SECTOR)]
    );
}

#[test]
fn a_snapshot_reports_the_damage_the_mapfile_records() {
    let total = 200u64 * 2048;
    let mut map = Mapfile::create(total, "test");
    map.record(0, 150 * 2048, SectorStatus::Finished).unwrap();
    map.record(150 * 2048, 50 * 2048, SectorStatus::Unreadable).unwrap();
    let snap = snapshot_figures(&map, PassKind::Sweep, total);
    assert_eq!(snap.bytes_good_total, 150 * 2048);
    assert_eq!(snap.bytes_unreadable_total, 50 * 2048);
    assert_eq!(snap.bytes_total_disc, total);
    assert_eq!((snap.work_done, snap.work_total), (0, 0));
    assert_eq!(published_ranges(&map), vec![(150 * 2048, 50 * 2048)]);
}

#[test]
fn a_snapshot_holds_no_more_than_its_limit() {
    let mut text = String::from("# Rescue Logfile. Created by t\n");
    for i in 0..9000u64 {
        text.push_str(&format!("{:x} 1 -\n", 2 * i));
    }
    let map = Mapfile::load(&text).unwrap();
    assert_eq!(map.stats().num_bad_ranges, 9000);
    let r = published_ranges(&map);
    assert_eq!(r.len(), 8192);
    assert_eq!(r[8191], (2 * 8191, 1));
}

#[test]
fn what_was_never_done_is_due() {
    assert!(due(None, 250));
    assert!(!due(Some(249), 250));
    assert!(due(Some(250), 250));
}

#[test]
fn only_the_last_tier_gives_a_range_up_for_now() {
    let mut run = PatchRun::new(&[(0, 4 * SECTOR)], false, PatchLoopState::new(0, 1, 0));
    run.next_unit().unwrap();
    run.recovered(SECTOR, SECTOR);
    assert!(run.residue(false).is_empty());
    assert_eq!(
        run.residue(true),
        vec![
            PatchItem::NonTrimmed { pos: 0, len: SECTOR },
            PatchItem::NonTrimmed { pos: 2 * SECTOR, len: 2 * SECTOR },
        ]
    );
}

#[test]
fn a_patch_outcome_is_that_of_a_copy() {
    let mut state = PatchLoopState::new(100, 32, 50);
    state.halted = true;
    let mut stats = MapStats::default();
    stats.bytes_good = 130;
    stats.bytes_pending = 20;
    let r = build_outcome(&state, &stats, 150, 50).copy_result();
    assert_eq!(r.recovered_this_pass, 30);
    assert_eq!((r.bytes_total, r.bytes_good, r.bytes_pending), (150, 130, 20));
    assert!(r.halted && !r.complete);
}

#[test]
fn a_patched_section_is_good_or_queued() {
    let mut mf = Mapfile::create(20 * SECTOR, "t");
    mf.record(0, 20 * SECTOR, SectorStatus::Finished).unwrap();
    mf.record(4 * SECTOR, 8 * SECTOR, SectorStatus::Unreadable).unwrap();
    let plan = PatchPlan::from_map(&mf);
    let mut run = PatchRun::new(&plan.bad_ranges, false, PatchLoopState::new(0, 1, 0));
    while let Some(u) = run.next_unit() {
        let pos = (5 + 2 * u.tier as u64) * SECTOR;
        record_item(&mut mf, &PatchItem::Recovered { pos, len: SECTOR }).unwrap();
        run.recovered(pos, SECTOR);
        for item in run.residue(u.final_tier) {
            record_item(&mut mf, &item).unwrap();
        }
        run.end_section(HandlerOutcome::Remaining, false);
    }
    assert_eq!(
        mf.ranges_with(&[SectorStatus::NonTrimmed]),
        vec![
            (4 * SECTOR, SECTOR),
            (6 * SECTOR, SECTOR),
            (8 * SECTOR, SECTOR),
            (10 * SECTOR, 2 * SECTOR),
        ]
    );
    assert_eq!(mf.stats().bytes_unreadable, 0);
    assert_eq!(mf.stats().bytes_good, 15 * SECTOR);
}
