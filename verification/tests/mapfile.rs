use freemkv_engine::entries::MapEntry;
use freemkv_engine::mapfile::{Mapfile, MapfileInvalid};
use freemkv_engine::mapfile_text::{load_if_present, parse_hex, parse_uk_line, parse_vid_hex};
use freemkv_engine::status::{bad_sector_statuses, damage_sector_statuses, SectorStatus};

fn chars(s: &str) -> Vec<char> {
    s.chars().collect()
}

fn fragmenting_multipass(mf: &mut Mapfile) -> Vec<usize> {
    const SEC: u64 = 2048;
    let mut counts = Vec::new();
    mf.record(0, 1000 * SEC, SectorStatus::Finished).unwrap();
    for base in [100u64, 400, 700] {
        mf.record(base * SEC, 64 * SEC, SectorStatus::NonTrimmed)
            .unwrap();
    }
    counts.push(mf.entries().len());
    for base in [100u64, 400, 700] {
        for i in 0..64u64 {
            if i % 2 == 0 {
                mf.record((base + i) * SEC, SEC, SectorStatus::Finished)
                    .unwrap();
            }
        }
    }
    counts.push(mf.entries().len());
    for base in [100u64, 400, 700] {
        for i in 0..64u64 {
            if i % 2 == 1 {
                mf.record((base + i) * SEC, SEC, SectorStatus::Finished)
                    .unwrap();
            }
        }
    }
    counts.push(mf.entries().len());
    counts
}

fn assert_canonical(mf: &Mapfile) {
    let es = mf.entries();
    assert!(!es.is_empty());
    assert_eq!(es[0].pos, 0, "partition must start at 0");
    let mut expect_pos = 0u64;
    for (i, e) in es.iter().enumerate() {
        assert_eq!(e.pos, expect_pos, "gap or overlap before entry {i}");
        assert!(e.size > 0, "zero-size entry {i}");
        if i > 0 {
            assert_ne!(
                es[i - 1].status,
                e.status,
                "entries {} and {i} share a status and were not coalesced",
                i - 1
            );
        }
        expect_pos += e.size;
    }
    assert_eq!(
        expect_pos,
        mf.total_size(),
        "partition must cover the whole image"
    );
}

#[test]
fn fragmentation_peaks_then_collapses_as_damage_is_recovered() {
    let mut mf = Mapfile::create(1000 * 2048, "test");
    let counts = fragmenting_multipass(&mut mf);
    assert_canonical(&mf);
    assert_eq!(counts, vec![7, 193, 1]);
    assert!(
        counts[2] < counts[1],
        "fragmentation must be reversible, not a ratchet: {counts:?}"
    );
}

#[test]
fn repeat_records_inside_a_run_do_not_fragment() {
    let mut mf = Mapfile::create(1000 * 2048, "test");
    mf.record(0, 1000 * 2048, SectorStatus::Finished).unwrap();
    mf.record(100 * 2048, 8 * 2048, SectorStatus::Unreadable)
        .unwrap();
    let before: Vec<MapEntry> = mf.entries().to_vec();
    assert_eq!(before.len(), 3);
    for _ in 0..500 {
        mf.record(100 * 2048, 8 * 2048, SectorStatus::Unreadable)
            .unwrap();
        mf.record(0, 100 * 2048, SectorStatus::Finished).unwrap();
    }
    assert_eq!(mf.entries(), before.as_slice());
    assert_canonical(&mf);
}

#[test]
fn real_shaped_mapfile_round_trips() {
    const ARCHIVED: &str = "\
# Rescue Logfile. Created by libfreemkv v0.14.0
# Current pos / status / pass / pass_time
0x000000000  ?  1  0
#      pos        size  status
0x000000000  0x34b630000    +
0x34b630000  0x000010000    *
0x34b640000  0x2b0d50000    +
0x5fc390000  0x007010000    *
0x6033a0000  0x000070000    +
0x603410000  0x008000000    *
0x60b410000  0x371030000    +
0x97c440000  0x000010000    *
0x97c450000  0x0001f0000    +
0x97c640000  0x000010000    *
0x97c650000  0x0000c0000    +
0x97c710000  0x001000000    *
0x97d710000  0x000090000    +
0x97d7a0000  0x002000000    *
0x97f7a0000  0x005480000    +
0x984c20000  0x003010000    *
0x987c30000  0x000080000    +
0x987cb0000  0x004000000    *
0x98bcb0000  0xa24550000    +
";
    let p_text: String = String::from(ARCHIVED);
    let mut mf = Mapfile::load(&p_text).unwrap();
    assert_eq!(mf.entries().len(), 19);
    assert_eq!(mf.total_size(), 0x1_3B0_200_000);
    assert_eq!(mf.entries()[1].pos, 0x34b630000);
    assert_eq!(mf.entries()[1].size, 0x10000);
    assert_eq!(mf.entries()[1].status, SectorStatus::NonTrimmed);
    mf.record(0, 0x34b630000, SectorStatus::Finished).unwrap();
    let p_text: String = mf.render();
    let rewritten = p_text.clone();
    assert_eq!(rewritten, ARCHIVED);
    let reloaded = Mapfile::load(&p_text).unwrap();
    assert_eq!(reloaded.entries(), mf.entries());
}

#[test]
fn create_has_one_nontried_region() {
    let mf = Mapfile::create(1000, "test");
    assert_eq!(mf.entries().len(), 1);
    assert_eq!(mf.entries()[0].pos, 0);
    assert_eq!(mf.entries()[0].size, 1000);
    assert_eq!(mf.entries()[0].status, SectorStatus::NonTried);
}

#[test]
fn record_splits_overlap() {
    let mut mf = Mapfile::create(1000, "test");
    mf.record(200, 100, SectorStatus::Finished).unwrap();
    let es = mf.entries();
    assert_eq!(es.len(), 3);
    assert_eq!(
        (es[0].pos, es[0].size, es[0].status),
        (0, 200, SectorStatus::NonTried)
    );
    assert_eq!(
        (es[1].pos, es[1].size, es[1].status),
        (200, 100, SectorStatus::Finished)
    );
    assert_eq!(
        (es[2].pos, es[2].size, es[2].status),
        (300, 700, SectorStatus::NonTried)
    );
}

#[test]
fn record_coalesces_adjacent_same_status() {
    let mut mf = Mapfile::create(1000, "test");
    mf.record(100, 100, SectorStatus::Finished).unwrap();
    mf.record(200, 100, SectorStatus::Finished).unwrap();
    let es = mf.entries();
    assert_eq!(es.len(), 3);
    assert_eq!(
        (es[1].pos, es[1].size, es[1].status),
        (100, 200, SectorStatus::Finished)
    );
}

#[test]
fn record_replaces_existing_status() {
    let mut mf = Mapfile::create(1000, "test");
    mf.record(200, 100, SectorStatus::Unreadable).unwrap();
    mf.record(200, 100, SectorStatus::Finished).unwrap();
    let es = mf.entries();
    assert_eq!(es.len(), 3);
    assert_eq!(es[1].status, SectorStatus::Finished);
}

#[test]
fn round_trip_load() {
    let mut mf = Mapfile::create(1000, "test");
    mf.record(100, 200, SectorStatus::Finished).unwrap();
    mf.record(500, 100, SectorStatus::Unreadable).unwrap();
    let p_text: String = mf.render();
    let loaded = Mapfile::load(&p_text).unwrap();
    assert_eq!(loaded.entries(), mf.entries());
    assert_eq!(
        loaded.total_size(),
        1000,
        "the extent must survive a reload"
    );
    assert_eq!(loaded.total_size(), mf.total_size());
    assert_eq!(loaded.stats(), mf.stats(), "in-memory and reloaded stats");
    let st = loaded.stats();
    assert_eq!(st.bytes_total, 1000);
    assert_eq!(st.bytes_good, 200, "record(100, 200, Finished)");
    assert_eq!(st.bytes_unreadable, 100, "record(500, 100, Unreadable)");
    assert_eq!(st.bytes_pending, 700, "1000 - 200 - 100 still outstanding");
}

#[test]
fn stats_sum_correctly() {
    let mut mf = Mapfile::create(1000, "test");
    mf.record(0, 400, SectorStatus::Finished).unwrap();
    mf.record(400, 100, SectorStatus::Unreadable).unwrap();
    let s = mf.stats();
    assert_eq!(s.bytes_good, 400);
    assert_eq!(s.bytes_unreadable, 100);
    assert_eq!(s.bytes_pending, 500);
    assert_eq!(s.bytes_total, 1000);
}

#[test]
fn ranges_with_filters() {
    let mut mf = Mapfile::create(1000, "test");
    mf.record(100, 50, SectorStatus::Unreadable).unwrap();
    mf.record(300, 50, SectorStatus::Unreadable).unwrap();
    let bad = mf.ranges_with(&[SectorStatus::Unreadable]);
    assert_eq!(bad, vec![(100, 50), (300, 50)]);
}

#[test]
fn stats_consistent_after_overlapping_records() {
    let mut mf = Mapfile::create(1000, "test");
    mf.record(0, 300, SectorStatus::Finished).unwrap();
    mf.record(300, 200, SectorStatus::NonTrimmed).unwrap();
    mf.record(500, 100, SectorStatus::Unreadable).unwrap();
    mf.record(600, 400, SectorStatus::Finished).unwrap();

    let s = mf.stats();
    assert_eq!(s.bytes_good, 700); // 300 + 400
    assert_eq!(s.bytes_unreadable, 100); // 100
    assert_eq!(s.bytes_pending, 200); // NonTrimmed only (NonTried=0)
    assert_eq!(s.bytes_nontried, 0);
    assert_eq!(s.bytes_retryable, 200); // NonTrimmed
    assert_eq!(s.bytes_total, 1000);

    mf.record(300, 100, SectorStatus::Finished).unwrap();
    let s2 = mf.stats();
    assert_eq!(s2.bytes_good, 800); // 400 + 400
    assert_eq!(s2.bytes_unreadable, 100);
    assert_eq!(s2.bytes_pending, 100); // NonTrimmed only
    assert_eq!(s2.bytes_retryable, 100);
}

#[test]
fn unit_keys_round_trip_and_are_mutually_exclusive_with_vid() {
    let mut mf = Mapfile::create(1000, "test");
    mf.record(0, 500, SectorStatus::Finished).unwrap();
    mf.set_vid([0xAA; 16]);
    let keys: Vec<(u32, [u8; 16])> = vec![
        (
            0,
            [
                0x57, 0x60, 0xcc, 0x83, 0x3d, 0x86, 0x0e, 0x48, 0x92, 0x1f, 0x88, 0x16, 0xe1,
                0x35, 0x9b, 0xad,
            ],
        ),
        (1, [0x11; 16]),
    ];
    mf.set_unit_keys(&keys);
    assert_eq!(
        mf.vid(),
        None,
        "set_unit_keys must clear vid (keys XOR vid)"
    );
    let p_text: String = mf.render();

    let text = p_text.clone();
    assert!(
        text.contains("# freemkv-uk: 0:5760cc833d860e48921f8816e1359bad"),
        "uk comment format mismatch: {text}"
    );
    assert!(
        text.contains("# freemkv-uk: 1:11111111111111111111111111111111"),
        "second uk missing: {text}"
    );
    assert!(
        !text.contains("# freemkv-vid:"),
        "VID must NOT be written when keys are present: {text}"
    );

    let loaded = Mapfile::load(&p_text).unwrap();
    assert_eq!(loaded.unit_keys(), keys.as_slice());
    assert_eq!(loaded.vid(), None);
    assert_eq!(loaded.entries(), mf.entries());
    let mut mf2 = Mapfile::create(1000, "test");
    mf2.set_vid([0xBB; 16]);
    let p2_text: String = mf2.render();
    let loaded2 = Mapfile::load(&p2_text).unwrap();
    assert_eq!(loaded2.vid(), Some([0xBB; 16]));
    assert!(loaded2.unit_keys().is_empty());
}

#[test]
fn load_rejects_entry_whose_range_overflows_u64() {
    let body = format!("0x{:x} 0x10 +\n", u64::MAX - 4);
    let p_text: String = String::from(body);
    let kind = match Mapfile::load(&p_text) {
        Ok(_) => panic!("overflowing entry must be rejected"),
        Err(e) => e,
    };
    assert_eq!(kind, MapfileInvalid::Range);
}

#[test]
fn record_rejects_range_overflowing_u64() {
    let mut mf = Mapfile::create(1000, "test");
    let err = mf
        .record(u64::MAX - 4, 16, SectorStatus::Finished)
        .expect_err("overflowing record must be rejected");
    assert_eq!(err, MapfileInvalid::Range);
}

#[test]
fn load_enforces_keys_xor_vid_on_malformed_file() {
    let body = "# freemkv-vid:aaaaaaaaaaaaaaaaaaaaaaaaaaaaaaaa\n\
                # freemkv-uk: 0:11111111111111111111111111111111\n\
                0x0 0x200 +\n";
    let p_text: String = String::from(body);
    let loaded = Mapfile::load(&p_text).unwrap();
    assert_eq!(
        loaded.vid(),
        None,
        "load() must clear vid when unit keys are present"
    );
    assert_eq!(loaded.unit_keys(), &[(0u32, [0x11u8; 16])]);
}

#[test]
fn vid_round_trips_and_data_lines_unaffected() {

    let mut mf = Mapfile::create(1000, "test");
    mf.record(100, 200, SectorStatus::Finished).unwrap();
    mf.record(500, 100, SectorStatus::Unreadable).unwrap();
    mf.record(700, 50, SectorStatus::NonTrimmed).unwrap();
    let vid: [u8; 16] = [
        0x00, 0x11, 0x22, 0x33, 0x44, 0x55, 0x66, 0x77, 0x88, 0x99, 0xaa, 0xbb, 0xcc, 0xdd,
        0xee, 0xff,
    ];
    mf.set_vid(vid);
    let p_text: String = mf.render();

    let text = p_text.clone();
    assert!(
        text.contains("# freemkv-vid:"),
        "saved mapfile missing VID comment: {text}"
    );
    assert!(
        text.contains("# freemkv-vid: 00112233445566778899aabbccddeeff"),
        "VID comment format mismatch: {text}"
    );

    let loaded = Mapfile::load(&p_text).unwrap();
    assert_eq!(loaded.vid(), Some(vid));
    assert_eq!(loaded.entries(), mf.entries());
    let mut mf2 = Mapfile::create(1000, "test");
    mf2.record(100, 200, SectorStatus::Finished).unwrap();
    mf2.record(500, 100, SectorStatus::Unreadable).unwrap();
    mf2.record(700, 50, SectorStatus::NonTrimmed).unwrap();
    let p2_text: String = mf2.render();
    let loaded_novid = Mapfile::load(&p2_text).unwrap();
    assert_eq!(loaded_novid.vid(), None);
    assert_eq!(loaded_novid.entries(), loaded.entries());

    let mut bad = text.replace("00112233445566778899aabbccddeeff", "zzzz");
    let pbad_text: String = String::from(&bad);
    assert!(
        Mapfile::load(&pbad_text).is_err(),
        "a corrupt VID header must not load as 'no identity'"
    );

    bad.clear();
    let reloaded = Mapfile::load(&p_text).unwrap();
    let again = Mapfile::load(&reloaded.render()).unwrap();
    assert_eq!(again.vid(), Some(vid));
}

#[test]
fn load_rejects_overflowing_pos_plus_size() {
    let p_text: String = String::from("# Rescue Logfile. Created by test\n\
         0x000000000  ?  1  0\n\
         0xfffffffffffffff0  0x20    +\n");
    assert_eq!(Mapfile::load(&p_text).err(), Some(MapfileInvalid::Range),
        "a pos+size that overflows u64 must be rejected, not wrap");
}

#[test]
fn load_rejects_overlapping_ranges() {
    let p_text: String = String::from("# Rescue Logfile. Created by test\n\
         0x000000000  ?  1  0\n\
         0x000000000  0x00000100    +\n\
         0x000000080  0x00000100    -\n");
    assert_eq!(Mapfile::load(&p_text).err(), Some(MapfileInvalid::Overlap),
        "overlapping ranges must be rejected so stats can't double-count");
}

#[test]
fn load_fills_internal_gap_as_nontried() {
    let p_text: String = String::from("# Rescue Logfile. Created by test\n\
         0x000000000  ?  1  0\n\
         0x000000000  0x00000100    +\n\
         0x000000200  0x00000100    +\n");
    let mf = Mapfile::load(&p_text).expect("holed mapfile must load (gap filled, not rejected)");
    let hole = mf
        .entries()
        .iter()
        .find(|e| e.pos == 0x100)
        .expect("internal gap must be filled with a synthetic entry");
    assert_eq!(hole.size, 0x100, "filled gap covers the whole hole");
    assert_eq!(
        hole.status,
        SectorStatus::NonTried,
        "filled gap must be NonTried so resume reads it"
    );
    assert_eq!(mf.total_size(), 0x300);
    assert_eq!(
        mf.stats().bytes_pending,
        0x100,
        "the hole must count as pending — exactly once — so copy() doesn't \
         report complete"
    );
}

#[test]
fn load_fills_leading_gap_as_nontried() {
    let p_text: String = String::from("# Rescue Logfile. Created by test\n\
         0x000000000  ?  1  0\n\
         0x000000080  0x00000100    +\n");
    let mf = Mapfile::load(&p_text).expect("leading-gap mapfile must load");
    let head = mf
        .entries()
        .first()
        .expect("must have a leading fill entry");
    assert_eq!(head.pos, 0, "fill must start at byte 0");
    assert_eq!(head.size, 0x80);
    assert_eq!(head.status, SectorStatus::NonTried);
}

#[test]
fn num_bad_ranges_counts_unreadable_entries() {
    let mut mf = Mapfile::create(1000, "test");
    mf.record(100, 50, SectorStatus::Unreadable).unwrap();
    mf.record(300, 50, SectorStatus::Unreadable).unwrap();
    assert_eq!(mf.stats().num_bad_ranges, 2);
}

#[test]
fn next_with_clips_start_to_from() {
    let mut mf = Mapfile::create(1000, "test");
    mf.record(200, 300, SectorStatus::NonTrimmed).unwrap();
    assert_eq!(
        mf.next_with(350, SectorStatus::NonTrimmed),
        Some((350, 150))
    );
    assert_eq!(mf.next_with(0, SectorStatus::NonTrimmed), Some((200, 300)));
    assert_eq!(mf.next_with(500, SectorStatus::NonTrimmed), None);
    assert_eq!(mf.next_with(0, SectorStatus::Unreadable), None);
}

#[test]
fn ranges_with_multiple_statuses_in_order() {
    let mut mf = Mapfile::create(1000, "test");
    mf.record(100, 100, SectorStatus::NonTrimmed).unwrap();
    mf.record(300, 100, SectorStatus::NonScraped).unwrap();
    mf.record(500, 100, SectorStatus::Unreadable).unwrap();
    let retry = mf.ranges_with(&[SectorStatus::NonTrimmed, SectorStatus::NonScraped]);
    assert_eq!(retry, vec![(100, 100), (300, 100)]);
}

#[test]
fn record_zero_size_is_noop() {
    let mut mf = Mapfile::create(1000, "test");
    let before = mf.entries().to_vec();
    mf.record(500, 0, SectorStatus::Finished).unwrap();
    assert_eq!(mf.entries(), before.as_slice());
    assert_eq!(mf.stats().bytes_good, 0);
}

#[test]
fn record_full_span_coalesces_to_one_entry() {
    let mut mf = Mapfile::create(1000, "test");
    mf.record(0, 500, SectorStatus::Finished).unwrap();
    mf.record(500, 500, SectorStatus::Finished).unwrap();
    let es = mf.entries();
    assert_eq!(es.len(), 1, "two adjacent Finished must coalesce");
    assert_eq!((es[0].pos, es[0].size), (0, 1000));
    assert_eq!(mf.stats().bytes_good, 1000);
}

#[test]
fn record_partition_invariant_total_coverage() {
    let mut mf = Mapfile::create(1000, "test");
    mf.record(0, 250, SectorStatus::Finished).unwrap();
    mf.record(250, 250, SectorStatus::Unreadable).unwrap();
    mf.record(500, 250, SectorStatus::NonTrimmed).unwrap();
    let s = mf.stats();
    assert_eq!(
        s.bytes_good + s.bytes_unreadable + s.bytes_pending,
        s.bytes_total,
        "coverage must partition the disc exactly"
    );
    let es = mf.entries();
    for w in es.windows(2) {
        assert!(
            w[0].pos + w[0].size <= w[1].pos,
            "entries must stay disjoint and sorted"
        );
    }
}

#[test]
fn load_skips_current_status_line() {
    let p_text: String = String::from("# Rescue Logfile. Created by test\n\
         0x000000000  ?  1  0\n\
         0x000000000  0x00000100    +\n\
         0x000000100  0x00000100    -\n");
    let mf = Mapfile::load(&p_text).unwrap();
    assert_eq!(mf.entries().len(), 2);
    assert_eq!(mf.entries()[0].status, SectorStatus::Finished);
    assert_eq!(mf.entries()[1].status, SectorStatus::Unreadable);
}

#[test]
fn load_treats_leading_data_line_as_entry() {
    let p_text: String = String::from("# Rescue Logfile. Created by test\n\
         0x000000000  0x00000200    +\n\
         0x000000200  0x00000100    ?\n");
    let mf = Mapfile::load(&p_text).unwrap();
    assert_eq!(mf.entries().len(), 2);
    assert_eq!(mf.entries()[0].size, 0x200);
}

#[test]
fn load_treats_leading_data_line_without_0x_prefix_as_entry() {
    let p_text: String = String::from("# Rescue Logfile. Created by test\n\
         000000000  200    +\n\
         000000200  100    ?\n");
    let mf = Mapfile::load(&p_text).unwrap();
    assert_eq!(mf.entries().len(), 2);
    assert_eq!(mf.entries()[0].size, 0x200);
    assert_eq!(mf.entries()[0].status, SectorStatus::Finished);
    assert_eq!(mf.entries()[1].status, SectorStatus::NonTried);
}

#[test]
fn load_parses_version_header() {
    let p_text: String = String::from("# Rescue Logfile. Created by libfreemkv v9.9.9\n\
         0x000000000  ?  1  0\n\
         0x000000000  0x00000100    +\n");
    let mf = Mapfile::load(&p_text).unwrap();
    assert_eq!(mf.version(), "libfreemkv v9.9.9");
}

#[test]
fn load_rejects_non_hex_field() {
    let p_text: String = String::from("# Rescue Logfile. Created by test\n\
         0x000000000  ?  1  0\n\
         0xZZZ  0x100    +\n");
    assert_eq!(Mapfile::load(&p_text).err(), Some(MapfileInvalid::Hex));
}

#[test]
fn load_rejects_a_data_line_with_too_few_fields() {
    let p_text: String = String::from("# Rescue Logfile. Created by test\n\
         0x0  ?  1  0\n\
         0x0        0x2800  +\n\
         0x2800     0x800\n");
    let err = match Mapfile::load(&p_text) {
        Ok(map) => panic!(
            "a short line must not be skipped; loaded total_size={:#x} good={:#x}",
            map.total_size(),
            map.stats().bytes_good
        ),
        Err(e) => e,
    };
    assert_eq!(err, MapfileInvalid::ShortLine);
}

#[test]
fn load_rejects_a_data_line_with_one_field() {
    let p_text: String = String::from("# Rescue Logfile. Created by test\n\
         0x0  ?  1  0\n\
         0x0        0x2800  +\n\
         0x2800\n");
    let err = match Mapfile::load(&p_text) {
        Ok(_) => panic!("a one-field line must be refused, not skipped"),
        Err(e) => e,
    };
    assert_eq!(err, MapfileInvalid::ShortLine);
}

#[test]
fn load_rejects_a_malformed_vid_header() {
    let p_text: String = String::from("# Rescue Logfile. Created by test\n\
         # freemkv-vid: 00112233445566778899aabbccddeezz\n\
         0x0  ?  1  0\n\
         0x0  0x800    +\n");
    let err = match Mapfile::load(&p_text) {
        Ok(mf) => panic!(
            "a corrupt VID header must not load as 'no identity' (vid={:?})",
            mf.vid()
        ),
        Err(e) => e,
    };
    assert_eq!(err, MapfileInvalid::Vid);
}

#[test]
fn load_rejects_a_malformed_unit_key_header() {
    let p_text: String = String::from("# Rescue Logfile. Created by test\n\
         # freemkv-uk: 0:000102030405060708090a0b0c0d0e\n\
         0x0  ?  1  0\n\
         0x0  0x800    +\n");
    let err = match Mapfile::load(&p_text) {
        Ok(mf) => panic!(
            "a corrupt unit-key header must not load as 'no identity' (keys={})",
            mf.unit_keys().len()
        ),
        Err(e) => e,
    };
    assert_eq!(err, MapfileInvalid::UnitKey);
}

#[test]
fn absent_identity_loads_and_a_wellformed_one_parses() {
    let p_text: String = String::from("# Rescue Logfile. Created by test\n\
         0x0  ?  1  0\n\
         0x0  0x800    +\n");
    let mf = Mapfile::load(&p_text).expect("no identity header at all is legal");
    assert_eq!(mf.vid(), None);
    assert!(mf.unit_keys().is_empty());
    let p2_text: String = String::from("# Rescue Logfile. Created by test\n\
         # freemkv-vid: 00112233445566778899aabbccddeeff\n\
         0x0  ?  1  0\n\
         0x0  0x800    +\n");
    let mf2 = Mapfile::load(&p2_text).expect("a well-formed VID header must still load");
    assert_eq!(
        mf2.vid(),
        Some([
            0x00, 0x11, 0x22, 0x33, 0x44, 0x55, 0x66, 0x77, 0x88, 0x99, 0xaa, 0xbb, 0xcc, 0xdd,
            0xee, 0xff
        ])
    );
    assert_eq!(mf2.total_size(), 0x800);
}

#[test]
fn load_rejects_unknown_status_char() {
    let p_text: String = String::from("# Rescue Logfile. Created by test\n\
         0x000000000  ?  1  0\n\
         0x000000000  0x100    ~\n");
    let err = match Mapfile::load(&p_text) {
        Ok(_) => panic!("unknown status char must be rejected"),
        Err(e) => e,
    };
    assert_eq!(err, MapfileInvalid::StatusChar);
}

#[test]
fn load_empty_mapfile_is_zero_total() {
    let p_text: String = String::from("# Rescue Logfile. Created by test\n\n   \n");
    let mf = Mapfile::load(&p_text).unwrap();
    assert!(mf.entries().is_empty());
    assert_eq!(mf.total_size(), 0);
    assert_eq!(mf.stats().bytes_total, 0);
}

#[test]
fn load_sorts_out_of_order_entries() {
    let p_text: String = String::from("# Rescue Logfile. Created by test\n\
         0x000000000  ?  1  0\n\
         0x000000200  0x00000100    -\n\
         0x000000000  0x00000200    +\n");
    let mf = Mapfile::load(&p_text).unwrap();
    assert_eq!(mf.entries()[0].pos, 0);
    assert_eq!(mf.entries()[1].pos, 0x200);
    assert_eq!(mf.total_size(), 0x300);
}

#[test]
fn write_to_disk_format_round_trips_and_has_headers() {
    let mut mf = Mapfile::create(0x1000, "vTEST");
    mf.record(0x100, 0x200, SectorStatus::Finished).unwrap();
    mf.record(0x500, 0x100, SectorStatus::Unreadable).unwrap();
    let p_text: String = mf.render();
    let text = p_text.clone();
    assert!(text.contains("# Rescue Logfile. Created by vTEST"));
    assert!(text.contains("# Current pos / status / pass / pass_time"));
    assert!(text.contains("0x000000100  0x000000200    +"));
    assert!(text.contains("0x000000500  0x000000100    -"));
    let reloaded = Mapfile::load(&p_text).unwrap();
    assert_eq!(reloaded.entries(), mf.entries());
}

#[test]
fn set_unit_keys_empty_preserves_vid() {
    let mut mf = Mapfile::create(1000, "test");
    mf.set_vid([0x7Au8; 16]);
    mf.set_unit_keys(&[]); // empty — must not clear vid
    assert_eq!(mf.vid(), Some([0x7Au8; 16]));
    assert!(mf.unit_keys().is_empty());
}

#[test]
fn stats_consistent_after_split_record() {
    let mut mf = Mapfile::create(1000, "test");
    mf.record(200, 400, SectorStatus::NonTrimmed).unwrap();
    let s = mf.stats();
    assert_eq!(s.bytes_pending, 1000); // NonTried(600) + NonTrimmed(400)
    assert_eq!(s.bytes_retryable, 400); // NonTrimmed only
    assert_eq!(s.bytes_nontried, 600); // 200 + 400

    mf.record(200, 400, SectorStatus::Finished).unwrap();
    let s2 = mf.stats();
    assert_eq!(s2.bytes_good, 400);
    assert_eq!(s2.bytes_pending, 600); // NonTried(200 + 400)
    assert_eq!(s2.bytes_nontried, 600);
    assert_eq!(s2.bytes_retryable, 0);
}

#[test]
fn status_char_round_trip_is_ddrescue_alphabet() {
    let pairs = [
        (SectorStatus::NonTried, '?'),
        (SectorStatus::NonTrimmed, '*'),
        (SectorStatus::NonScraped, '/'),
        (SectorStatus::Unreadable, '-'),
        (SectorStatus::Finished, '+'),
    ];
    for (st, ch) in pairs {
        assert_eq!(st.to_char(), ch, "{st:?} must map to '{ch}'");
        assert_eq!(SectorStatus::from_char(ch), Some(st));
    }
    for bad in ['x', ' ', '0', '#', '!'] {
        assert_eq!(
            SectorStatus::from_char(bad),
            None,
            "'{bad}' is not a status"
        );
    }
}

#[test]
fn damage_set_is_the_bad_set_without_the_unread_remainder() {
    let bad = bad_sector_statuses();
    let damage = damage_sector_statuses();

    for s in damage {
        assert!(bad.contains(&s), "{s:?} is damage but not bad");
    }
    for s in bad {
        assert!(
            damage.contains(&s) || s == SectorStatus::NonTried,
            "{s:?} is bad but not damage, and is not the unread remainder"
        );
    }
    assert!(bad.contains(&SectorStatus::NonTried));
    assert!(!damage.contains(&SectorStatus::NonTried));
    for s in bad {
        assert!(!s.is_finished(), "{s:?} must not count as good");
    }
}

#[test]
fn only_finished_is_finished() {
    assert!(SectorStatus::Finished.is_finished());
    for s in bad_sector_statuses() {
        assert!(!s.is_finished());
    }
}

#[test]
fn parse_vid_hex_does_not_panic_on_multibyte_32_byte_input() {
    let s = "中".to_string() + &"a".repeat(29); // 3 + 29 = 32 bytes
    assert_eq!(s.len(), 32);
    assert_eq!(parse_vid_hex(&chars(&s)), None);
    assert_eq!(
        parse_vid_hex(&chars("00112233445566778899aabbccddeeff")),
        Some([
            0x00, 0x11, 0x22, 0x33, 0x44, 0x55, 0x66, 0x77, 0x88, 0x99, 0xaa, 0xbb, 0xcc, 0xdd,
            0xee, 0xff,
        ])
    );
}

#[test]
fn parse_hex_accepts_prefixed_and_bare_rejects_garbage() {
    assert_eq!(parse_hex(&chars("0x10")).unwrap(), 16);
    assert_eq!(parse_hex(&chars("10")).unwrap(), 16);
    assert_eq!(parse_hex(&chars("0xffffffff")).unwrap(), 0xffff_ffff);
    let err = parse_hex(&chars("0xzz")).unwrap_err();
    assert_eq!(err, MapfileInvalid::Hex);
}

#[test]
fn parse_uk_line_rejects_malformed() {
    assert_eq!(parse_uk_line(&chars("no-colon")), None);
    assert_eq!(
        parse_uk_line(&chars("notanumber:11111111111111111111111111111111")),
        None
    );
    assert_eq!(parse_uk_line(&chars("0:1111111111111111111111111111")), None);
    assert_eq!(
        parse_uk_line(&chars("3:000102030405060708090a0b0c0d0e0f")),
        Some((3u32, [0, 1, 2, 3, 4, 5, 6, 7, 8, 9, 10, 11, 12, 13, 14, 15]))
    );
}

#[test]
fn parse_vid_hex_length_and_case() {
    assert_eq!(
        parse_vid_hex(&chars("0xAABBCCDDEEFF00112233445566778899")),
        Some([
            0xAA, 0xBB, 0xCC, 0xDD, 0xEE, 0xFF, 0x00, 0x11, 0x22, 0x33, 0x44, 0x55, 0x66, 0x77,
            0x88, 0x99
        ])
    );
    assert_eq!(parse_vid_hex(&chars(&"a".repeat(31))), None);
    assert_eq!(parse_vid_hex(&chars(&"a".repeat(33))), None);
}

#[test]
fn every_fault_has_its_name() {
    let load = |t: &str| Mapfile::load(t).err().map(|e| e.kind());
    assert_eq!(load("# freemkv-vid: 12\n"), Some("vid"));
    assert_eq!(load("# freemkv-uk: 12\n"), Some("unit_key"));
    assert_eq!(load("0x0 0x10\n"), Some("short_line"));
    assert_eq!(load("0x0 0x1g +\n"), Some("hex"));
    assert_eq!(load("0xffffffffffffffff 0x2 +\n"), Some("range"));
    assert_eq!(load("0x10 0x0 +\n"), Some("zero_size"));
    assert_eq!(load("0x10 0x1 !\n"), Some("status_char"));
    assert_eq!(load("0x0 0x10 +\n0x8 0x10 +\n"), Some("overlap"));
    assert_eq!(MapfileInvalid::DiscMismatch.kind(), "disc-mismatch");
}

#[test]
fn the_first_bad_line_decides() {
    assert_eq!(
        Mapfile::load("0x0 0x10 +\n0x8 0x10 +\n0x40 0x0 +\n").err(),
        Some(MapfileInvalid::ZeroSize)
    );
    assert_eq!(
        Mapfile::load("0x40 0x0 !\n0x8\n").err(),
        Some(MapfileInvalid::ZeroSize)
    );
    assert_eq!(
        Mapfile::load("zz yy\n").err(),
        Some(MapfileInvalid::ShortLine)
    );
}

#[test]
fn lines_may_end_in_carriage_returns_and_begin_with_space() {
    let mf = Mapfile::load("# Rescue Logfile. Created by  me \r\n\t0x0 ? 1 0\r\n \u{3000}0 20 +\r\n").unwrap();
    assert_eq!(mf.version(), " me");
    assert_eq!(mf.total_size(), 0x20);
    assert_eq!(mf.entries().len(), 1);
}

#[test]
fn a_state_line_is_only_skipped_once() {
    assert_eq!(
        Mapfile::load("0x0 ? 1 0\n0x0 ? 1 0\n").err(),
        Some(MapfileInvalid::Hex)
    );
}

#[test]
fn numbers_may_carry_a_plus_and_must_fit() {
    assert_eq!(parse_hex(&chars("+10")), Ok(16));
    assert_eq!(parse_hex(&chars("0x+10")), Ok(16));
    assert_eq!(parse_hex(&chars("0xFFFFffffFFFFffff")), Ok(u64::MAX));
    assert_eq!(parse_hex(&chars("0000000000000000000000001")), Ok(1));
    assert!(parse_hex(&chars("0x10000000000000000")).is_err());
    assert!(parse_hex(&chars("0x")).is_err());
    assert!(parse_hex(&chars("+")).is_err());
    assert!(parse_hex(&chars("-1")).is_err());
    assert!(parse_hex(&chars("0X10")).is_err());
    assert_eq!(
        parse_uk_line(&chars(" +7 : 0X000102030405060708090a0b0c0d0e0f ")),
        Some((7, [0, 1, 2, 3, 4, 5, 6, 7, 8, 9, 10, 11, 12, 13, 14, 15]))
    );
    assert_eq!(parse_uk_line(&chars("4294967296:000102030405060708090a0b0c0d0e0f")), None);
}

#[test]
fn a_rewritten_text_is_the_text() {
    let mut mf = Mapfile::create(0x2_0000_0000, "freemkv-engine v1");
    mf.record(0x1_0000_0000, 0x1000, SectorStatus::NonScraped).unwrap();
    mf.set_unit_keys(&[(4_294_967_295, [0xfe; 16]), (10, [1; 16])]);
    let text = mf.render();
    let back = Mapfile::load(&text).unwrap();
    assert_eq!(back.render(), text);
    assert_eq!(back.entries(), mf.entries());
    assert_eq!(back.unit_keys(), mf.unit_keys());
    assert_eq!(back.version(), "freemkv-engine v1");
}

#[test]
fn unit_keys_win_over_a_volume_id_set_after_them() {
    let mut mf = Mapfile::create(1000, "t");
    mf.set_unit_keys(&[(0, [0x11; 16])]);
    mf.mark_flushed();
    mf.set_vid([0xaa; 16]);
    assert!(!(mf.vid().is_some() && !mf.unit_keys().is_empty()));
    assert_eq!(mf.vid(), None);
    assert_eq!(mf.unit_keys(), &[(0, [0x11; 16])]);
    assert!(mf.is_dirty());
    let back = Mapfile::load(&mf.render()).unwrap();
    assert_eq!((back.vid(), back.unit_keys()), (mf.vid(), mf.unit_keys()));
}

#[test]
fn open_or_create_creates_when_absent() {
    let mf = Mapfile::open_or_create(None, 2048, "test").unwrap();
    assert_eq!(mf.entries().len(), 1);
    assert_eq!(mf.entries()[0].status, SectorStatus::NonTried);
    assert_eq!(mf.total_size(), 2048);
}

#[test]
fn open_or_create_loads_existing_despite_size_mismatch() {
    let mut mf = Mapfile::create(1000, "test");
    mf.record(0, 500, SectorStatus::Finished).unwrap();
    let text = mf.render();
    let reopened = Mapfile::open_or_create(Some(&text), 999_999, "test").unwrap();
    assert_eq!(reopened.stats().bytes_good, 500);
    assert_eq!(reopened.total_size(), 1000);
}

#[test]
fn a_text_that_is_no_mapfile_is_not_replaced_by_a_fresh_one() {
    let text = "# Rescue Logfile. Created by test\n0x00 0x10 +\n0x08 0x10 -\n";
    assert_eq!(
        Mapfile::open_or_create(Some(text), 0x20, "test").err(),
        Some(MapfileInvalid::Overlap)
    );
}

#[test]
fn absent_is_none_not_an_error() {
    assert!(load_if_present(None).unwrap().is_none());
}

#[test]
fn corrupt_is_an_error_not_none() {
    match load_if_present(Some("# Rescue Logfile. Created by test\n0x00 0xZZZZ +\n")) {
        Err(e) => assert_eq!(e, MapfileInvalid::Hex, "corruption must not masquerade as absence"),
        Ok(_) => panic!("a corrupt mapfile must not load, nor read as absent"),
    }
}

#[test]
fn a_mapfile_that_is_there_is_loaded() {
    let mut mf = Mapfile::create(1000, "test");
    mf.record(0, 400, SectorStatus::Unreadable).unwrap();
    let loaded = load_if_present(Some(&mf.render())).unwrap().unwrap();
    assert_eq!(loaded.entries(), mf.entries());
    assert_eq!(loaded.stats(), mf.stats());
}

#[test]
fn all_but_the_end_of_the_writers_name_reads_back_whatever_the_name() {
    for (version, kept) in [
        ("", "unknown"),
        (" ", "unknown"),
        ("\t \u{3000}", "unknown"),
        ("x ", "x"),
        ("  a b\u{a0}\r", "  a b"),
        ("#", "#"),
        ("freemkv-vid: 00", "freemkv-vid: 00"),
    ] {
        let mut mf = Mapfile::create(0x5000, version);
        mf.record(0x1000, 0x800, SectorStatus::NonScraped).unwrap();
        mf.record(0x3000, 0x800, SectorStatus::Unreadable).unwrap();
        mf.set_vid([0x5c; 16]);
        let back = Mapfile::load(&mf.render()).unwrap();
        assert_eq!(back.entries(), mf.entries());
        assert_eq!(back.total_size(), 0x5000);
        assert_eq!(back.stats(), mf.stats());
        assert_eq!(back.vid(), Some([0x5c; 16]));
        assert!(back.unit_keys().is_empty());
        assert!(!back.is_dirty());
        assert_eq!(back.version(), kept);
        let again = Mapfile::load(&back.render()).unwrap();
        assert_eq!(again.render(), back.render());
    }
}

#[test]
fn recording_moves_bytes_from_one_status_to_another() {
    let mut mf = Mapfile::create(1000, "t");
    mf.record(0, 600, SectorStatus::NonTrimmed).unwrap();
    mf.record(100, 700, SectorStatus::Finished).unwrap();
    let st = mf.stats();
    assert_eq!(st.bytes_good, 700);
    assert_eq!(st.bytes_retryable, 100);
    assert_eq!(st.bytes_nontried, 200);
}

#[test]
fn a_mapfile_of_nothing_does_not_read_back() {
    let text = Mapfile::create(0, "test").render();
    assert_eq!(Mapfile::load(&text).err(), Some(MapfileInvalid::ZeroSize));
}

#[test]
fn a_later_record_wins_and_disjoint_records_commute() {
    let mut a = Mapfile::create(1000, "t");
    a.record(100, 50, SectorStatus::Unreadable).unwrap();
    a.record(50, 200, SectorStatus::Finished).unwrap();
    let mut b = Mapfile::create(1000, "t");
    b.record(50, 200, SectorStatus::Finished).unwrap();
    assert_eq!(a.entries(), b.entries());
    let mut c = Mapfile::create(1000, "t");
    c.record(0, 10, SectorStatus::Finished).unwrap();
    c.record(500, 10, SectorStatus::NonTrimmed).unwrap();
    let mut d = Mapfile::create(1000, "t");
    d.record(500, 10, SectorStatus::NonTrimmed).unwrap();
    d.record(0, 10, SectorStatus::Finished).unwrap();
    assert_eq!(c.entries(), d.entries());
}

#[test]
fn a_flush_is_due_when_something_changed_a_second_ago() {
    let mut mf = Mapfile::create(1000, "t");
    assert!(!mf.is_dirty());
    assert!(!mf.flush_due(5000));
    mf.record(0, 10, SectorStatus::Finished).unwrap();
    assert!(mf.is_dirty());
    assert!(!mf.flush_due(999));
    assert!(mf.flush_due(1000));
    mf.mark_flushed();
    assert!(!mf.flush_due(5000));
}

#[test]
fn white_space_is_the_unicode_property() {
    for n in 0..=0x10ffffu32 {
        if let Some(c) = char::from_u32(n) {
            assert_eq!(freemkv_engine::text::space(c), c.is_whitespace(), "U+{n:04x}");
        }
    }
}
