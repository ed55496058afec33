use freemkv_engine::copy::{
    dispatch, image_allows_resume, opens_existing_image, resume_from_mapfile, stamp_identity,
    CopyResult, Dispatch, ImageState, IsoLen, MAPFILE_CREATOR,
};
use freemkv_engine::disc::{Disc, DiscFormat};
use freemkv_engine::files::{
    iso_len_from_metadata, mapfile_path_for, output_is_regular, stale_mapfile_removed,
    sync_failure_matters, FileStat, Removal,
};
use freemkv_engine::mapfile::{Mapfile, MapfileInvalid};
use freemkv_engine::run::{copy_plan, CopyPlan, MultipassRequiresRaw, RipMode};
use freemkv_engine::status::SectorStatus;

fn disc(capacity_bytes: u64) -> Disc {
    Disc {
        format: DiscFormat::BluRay,
        capacity_bytes,
        encrypted: false,
        aacs: None,
        css: false,
        aacs_error: None,
    }
}

fn map(total: u64, records: &[(u64, u64, SectorStatus)]) -> Mapfile {
    let mut m = Mapfile::create(total, "test");
    for &(p, l, s) in records {
        m.record(p, l, s).unwrap();
    }
    m
}

#[test]
fn the_mapfile_header_names_the_crate_that_writes_it() {
    assert!(
        MAPFILE_CREATOR.starts_with("freemkv-engine v"),
        "mapfile provenance header is {MAPFILE_CREATOR:?}"
    );
    assert!(
        !MAPFILE_CREATOR.contains("libfreemkv"),
        "recovery has lived in this crate since 1.6.0: {MAPFILE_CREATOR:?}"
    );
    let version = MAPFILE_CREATOR
        .strip_prefix("freemkv-engine v")
        .expect("prefix asserted above");
    assert!(
        version.starts_with(|c: char| c.is_ascii_digit()),
        "version tail is {version:?}"
    );
}

#[test]
fn image_state_answers_intact_and_short_separately() {
    let exact = ImageState {
        len: 4096,
        want: 4096,
    };
    assert!(exact.is_intact());
    assert!(!exact.is_short(), "the right length is not short");

    let short = ImageState {
        len: 2048,
        want: 4096,
    };
    assert!(!short.is_intact());
    assert!(short.is_short(), "this is the case that invents good data");

    let long = ImageState {
        len: 8192,
        want: 4096,
    };
    assert!(
        !long.is_intact(),
        "a longer file is not this mapfile's image"
    );
    assert!(!long.is_short());
}

#[test]
fn image_state_treats_a_missing_file_as_zero_length() {
    let st = ImageState::measure(IsoLen::Missing, 4096);
    assert_eq!(st.len, 0);
    assert!(st.is_short(), "absent must read as short, not as intact");
}

#[test]
fn image_state_measures_the_file_on_disk() {
    assert!(ImageState::measure(IsoLen::Len(2048), 4096).is_short());
    assert!(ImageState::measure(IsoLen::Len(2048), 2048).is_intact());
}

#[test]
fn only_not_found_means_the_image_is_missing() {
    assert_eq!(
        iso_len_from_metadata(FileStat::NotFound).unwrap(),
        IsoLen::Missing
    );
    assert!(iso_len_from_metadata(FileStat::Failed).is_err());
}

#[test]
fn a_readable_image_reports_its_own_length() {
    assert_eq!(
        iso_len_from_metadata(FileStat::Found { len: 0, regular: true }).unwrap(),
        IsoLen::Len(0),
        "an existing zero-length image is NOT the same as an absent one"
    );
    assert_eq!(
        iso_len_from_metadata(FileStat::Found { len: 4096, regular: true }).unwrap(),
        IsoLen::Len(4096)
    );
    assert_eq!(
        iso_len_from_metadata(FileStat::NotFound).unwrap(),
        IsoLen::Missing
    );
}

#[test]
fn a_stale_mapfile_that_cannot_be_removed_aborts_the_fresh_sweep() {
    assert!(stale_mapfile_removed(Removal::Removed).is_ok());
    assert!(
        stale_mapfile_removed(Removal::NotFound).is_ok(),
        "already gone is the same as removed"
    );
    assert!(stale_mapfile_removed(Removal::Failed).is_err());
}

#[test]
fn an_output_is_regular_unless_it_says_otherwise() {
    assert!(output_is_regular(FileStat::Found { len: 0, regular: true }));
    assert!(!output_is_regular(FileStat::Found { len: 0, regular: false }));
    assert!(output_is_regular(FileStat::Failed));
    assert!(sync_failure_matters(true, false));
    assert!(!sync_failure_matters(false, false));
    assert!(!sync_failure_matters(true, true));
}

#[test]
fn a_mapfile_is_named_after_its_image() {
    for p in [
        "/tmp/movie.iso",
        "/staging/Some Disc (2024).iso",
        "relative.iso",
        "/tmp/no_extension",
        "/tmp/dots.in.name.iso",
    ] {
        assert_eq!(mapfile_path_for(p), format!("{p}.mapfile"));
    }
}

#[test]
fn a_copy_is_complete_only_without_loss_rest_or_halt() {
    assert!(CopyResult::new(10, 10, 0, 0, 0, false).complete);
    assert!(!CopyResult::new(10, 9, 1, 0, 0, false).complete);
    assert!(!CopyResult::new(10, 9, 0, 1, 0, false).complete);
    assert!(!CopyResult::new(10, 10, 0, 0, 0, true).complete);
    let r = CopyResult::new(10, 7, 2, 1, 5, true);
    assert_eq!(
        (r.bytes_total, r.bytes_good, r.bytes_unreadable, r.bytes_pending, r.recovered_this_pass, r.halted),
        (10, 7, 2, 1, 5, true)
    );
}

#[test]
fn dispatch_of_a_finished_copy_depends_on_the_image() {
    let m = map(4096, &[(0, 4096, SectorStatus::Finished)]);
    let done = Dispatch::Terminal(CopyResult::new(4096, 4096, 0, 0, 0, false));
    assert_eq!(dispatch(&m, &disc(4096), IsoLen::Len(4096), true), Ok(done));
    assert_eq!(dispatch(&m, &disc(4096), IsoLen::Len(2048), true), Ok(Dispatch::FreshSweep));
    assert_eq!(dispatch(&m, &disc(4096), IsoLen::Missing, false), Ok(Dispatch::FreshSweep));
}

#[test]
fn dispatch_of_another_size_starts_anew() {
    let m = map(4096, &[(0, 2048, SectorStatus::Finished)]);
    assert_eq!(dispatch(&m, &disc(8192), IsoLen::Len(4096), true), Ok(Dispatch::FreshSweep));
    assert_eq!(dispatch(&m, &disc(2048), IsoLen::Len(4096), true), Ok(Dispatch::FreshSweep));
}

#[test]
fn dispatch_sweeps_the_unread_before_it_patches() {
    let m = map(
        8192,
        &[(0, 2048, SectorStatus::Finished), (2048, 2048, SectorStatus::NonTrimmed)],
    );
    assert_eq!(dispatch(&m, &disc(8192), IsoLen::Len(8192), true), Ok(Dispatch::ResumeSweep));
    let m = map(
        4096,
        &[(0, 2048, SectorStatus::Finished), (2048, 2048, SectorStatus::NonTrimmed)],
    );
    assert_eq!(dispatch(&m, &disc(4096), IsoLen::Len(4096), true), Ok(Dispatch::Patch));
    assert_eq!(
        dispatch(&m, &disc(4096), IsoLen::Len(4096), false),
        Ok(Dispatch::Terminal(CopyResult::new(4096, 2048, 0, 2048, 0, false)))
    );
}

#[test]
fn dispatch_of_nothing_but_lost_bytes_is_terminal() {
    let m = map(
        4096,
        &[(0, 2048, SectorStatus::Finished), (2048, 2048, SectorStatus::Unreadable)],
    );
    assert_eq!(
        dispatch(&m, &disc(4096), IsoLen::Len(4096), true),
        Ok(Dispatch::Terminal(CopyResult::new(4096, 2048, 2048, 0, 0, false)))
    );
}

#[test]
fn dispatch_refuses_a_mapfile_of_another_disc() {
    let mut m = map(4096, &[(0, 4096, SectorStatus::Finished)]);
    m.set_vid([1; 16]);
    assert_eq!(
        dispatch(&m, &disc(4096), IsoLen::Len(4096), true),
        Err(MapfileInvalid::DiscMismatch)
    );
    assert_eq!(resume_from_mapfile(&m, &disc(4096), 4096), Err(MapfileInvalid::DiscMismatch));
}

#[test]
fn a_resume_needs_the_right_size_and_an_image_that_is_there() {
    let m = map(4096, &[(0, 2048, SectorStatus::Finished)]);
    assert_eq!(resume_from_mapfile(&m, &disc(4096), 4096), Ok(true));
    assert_eq!(resume_from_mapfile(&m, &disc(4096), 6144), Ok(false));
    assert!(image_allows_resume(&m, IsoLen::Len(4096)));
    assert!(!image_allows_resume(&m, IsoLen::Len(4095)));
    assert!(!image_allows_resume(&m, IsoLen::Missing));
    let untouched = map(4096, &[]);
    assert!(image_allows_resume(&untouched, IsoLen::Missing));
    let failed = map(4096, &[(0, 2048, SectorStatus::NonTrimmed)]);
    assert!(image_allows_resume(&failed, IsoLen::Missing));
    assert!(opens_existing_image(true, IsoLen::Len(1)));
    assert!(!opens_existing_image(true, IsoLen::Len(0)));
    assert!(!opens_existing_image(true, IsoLen::Missing));
    assert!(!opens_existing_image(false, IsoLen::Len(1)));
}

#[test]
fn a_stamp_is_keys_or_else_the_volume_id() {
    let mut m = map(4096, &[]);
    stamp_identity(&mut m, &[], None);
    assert_eq!(m.vid(), None);
    assert!(!m.is_dirty());
    stamp_identity(&mut m, &[], Some([3; 16]));
    assert_eq!(m.vid(), Some([3; 16]));
    stamp_identity(&mut m, &[(1, [4; 16])], Some([3; 16]));
    assert_eq!(m.vid(), None);
    assert_eq!(m.unit_keys(), &[(1, [4; 16])]);
    stamp_identity(&mut m, &[], Some([3; 16]));
    assert_eq!(m.vid(), None);
    assert_eq!(m.unit_keys(), &[(1, [4; 16])]);
}

#[test]
fn multipass_implies_raw() {
    assert_eq!(copy_plan(RipMode::Multi, false), Err(MultipassRequiresRaw));
    assert_eq!(
        copy_plan(RipMode::Multi, true),
        Ok(CopyPlan { decrypt: false, multipass: true })
    );
    assert_eq!(
        copy_plan(RipMode::Single, false),
        Ok(CopyPlan { decrypt: true, multipass: false })
    );
    assert_eq!(
        copy_plan(RipMode::Single, true),
        Ok(CopyPlan { decrypt: false, multipass: false })
    );
}

#[test]
fn a_copy_goes_on_from_the_text_as_from_memory() {
    let states = [
        map(8192, &[(0, 2048, SectorStatus::Finished)]),
        map(4096, &[(0, 2048, SectorStatus::Finished), (2048, 2048, SectorStatus::NonTrimmed)]),
        map(4096, &[(0, 4096, SectorStatus::Finished)]),
        map(4096, &[(0, 4096, SectorStatus::Unreadable)]),
    ];
    for mut m in states {
        m.set_vid([5; 16]);
        let back = Mapfile::load(&m.render()).unwrap();
        for multipass in [false, true] {
            for len in [IsoLen::Missing, IsoLen::Len(4096), IsoLen::Len(8192)] {
                for d in [disc(4096), disc(8192)] {
                    assert_eq!(
                        dispatch(&back, &d, len, multipass),
                        dispatch(&m, &d, len, multipass)
                    );
                }
            }
        }
    }
}

#[test]
fn a_complete_copy_has_every_byte() {
    let m = map(
        6144,
        &[
            (0, 2048, SectorStatus::Finished),
            (4096, 2048, SectorStatus::Finished),
            (2048, 2048, SectorStatus::Finished),
        ],
    );
    match dispatch(&m, &disc(6144), IsoLen::Len(6144), true) {
        Ok(Dispatch::Terminal(r)) => {
            assert!(r.complete);
            assert_eq!(r.bytes_good, 6144);
        }
        other => panic!("expected a terminal result, got {other:?}"),
    }
}
