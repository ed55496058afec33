use freemkv_engine::disc::{AacsState, Disc, DiscFormat, KeyOrigin};
use freemkv_engine::identity::check_mapfile_identity;
use freemkv_engine::mapfile::{Mapfile, MapfileInvalid};

fn disc_with_aacs(aacs: Option<AacsState>) -> Disc {
    Disc {
        format: DiscFormat::Uhd,
        capacity_bytes: 2048,
        encrypted: false,
        aacs,
        css: false,
        aacs_error: None,
    }
}

fn aacs_with(unit_keys: Vec<(u32, [u8; 16])>, volume_id: [u8; 16]) -> AacsState {
    AacsState {
        key_source: KeyOrigin::ExternalUk,
        vuk: None,
        unit_keys,
        volume_id,
        disc_hash: String::new(),
    }
}

#[test]
fn neither_identity_present_is_ok() {
    let mf = Mapfile::create(2048, "test");
    let disc = disc_with_aacs(None);
    assert!(check_mapfile_identity(&mf, &disc).is_ok());
}

#[test]
fn matching_unit_keys_in_any_order_is_ok() {
    let mut mf = Mapfile::create(2048, "test");
    mf.set_unit_keys(&[(0, [0x11; 16]), (1, [0x22; 16])]);
    let disc = disc_with_aacs(Some(aacs_with(
        vec![(1, [0x22; 16]), (0, [0x11; 16])],
        [0u8; 16],
    )));
    assert!(check_mapfile_identity(&mf, &disc).is_ok());
}

#[test]
fn mismatched_unit_keys_is_refused() {
    let mut mf = Mapfile::create(2048, "test");
    mf.set_unit_keys(&[(0, [0x11; 16])]);
    let disc = disc_with_aacs(Some(aacs_with(vec![(0, [0x99; 16])], [0u8; 16])));
    let err = check_mapfile_identity(&mf, &disc).unwrap_err();
    assert_eq!(err, MapfileInvalid::DiscMismatch);
}

#[test]
fn mapfile_keys_against_a_disc_with_no_aacs_state_is_refused() {
    let mut mf = Mapfile::create(2048, "test");
    mf.set_unit_keys(&[(0, [0x11; 16])]);
    let disc = disc_with_aacs(None);
    assert!(check_mapfile_identity(&mf, &disc).is_err());
}

#[test]
fn matching_vid_is_ok() {
    let mut mf = Mapfile::create(2048, "test");
    mf.set_vid([0x7A; 16]);
    let disc = disc_with_aacs(Some(aacs_with(vec![], [0x7A; 16])));
    assert!(check_mapfile_identity(&mf, &disc).is_ok());
}

#[test]
fn mismatched_vid_is_refused() {
    let mut mf = Mapfile::create(2048, "test");
    mf.set_vid([0x7A; 16]);
    let disc = disc_with_aacs(Some(aacs_with(vec![], [0x7B; 16])));
    let err = check_mapfile_identity(&mf, &disc).unwrap_err();
    assert_eq!(err, MapfileInvalid::DiscMismatch);
}

#[test]
fn mapfile_vid_against_a_disc_with_no_aacs_state_is_refused() {
    let mut mf = Mapfile::create(2048, "test");
    mf.set_vid([0x7A; 16]);
    let disc = disc_with_aacs(None);
    assert!(check_mapfile_identity(&mf, &disc).is_err());
}

#[test]
fn keys_are_compared_as_often_as_they_occur() {
    let mut mf = Mapfile::create(2048, "test");
    mf.set_unit_keys(&[(0, [0x11; 16]), (0, [0x11; 16])]);
    let once = disc_with_aacs(Some(aacs_with(vec![(0, [0x11; 16])], [0u8; 16])));
    assert!(check_mapfile_identity(&mf, &once).is_err());
    let twice = disc_with_aacs(Some(aacs_with(
        vec![(0, [0x11; 16]), (0, [0x11; 16])],
        [0u8; 16],
    )));
    assert!(check_mapfile_identity(&mf, &twice).is_ok());
    let more = disc_with_aacs(Some(aacs_with(
        vec![(0, [0x11; 16]), (0, [0x11; 16]), (1, [0x11; 16])],
        [0u8; 16],
    )));
    assert!(check_mapfile_identity(&mf, &more).is_err());
}
