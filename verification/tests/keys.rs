use freemkv_engine::disc::{AacsError, AacsState, Disc, DiscFormat, KeyOrigin};
use freemkv_engine::keys::{ensure_decryptable_strict, resolve_keys, KeyRefusal};

const DOCUMENTED: [&str; 10] = [
    "unencrypted",
    "resolved-keydb",
    "resolved-external",
    "resolved-derived",
    "resolved-css",
    "no-key",
    "no-keydb",
    "key-service-unavailable",
    "key-service-unauthorized",
    "key-service-rate-limited",
];

const ORIGINS: [KeyOrigin; 6] = [
    KeyOrigin::KeyDb,
    KeyOrigin::KeyDbDerived,
    KeyOrigin::KeyDbUnitKeys,
    KeyOrigin::ExternalUk,
    KeyOrigin::DeviceKey,
    KeyOrigin::ProcessingKey,
];

const ERRORS: [Option<AacsError>; 6] = [
    None,
    Some(AacsError::KeydbLoad),
    Some(AacsError::KeyServiceUnavailable),
    Some(AacsError::KeyServiceUnauthorized),
    Some(AacsError::KeyServiceRateLimited),
    Some(AacsError::Other),
];

fn disc(encrypted: bool) -> Disc {
    Disc {
        format: DiscFormat::BluRay,
        capacity_bytes: 2048,
        encrypted,
        aacs: None,
        css: false,
        aacs_error: None,
    }
}

fn aacs(origin: KeyOrigin) -> AacsState {
    AacsState {
        key_source: origin,
        vuk: None,
        unit_keys: vec![(0, [0u8; 16])],
        volume_id: [0u8; 16],
        disc_hash: String::new(),
    }
}

#[test]
fn every_emitted_key_summary_is_documented() {
    let mut keys: Vec<String> = Vec::new();
    keys.push(resolve_keys(&disc(false)).summary);
    for origin in ORIGINS {
        let mut d = disc(true);
        d.aacs = Some(aacs(origin));
        keys.push(resolve_keys(&d).summary);
    }
    for e in ERRORS {
        let mut d = disc(true);
        d.aacs_error = e;
        keys.push(resolve_keys(&d).summary);
        d.css = true;
        keys.push(resolve_keys(&d).summary);
    }
    keys.sort_unstable();
    keys.dedup();
    assert!(
        keys.len() >= 10,
        "fixture check: expected at least the ten known summaries, found {keys:?}"
    );
    for expected in ["unencrypted", "no-key", "key-service-unavailable"] {
        assert!(
            keys.iter().any(|k| k == expected),
            "fixture check: a summary this test was written for is gone: {keys:?}"
        );
    }
    for key in keys {
        assert!(
            DOCUMENTED.contains(&key.as_str()),
            "KeyStatus summary {key:?} is emitted but not listed"
        );
    }
}

#[test]
fn unencrypted_is_resolved() {
    let ks = resolve_keys(&disc(false));
    assert!(ks.resolved);
    assert_eq!(ks.summary, "unencrypted");
}

#[test]
fn strict_gate_passes_an_unencrypted_disc() {
    assert!(ensure_decryptable_strict(&disc(false), false).is_ok());
}

#[test]
fn strict_gate_passes_a_resolved_encrypted_disc() {
    let mut d = disc(true);
    d.aacs = Some(aacs(KeyOrigin::KeyDb));
    assert!(ensure_decryptable_strict(&d, false).is_ok());
}

#[test]
fn strict_gate_surfaces_a_key_source_failure() {
    let mut d = disc(true);
    d.aacs_error = Some(AacsError::KeyServiceUnavailable);
    assert!(matches!(
        ensure_decryptable_strict(&d, false),
        Err(KeyRefusal::KeyServiceUnavailable)
    ));
}

#[test]
fn every_refusal_has_its_cause() {
    let mut d = disc(true);
    d.aacs_error = Some(AacsError::KeyServiceUnauthorized);
    assert_eq!(
        ensure_decryptable_strict(&d, false),
        Err(KeyRefusal::KeyServiceUnauthorized)
    );
    d.aacs_error = Some(AacsError::KeyServiceRateLimited);
    assert_eq!(
        ensure_decryptable_strict(&d, false),
        Err(KeyRefusal::KeyServiceRateLimited)
    );
    d.aacs_error = Some(AacsError::KeydbLoad);
    assert_eq!(
        ensure_decryptable_strict(&d, false),
        Err(KeyRefusal::NoDiscKey { disc_hash: String::new() })
    );
    let mut a = aacs(KeyOrigin::ExternalUk);
    a.unit_keys = Vec::new();
    a.disc_hash = "abc".to_string();
    d.aacs = Some(a);
    d.aacs_error = None;
    assert_eq!(
        ensure_decryptable_strict(&d, false),
        Err(KeyRefusal::NoDiscKey { disc_hash: "abc".to_string() })
    );
    assert_eq!(ensure_decryptable_strict(&d, true), Ok(()));
}

#[test]
fn aacs_keydb_reports_origin_and_summary() {
    let mut d = disc(true);
    d.aacs = Some(aacs(KeyOrigin::KeyDb));
    let ks = resolve_keys(&d);
    assert!(ks.resolved);
    assert_eq!(ks.summary, "resolved-keydb");
    assert_eq!(ks.origin, Some(KeyOrigin::KeyDb));
}

#[test]
fn aacs_external_uk_is_external_not_online() {
    let mut d = disc(true);
    d.aacs = Some(aacs(KeyOrigin::ExternalUk));
    let ks = resolve_keys(&d);
    assert!(ks.resolved);
    assert_eq!(ks.summary, "resolved-external");
}

#[test]
fn placeholder_aacs_without_key_material_is_unresolved() {
    let mut d = disc(true);
    let mut a = aacs(KeyOrigin::ExternalUk);
    a.unit_keys = Vec::new();
    a.vuk = None;
    d.aacs = Some(a);
    let ks = resolve_keys(&d);
    assert!(
        !ks.resolved,
        "empty unit_keys + no VUK must read as unresolved"
    );
    assert_eq!(ks.summary, "no-key");
}

#[test]
fn aacs_vuk_only_counts_as_resolved() {
    let mut d = disc(true);
    let mut a = aacs(KeyOrigin::KeyDb);
    a.unit_keys = Vec::new();
    a.vuk = Some([0x11; 16]);
    d.aacs = Some(a);
    assert!(resolve_keys(&d).resolved);
}

#[test]
fn encrypted_no_key_is_unresolved() {
    let ks = resolve_keys(&disc(true));
    assert!(!ks.resolved);
    assert_eq!(ks.summary, "no-key");
}

#[test]
fn missing_keydb_surfaces_no_keydb_summary() {
    let mut d = disc(true);
    d.aacs_error = Some(AacsError::KeydbLoad);
    let ks = resolve_keys(&d);
    assert!(!ks.resolved);
    assert_eq!(ks.summary, "no-keydb");
}
