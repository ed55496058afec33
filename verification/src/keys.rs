//! Whether a scanned disc can be decrypted, and from where: as data, not as
//! log lines.

use crate::disc::{AacsError, AacsState, Disc, KeyOrigin};
use vstd::prelude::*;

verus! {

/// The key state of a disc.
#[derive(Debug)]
pub struct KeyStatus {
    pub resolved: bool,
    pub origin: Option<KeyOrigin>,
    pub keydb_entries: Option<u64>,
    /// A stable key for a front-end to localize.
    pub summary: String,
}

impl KeyStatus {
    /// The status of a disc without a key.
    pub fn unresolved(summary: &str) -> (r: KeyStatus)
        ensures
            !r.resolved,
            r.origin is None,
            r.keydb_entries is None,
            r.summary@ == summary@,
    {
        KeyStatus {
            resolved: false,
            origin: None,
            keydb_entries: None,
            summary: summary.to_owned(),
        }
    }

    /// The status of a disc that needs no key, or has one.
    fn resolved(origin: Option<KeyOrigin>, summary: &str) -> (r: KeyStatus)
        ensures
            r.resolved,
            r.origin == origin,
            r.keydb_entries is None,
            r.summary@ == summary@,
    {
        KeyStatus { resolved: true, origin, keydb_entries: None, summary: summary.to_owned() }
    }
}

/// Whether AACS state holds real key material. A scan that only reads the
/// volume id leaves state without any.
pub open spec fn has_key(a: AacsState) -> bool {
    a.unit_keys@.len() > 0 || a.vuk is Some
}

/// What the origin of a key is called.
pub open spec fn origin_summary(o: KeyOrigin) -> Seq<char> {
    match o {
        KeyOrigin::KeyDb | KeyOrigin::KeyDbDerived | KeyOrigin::KeyDbUnitKeys => "resolved-keydb"@,
        KeyOrigin::ExternalUk => "resolved-external"@,
        KeyOrigin::DeviceKey | KeyOrigin::ProcessingKey => "resolved-derived"@,
    }
}

/// What the lack of a key is called. That a key source failed is no proof that
/// there is no key.
pub open spec fn failure_summary(e: Option<AacsError>) -> Seq<char> {
    match e {
        Some(AacsError::KeydbLoad) => "no-keydb"@,
        Some(AacsError::KeyServiceUnavailable) => "key-service-unavailable"@,
        Some(AacsError::KeyServiceUnauthorized) => "key-service-unauthorized"@,
        Some(AacsError::KeyServiceRateLimited) => "key-service-rate-limited"@,
        _ => "no-key"@,
    }
}

/// Whether a disc needs no key or has one.
pub open spec fn decryptable(d: Disc) -> bool {
    !d.encrypted || (d.aacs is Some && has_key(d.aacs->0)) || d.css
}

/// What the key state of a disc is called.
pub open spec fn summary_of(d: Disc) -> Seq<char> {
    if !d.encrypted {
        "unencrypted"@
    } else if d.aacs is Some && has_key(d.aacs->0) {
        origin_summary((d.aacs->0).key_source)
    } else if d.css {
        "resolved-css"@
    } else {
        failure_summary(d.aacs_error)
    }
}

/// The origin of the key of a disc, where it is an AACS key.
pub open spec fn origin_of(d: Disc) -> Option<KeyOrigin> {
    if d.encrypted && d.aacs is Some && has_key(d.aacs->0) {
        Some((d.aacs->0).key_source)
    } else {
        None
    }
}

/// The key state of an already scanned disc.
pub fn resolve_keys(disc: &Disc) -> (r: KeyStatus)
    ensures
        r.resolved == decryptable(*disc),
        r.origin == origin_of(*disc),
        r.keydb_entries is None,
        r.summary@ == summary_of(*disc),
{
    if !disc.encrypted {
        return KeyStatus::resolved(None, "unencrypted");
    }
    if let Some(aacs) = &disc.aacs {
        if aacs.unit_keys.len() > 0 || aacs.vuk.is_some() {
            let summary: &str = match aacs.key_source {
                KeyOrigin::KeyDb | KeyOrigin::KeyDbDerived | KeyOrigin::KeyDbUnitKeys => {
                    "resolved-keydb"
                },
                KeyOrigin::ExternalUk => "resolved-external",
                KeyOrigin::DeviceKey | KeyOrigin::ProcessingKey => "resolved-derived",
            };
            return KeyStatus::resolved(Some(aacs.key_source), summary);
        }
    }
    if disc.css {
        return KeyStatus::resolved(None, "resolved-css");
    }
    let summary: &str = match disc.aacs_error {
        Some(AacsError::KeydbLoad) => "no-keydb",
        Some(AacsError::KeyServiceUnavailable) => "key-service-unavailable",
        Some(AacsError::KeyServiceUnauthorized) => "key-service-unauthorized",
        Some(AacsError::KeyServiceRateLimited) => "key-service-rate-limited",
        Some(AacsError::Other) => "no-key",
        None => "no-key",
    };
    KeyStatus::unresolved(summary)
}

/// Why a disc cannot be decrypted.
#[derive(Debug, PartialEq, Eq)]
pub enum KeyRefusal {
    KeyServiceUnavailable,
    KeyServiceUnauthorized,
    KeyServiceRateLimited,
    /// There is no key for the disc with this hash; the hash is empty where it
    /// is not known.
    NoDiscKey { disc_hash: String },
}

/// Whether a refusal is that of a disc: a key source that failed keeps its
/// verdict.
pub open spec fn refusal_of(d: Disc, k: KeyRefusal) -> bool {
    match d.aacs_error {
        Some(AacsError::KeyServiceUnavailable) => k == KeyRefusal::KeyServiceUnavailable,
        Some(AacsError::KeyServiceUnauthorized) => k == KeyRefusal::KeyServiceUnauthorized,
        Some(AacsError::KeyServiceRateLimited) => k == KeyRefusal::KeyServiceRateLimited,
        _ => k matches KeyRefusal::NoDiscKey { disc_hash } && disc_hash@ == match d.aacs {
            Some(a) => a.disc_hash@,
            None => Seq::<char>::empty(),
        },
    }
}

/// Refuse to decrypt a disc whose keys are not resolved. A raw copy needs no
/// key.
pub fn ensure_decryptable_strict(disc: &Disc, raw: bool) -> (r: Result<(), KeyRefusal>)
    ensures
        r is Ok <==> raw || decryptable(*disc),
        r matches Err(k) ==> refusal_of(*disc, k),
{
    if disc.encrypted && !raw && !resolve_keys(disc).resolved {
        match disc.aacs_error {
            Some(AacsError::KeyServiceUnavailable) => {
                return Err(KeyRefusal::KeyServiceUnavailable);
            },
            Some(AacsError::KeyServiceUnauthorized) => {
                return Err(KeyRefusal::KeyServiceUnauthorized);
            },
            Some(AacsError::KeyServiceRateLimited) => {
                return Err(KeyRefusal::KeyServiceRateLimited);
            },
            _ => {},
        }
        let disc_hash: String = match &disc.aacs {
            Some(a) => a.disc_hash.clone(),
            None => String::new(),
        };
        return Err(KeyRefusal::NoDiscKey { disc_hash });
    }
    Ok(())
}

/// Refusal and status agree: a disc that is to be decrypted passes exactly
/// where its keys are resolved, and is refused with the failure that the status
/// names.
pub proof fn law_refusal_agrees_with_the_status(d: Disc, k: KeyRefusal)
    requires
        !decryptable(d),
        refusal_of(d, k),
    ensures
        summary_of(d) == failure_summary(d.aacs_error),
        k == KeyRefusal::KeyServiceUnavailable <==> d.aacs_error == Some(
            AacsError::KeyServiceUnavailable,
        ),
        k == KeyRefusal::KeyServiceUnauthorized <==> d.aacs_error == Some(
            AacsError::KeyServiceUnauthorized,
        ),
        k == KeyRefusal::KeyServiceRateLimited <==> d.aacs_error == Some(
            AacsError::KeyServiceRateLimited,
        ),
{
}

/// When a disc can be decrypted, and what its key state is called. An AACS disc
/// needs a unit key or a volume unique key; one without either is as good as
/// without AACS state.
pub proof fn law_the_key_state_of_a_disc(d: Disc)
    ensures
        ({
            let keyed = d.aacs is Some && ((d.aacs->0).unit_keys@.len() > 0 || (
            d.aacs->0).vuk is Some);
            &&& decryptable(d) <==> !d.encrypted || keyed || d.css
            &&& origin_of(d) == if d.encrypted && keyed {
                Some((d.aacs->0).key_source)
            } else {
                None
            }
            &&& !d.encrypted ==> summary_of(d) == "unencrypted"@
            &&& d.encrypted && keyed ==> match (d.aacs->0).key_source {
                KeyOrigin::KeyDb => summary_of(d) == "resolved-keydb"@,
                KeyOrigin::KeyDbDerived => summary_of(d) == "resolved-keydb"@,
                KeyOrigin::KeyDbUnitKeys => summary_of(d) == "resolved-keydb"@,
                KeyOrigin::ExternalUk => summary_of(d) == "resolved-external"@,
                KeyOrigin::DeviceKey => summary_of(d) == "resolved-derived"@,
                KeyOrigin::ProcessingKey => summary_of(d) == "resolved-derived"@,
            }
            &&& d.encrypted && !keyed && d.css ==> summary_of(d) == "resolved-css"@
            &&& d.encrypted && !keyed && !d.css ==> match d.aacs_error {
                None => summary_of(d) == "no-key"@,
                Some(AacsError::Other) => summary_of(d) == "no-key"@,
                Some(AacsError::KeydbLoad) => summary_of(d) == "no-keydb"@,
                Some(AacsError::KeyServiceUnavailable) => summary_of(d)
                    == "key-service-unavailable"@,
                Some(AacsError::KeyServiceUnauthorized) => summary_of(d)
                    == "key-service-unauthorized"@,
                Some(AacsError::KeyServiceRateLimited) => summary_of(d)
                    == "key-service-rate-limited"@,
            }
        }),
{
}

/// A disc that is refused without a fault of a key source is refused for want of
/// a key, under its own hash, or under an empty one where it has none.
pub proof fn law_a_disc_is_refused_under_its_hash(d: Disc, k: KeyRefusal)
    requires
        refusal_of(d, k),
        d.aacs_error is None || d.aacs_error == Some(AacsError::Other) || d.aacs_error == Some(
            AacsError::KeydbLoad,
        ),
    ensures
        k is NoDiscKey,
        k matches KeyRefusal::NoDiscKey { disc_hash } ==> if d.aacs is Some {
            disc_hash@ == (d.aacs->0).disc_hash@
        } else {
            disc_hash@.len() == 0
        },
{
}

/// State without key material is not a resolved key.
pub proof fn law_placeholder_state_is_unresolved(d: Disc)
    requires
        d.encrypted,
        !d.css,
        d.aacs matches Some(a) ==> !has_key(a),
    ensures
        !decryptable(d),
        origin_of(d) is None,
{
}

} // verus!
