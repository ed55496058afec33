//! What recovery needs to know of a scanned disc.

use crate::mapfile::Key;
use vstd::prelude::*;

verus! {

/// The kinds of disc.
#[derive(Debug, Clone, Copy, PartialEq, Eq, Structural)]
pub enum DiscFormat {
    Uhd,
    Fmts,
    BluRay,
    Dvd,
    HdDvd,
    Unknown,
}

/// Where a disc's AACS key came from.
#[derive(Debug, Clone, Copy, PartialEq, Eq, Structural)]
pub enum KeyOrigin {
    KeyDb,
    KeyDbDerived,
    KeyDbUnitKeys,
    /// A unit key supplied by the caller, whatever its source.
    ExternalUk,
    DeviceKey,
    ProcessingKey,
}

/// Why a disc's AACS keys could not be resolved.
#[derive(Debug, Clone, Copy, PartialEq, Eq, Structural)]
pub enum AacsError {
    /// No key database could be loaded.
    KeydbLoad,
    /// A key service could not be reached.
    KeyServiceUnavailable,
    /// A key service refused the credentials.
    KeyServiceUnauthorized,
    /// A key service asked to back off.
    KeyServiceRateLimited,
    /// Anything else.
    Other,
}

/// The AACS state of a scanned disc. Its presence does not mean that keys were
/// found.
#[derive(Debug)]
pub struct AacsState {
    pub key_source: KeyOrigin,
    pub vuk: Option<Key>,
    pub unit_keys: Vec<(u32, Key)>,
    pub volume_id: Key,
    pub disc_hash: String,
}

/// A scanned disc.
#[derive(Debug)]
pub struct Disc {
    pub format: DiscFormat,
    pub capacity_bytes: u64,
    pub encrypted: bool,
    pub aacs: Option<AacsState>,
    /// Whether a CSS key was recovered.
    pub css: bool,
    pub aacs_error: Option<AacsError>,
}

} // verus!
