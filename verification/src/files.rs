//! What the state of a file means for a rip, and what its mapfile is called.

use crate::copy::IsoLen;
use vstd::prelude::*;
use vstd::string::StringExecFns;

verus! {

/// The name of an image's mapfile: the image's own, and `.mapfile`.
pub fn mapfile_path_for(iso_path: &str) -> (r: String)
    ensures
        r@ == iso_path@ + ".mapfile"@,
{
    let path: String = iso_path.to_owned();
    path.concat(".mapfile")
}

/// What asking for a file's metadata came to.
#[derive(Debug, Clone, Copy, PartialEq, Eq, Structural)]
pub enum FileStat {
    /// The file is there.
    Found { len: u64, regular: bool },
    /// There is no such file.
    NotFound,
    /// The question itself failed.
    Failed,
}

/// A file operation failed in a way that says nothing about the file.
#[derive(Debug, Clone, Copy, PartialEq, Eq, Structural)]
pub struct Unknown;

/// The length of an image. Only a file that is not found is missing: any other
/// failure is unknown, and to take it for an empty image would have the image
/// overwritten.
pub fn iso_len_from_metadata(stat: FileStat) -> (r: Result<IsoLen, Unknown>)
    ensures
        r == match stat {
            FileStat::Found { len, .. } => Ok(IsoLen::Len(len)),
            FileStat::NotFound => Ok(IsoLen::Missing),
            FileStat::Failed => Err(Unknown),
        },
{
    match stat {
        FileStat::Found { len, regular: _ } => Ok(IsoLen::Len(len)),
        FileStat::NotFound => Ok(IsoLen::Missing),
        FileStat::Failed => Err(Unknown),
    }
}

/// Whether an output is a regular file, whose writes have to reach the disk.
/// Where the question fails, it is taken for one: a failure is then reported
/// rather than swallowed.
pub fn output_is_regular(stat: FileStat) -> (r: bool)
    ensures
        r == (stat matches FileStat::Found { regular, .. } ==> regular),
{
    match stat {
        FileStat::Found { len: _, regular } => regular,
        FileStat::NotFound => true,
        FileStat::Failed => true,
    }
}

/// What removing a file came to.
#[derive(Debug, Clone, Copy, PartialEq, Eq, Structural)]
pub enum Removal {
    Removed,
    NotFound,
    Failed,
}

/// Whether a fresh sweep may begin once its stale mapfile was to be removed. A
/// mapfile that stays would hand the old disc's good ranges to the new.
pub fn stale_mapfile_removed(r: Removal) -> (ok: Result<(), Unknown>)
    ensures
        ok == match r {
            Removal::Removed | Removal::NotFound => Ok::<(), Unknown>(()),
            Removal::Failed => Err(Unknown),
        },
{
    match r {
        Removal::Removed | Removal::NotFound => Ok(()),
        Removal::Failed => Err(Unknown),
    }
}

/// Whether a failed flush of an output is an error: only a regular file's is.
pub fn sync_failure_matters(is_regular: bool, sync_ok: bool) -> (r: bool)
    ensures
        r == (is_regular && !sync_ok),
{
    is_regular && !sync_ok
}

} // verus!
