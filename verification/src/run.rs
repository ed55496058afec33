//! From a job to a copy.

use vstd::prelude::*;

verus! {

/// How often a disc is gone over.
#[derive(Debug, Clone, Copy, PartialEq, Eq, Structural)]
pub enum RipMode {
    /// Once; the first failed read ends it.
    Single,
    /// Once over everything, then again over what is damaged.
    Multi,
}

/// How a copy is to be made.
#[derive(Debug, Clone, Copy, PartialEq, Eq, Structural)]
pub struct CopyPlan {
    pub decrypt: bool,
    pub multipass: bool,
}

/// A multipass copy recovers a whole image and cannot decrypt.
#[derive(Debug, Clone, Copy, PartialEq, Eq, Structural)]
pub struct MultipassRequiresRaw;

/// How a job is to be copied. A job that asks for more than one pass and for
/// decryption is refused, rather than handed an image it would take for a
/// decrypted one.
pub fn copy_plan(mode: RipMode, raw: bool) -> (r: Result<CopyPlan, MultipassRequiresRaw>)
    ensures
        r == if mode == RipMode::Multi && !raw {
            Err::<CopyPlan, MultipassRequiresRaw>(MultipassRequiresRaw)
        } else {
            Ok(CopyPlan { decrypt: !raw, multipass: mode == RipMode::Multi })
        },
{
    let multipass: bool = match mode {
        RipMode::Multi => true,
        RipMode::Single => false,
    };
    if multipass && !raw {
        return Err(MultipassRequiresRaw);
    }
    Ok(CopyPlan { decrypt: !raw, multipass })
}

/// No copy both decrypts and takes more than one pass.
pub proof fn law_multipass_implies_raw(mode: RipMode, raw: bool, p: CopyPlan)
    requires
        !(mode == RipMode::Multi && !raw),
        p == (CopyPlan { decrypt: !raw, multipass: mode == RipMode::Multi }),
    ensures
        p.multipass ==> !p.decrypt,
{
}

} // verus!
