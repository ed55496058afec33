//! Handing work to a consumer that may not take it, and pausing without going
//! deaf.

use vstd::prelude::*;

verus! {

/// Longest time between two looks at the halt token, in milliseconds.
pub const NAP_MS: u64 = 100;

/// Why an item was not handed over.
#[derive(Debug, Clone, Copy, PartialEq, Eq, Structural)]
pub enum SendStall {
    /// A halt was asked for while waiting. Not a failure.
    Halted,
    /// The consumer is gone.
    ConsumerGone,
    /// The consumer is there, and has not taken the item in time.
    Stalled,
}

/// What a try without waiting came to.
#[derive(Debug, Clone, Copy, PartialEq, Eq, Structural)]
pub enum Probe {
    Sent,
    Full,
    Disconnected,
}

/// What to do with an item.
#[derive(Debug, Clone, Copy, PartialEq, Eq, Structural)]
pub enum Handoff {
    /// It has been handed over.
    Done,
    /// Wait for room, for the halt or for the deadline.
    Wait,
    /// Try once more without waiting.
    TryAgain,
    /// It cannot be handed over.
    Failed(SendStall),
}

/// After a first try without waiting. Where there is room the item is handed
/// over, whatever was asked: a halt means to do no more work, not to throw away
/// what has been done.
pub fn after_first_try(p: Probe) -> (r: Handoff)
    ensures
        r == if p == Probe::Sent {
            Handoff::Done
        } else {
            Handoff::Wait
        },
{
    match p {
        Probe::Sent => Handoff::Done,
        Probe::Full | Probe::Disconnected => Handoff::Wait,
    }
}

/// After waiting. Where the item came back, a halt is the reason if one was
/// asked for; else one more try tells a dead consumer from a slow one.
pub fn after_wait(sent: bool, halted: bool) -> (r: Handoff)
    ensures
        r == if sent {
            Handoff::Done
        } else if halted {
            Handoff::Failed(SendStall::Halted)
        } else {
            Handoff::TryAgain
        },
{
    if sent {
        Handoff::Done
    } else if halted {
        Handoff::Failed(SendStall::Halted)
    } else {
        Handoff::TryAgain
    }
}

/// After the last try.
pub fn after_last_try(p: Probe) -> (r: Handoff)
    ensures
        r == match p {
            Probe::Sent => Handoff::Done,
            Probe::Disconnected => Handoff::Failed(SendStall::ConsumerGone),
            Probe::Full => Handoff::Failed(SendStall::Stalled),
        },
{
    match p {
        Probe::Sent => Handoff::Done,
        Probe::Disconnected => Handoff::Failed(SendStall::ConsumerGone),
        Probe::Full => Handoff::Failed(SendStall::Stalled),
    }
}

/// How long to sleep next of a pause.
pub open spec fn nap(total_ms: u64, elapsed_ms: u64, halted: bool) -> Option<u64> {
    if halted || elapsed_ms >= total_ms {
        None
    } else if total_ms - elapsed_ms <= NAP_MS {
        Some((total_ms - elapsed_ms) as u64)
    } else {
        Some(NAP_MS)
    }
}

/// A pause is over when its time is or a halt is asked for. Until then a nap is
/// never empty, never longer than a tenth of a second, never longer than what
/// is left, and shorter than a tenth of a second only where that is what is
/// left.
pub proof fn law_naps_fill_the_pause(total_ms: u64, elapsed_ms: u64, halted: bool)
    ensures
        nap(total_ms, elapsed_ms, halted) is None <==> halted || elapsed_ms >= total_ms,
        nap(total_ms, elapsed_ms, halted) matches Some(ms) ==> {
            &&& 0 < ms <= 100
            &&& elapsed_ms + ms <= total_ms
            &&& ms == 100 || elapsed_ms + ms == total_ms
        },
{
}

/// How a pause goes on: how long to sleep before the next look at the halt
/// token, or `None` when the pause is over.
pub fn next_nap(total_ms: u64, elapsed_ms: u64, halted: bool) -> (r: Option<u64>)
    ensures
        r == nap(total_ms, elapsed_ms, halted),
        r is None <==> halted || elapsed_ms >= total_ms,
        r matches Some(ms) ==> ms == if total_ms - elapsed_ms <= NAP_MS {
            total_ms - elapsed_ms
        } else {
            NAP_MS as int
        },
{
    if elapsed_ms >= total_ms || halted {
        return None;
    }
    let left: u64 = total_ms - elapsed_ms;
    if left <= NAP_MS {
        Some(left)
    } else {
        Some(NAP_MS)
    }
}

} // verus!
