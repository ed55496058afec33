//! The five states a byte range of a disc image can be in, and the two sets
//! of states that recovery decisions are made over.

use vstd::prelude::*;

verus! {

/// Status of a byte range in the mapfile. ddrescue-compatible.
#[derive(Debug, Clone, Copy, PartialEq, Eq, Structural)]
pub enum SectorStatus {
    /// `?`: not yet attempted. Initial state for a fresh mapfile.
    NonTried,
    /// `*`: fast-pass read failed; edges need trimming.
    NonTrimmed,
    /// `/`: trimmed; interior needs sector scrape.
    NonScraped,
    /// `-`: drive couldn't read it this session.
    Unreadable,
    /// `+`: good.
    Finished,
}

/// The ddrescue alphabet: the character each status is written as.
pub open spec fn status_char(s: SectorStatus) -> char {
    match s {
        SectorStatus::NonTried => '?',
        SectorStatus::NonTrimmed => '*',
        SectorStatus::NonScraped => '/',
        SectorStatus::Unreadable => '-',
        SectorStatus::Finished => '+',
    }
}

/// The status that a character stands for, if it stands for one.
pub open spec fn char_status(c: char) -> Option<SectorStatus> {
    if c == '?' {
        Some(SectorStatus::NonTried)
    } else if c == '*' {
        Some(SectorStatus::NonTrimmed)
    } else if c == '/' {
        Some(SectorStatus::NonScraped)
    } else if c == '-' {
        Some(SectorStatus::Unreadable)
    } else if c == '+' {
        Some(SectorStatus::Finished)
    } else {
        None
    }
}

impl SectorStatus {
    /// The one definition of "these bytes are confirmed good".
    pub fn is_finished(self) -> (r: bool)
        ensures
            r <==> self == SectorStatus::Finished,
    {
        match self {
            SectorStatus::Finished => true,
            SectorStatus::NonTried
            | SectorStatus::NonTrimmed
            | SectorStatus::NonScraped
            | SectorStatus::Unreadable => false,
        }
    }

    /// The single ddrescue status character for this status
    /// (`?`/`*`/`/`/`-`/`+`).
    pub fn to_char(self) -> (c: char)
        ensures
            c == status_char(self),
    {
        match self {
            SectorStatus::NonTried => '?',
            SectorStatus::NonTrimmed => '*',
            SectorStatus::NonScraped => '/',
            SectorStatus::Unreadable => '-',
            SectorStatus::Finished => '+',
        }
    }

    /// Parse a ddrescue status character. `None` for any character that is not
    /// one of `?*/-+`.
    pub fn from_char(c: char) -> (r: Option<SectorStatus>)
        ensures
            r == char_status(c),
            r is Some <==> exists|s: SectorStatus| c == status_char(s),
    {
        proof {
            lemma_status_chars(c);
        }
        match c {
            '?' => Some(SectorStatus::NonTried),
            '*' => Some(SectorStatus::NonTrimmed),
            '/' => Some(SectorStatus::NonScraped),
            '-' => Some(SectorStatus::Unreadable),
            '+' => Some(SectorStatus::Finished),
            _ => None,
        }
    }
}

proof fn lemma_status_chars(c: char)
    ensures
        char_status(c) is Some <==> exists|s: SectorStatus| c == status_char(s),
{
    if char_status(c) is Some {
        let s = char_status(c)->0;
        assert(c == status_char(s));
    }
}

/// Every status that is not [`SectorStatus::Finished`]: "not confirmed good".
/// This is the convergence set: what the multipass loop treats as still
/// unfinished, and what a front-end's loss report must count as bad.
pub fn bad_sector_statuses() -> (r: [SectorStatus; 4])
    ensures
        r@ == seq![
            SectorStatus::NonTried,
            SectorStatus::NonTrimmed,
            SectorStatus::NonScraped,
            SectorStatus::Unreadable,
        ],
        forall|s: SectorStatus| #[trigger] r@.contains(s) <==> s != SectorStatus::Finished,
{
    let r = [
        SectorStatus::NonTried,
        SectorStatus::NonTrimmed,
        SectorStatus::NonScraped,
        SectorStatus::Unreadable,
    ];
    assert(r@ =~= seq![
        SectorStatus::NonTried,
        SectorStatus::NonTrimmed,
        SectorStatus::NonScraped,
        SectorStatus::Unreadable,
    ]);
    assert(r@[0] == SectorStatus::NonTried && r@[1] == SectorStatus::NonTrimmed
        && r@[2] == SectorStatus::NonScraped && r@[3] == SectorStatus::Unreadable);
    r
}

/// The damage set: attempted and failed. Excludes `NonTried`, which is the
/// unread remainder rather than damage: counting it would report a whole
/// unswept disc as confirmed loss.
pub fn damage_sector_statuses() -> (r: [SectorStatus; 3])
    ensures
        r@ == seq![
            SectorStatus::NonTrimmed,
            SectorStatus::NonScraped,
            SectorStatus::Unreadable,
        ],
        forall|s: SectorStatus| #[trigger]
            r@.contains(s) <==> s != SectorStatus::Finished && s != SectorStatus::NonTried,
{
    let r = [
        SectorStatus::NonTrimmed,
        SectorStatus::NonScraped,
        SectorStatus::Unreadable,
    ];
    assert(r@ =~= seq![
        SectorStatus::NonTrimmed,
        SectorStatus::NonScraped,
        SectorStatus::Unreadable,
    ]);
    assert(r@[0] == SectorStatus::NonTrimmed && r@[1] == SectorStatus::NonScraped
        && r@[2] == SectorStatus::Unreadable);
    r
}

/// Reading back the character of a status gives the status, and a character
/// that reads as a status is that status's character.
pub proof fn law_status_char_round_trip(s: SectorStatus, c: char)
    ensures
        char_status(status_char(s)) == Some(s),
        char_status(c) is Some ==> status_char(char_status(c)->0) == c,
{
}

/// The alphabet that ddrescue writes.
pub proof fn law_the_alphabet(c: char)
    ensures
        status_char(SectorStatus::NonTried) == '?',
        status_char(SectorStatus::NonTrimmed) == '*',
        status_char(SectorStatus::NonScraped) == '/',
        status_char(SectorStatus::Unreadable) == '-',
        status_char(SectorStatus::Finished) == '+',
        char_status(c) is Some <==> c == '?' || c == '*' || c == '/' || c == '-' || c == '+',
{
}

/// No two statuses share a character.
pub proof fn law_status_chars_are_distinct(a: SectorStatus, b: SectorStatus)
    ensures
        status_char(a) == status_char(b) ==> a == b,
{
}

} // verus!
