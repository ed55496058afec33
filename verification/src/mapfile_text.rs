//! The mapfile as text: ddrescue's line format, plus two comment headers that
//! say which disc the mapfile belongs to.
//!
//! ```text
//! # Rescue Logfile. Created by freemkv-engine vX.Y.Z
//! # Current pos / status / pass / pass_time
//! 0x000000000  ?  1  0
//! #      pos        size  status
//! 0x000000000  0x012345678    +
//! 0x012345678  0x000001000    -
//! 0x012346678  0x001234500    ?
//! ```

use crate::entries::{
    chain, count_with, lemma_chain_concat, no_empty, ordered, partitions, MapEntry,
};
use crate::mapfile::{fresh_map, stats_match, Key, MapView, Mapfile, MapfileInvalid};
use crate::status::{char_status, status_char, SectorStatus};
use crate::text::{
    after_prefix, all_digits, digit, digit_char, digit_rank, digits_of, lemma_trimmed_len,
    lemma_words_take_room, padded_digits, parse_unsigned, push_digits, push_padded, rank,
    split_words, strip_prefix, trim, trim_start, trimmed, unsigned_value, views, words,
};
use vstd::prelude::*;
use vstd::slice::slice_subrange;

verus! {

/// `String::push` of std: appends the character to the end of the string.
pub assume_specification[ String::push ](s: &mut String, c: char)
    ensures
        final(s)@ == old(s)@.push(c),
;

// ---------------------------------------------------------------------------
// Numbers and keys
// ---------------------------------------------------------------------------

/// The number in a position or size field: hexadecimal digits, with or
/// without `0x` in front.
pub open spec fn hex_value(s: Seq<char>) -> Option<nat> {
    let d = match after_prefix(s, "0x"@) {
        Some(d) => d,
        None => s,
    };
    unsigned_value(d, 16, u64::MAX as nat)
}

/// The digits of a key: the string without `0x` or `0X` in front.
pub open spec fn key_digits(s: Seq<char>) -> Seq<char> {
    match after_prefix(s, "0x"@) {
        Some(d) => d,
        None => match after_prefix(s, "0X"@) {
            Some(d) => d,
            None => s,
        },
    }
}

/// The sixteen bytes that thirty-two hexadecimal digits write.
pub open spec fn key_value(s: Seq<char>) -> Option<Seq<u8>> {
    let d = key_digits(s);
    if d.len() == 32 && all_digits(d, 16) {
        Some(
            Seq::new(16, |i: int| (digit_rank(d[2 * i]) * 16 + digit_rank(d[2 * i + 1])) as u8),
        )
    } else {
        None
    }
}

/// The CPS unit and the key that `<cps>:<32 hex digits>` writes.
pub open spec fn unit_key_value(s: Seq<char>) -> Option<(u32, Seq<u8>)> {
    if s.contains(':') {
        let k = s.index_of_first(':')->0;
        match (
            unsigned_value(trimmed(s.take(k)), 10, u32::MAX as nat),
            key_value(trimmed(s.skip(k + 1))),
        ) {
            (Some(cps), Some(key)) => Some((cps as u32, key)),
            _ => None,
        }
    } else {
        None
    }
}

/// A volume id's bytes.
pub open spec fn key_bytes(k: Option<Key>) -> Option<Seq<u8>> {
    match k {
        Some(k) => Some(k@),
        None => None,
    }
}

/// The units and bytes of a list of keys.
pub open spec fn keys_bytes(ks: Seq<(u32, Key)>) -> Seq<(u32, Seq<u8>)> {
    ks.map_values(|k: (u32, Key)| (k.0, k.1@))
}

/// Parse a position or size field.
pub fn parse_hex(s: &[char]) -> (r: Result<u64, MapfileInvalid>)
    ensures
        r is Ok <==> hex_value(s@) is Some,
        r is Ok ==> hex_value(s@) == Some(r->Ok_0 as nat),
        r is Err ==> r == Err::<u64, MapfileInvalid>(MapfileInvalid::Hex),
{
    let d: &[char] = match strip_prefix(s, "0x") {
        Some(d) => d,
        None => s,
    };
    match parse_unsigned(d, 16, u64::MAX) {
        Some(v) => Ok(v),
        None => Err(MapfileInvalid::Hex),
    }
}

/// Parse a volume id or a key.
pub fn parse_vid_hex(s: &[char]) -> (r: Option<Key>)
    ensures
        key_bytes(r) == key_value(s@),
{
    let d: &[char] = match strip_prefix(s, "0x") {
        Some(d) => d,
        None => match strip_prefix(s, "0X") {
            Some(d) => d,
            None => s,
        },
    };
    assert(d@ == key_digits(s@));
    if d.len() != 32 {
        return None;
    }
    let mut key: Key = [0u8; 16];
    let ghost want = Seq::new(
        16,
        |i: int| (digit_rank(d@[2 * i]) * 16 + digit_rank(d@[2 * i + 1])) as u8,
    );
    let mut i: usize = 0;
    while i < 16
        invariant
            i <= 16,
            d@.len() == 32,
            key@.len() == 16,
            want == Seq::new(
                16,
                |i: int| (digit_rank(d@[2 * i]) * 16 + digit_rank(d@[2 * i + 1])) as u8,
            ),
            d@ == key_digits(s@),
            forall|j: int| 0 <= j < 2 * i ==> digit_rank(#[trigger] d@[j]) < 16,
            forall|j: int| 0 <= j < i ==> #[trigger] key@[j] == want[j],
        decreases 16 - i,
    {
        let hi: u64 = rank(d[2 * i]);
        let lo: u64 = rank(d[2 * i + 1]);
        if hi >= 16 || lo >= 16 {
            assert(!all_digits(d@, 16));
            return None;
        }
        key[i] = (hi * 16 + lo) as u8;
        assert(key@[i as int] == want[i as int]);
        i = i + 1;
    }
    assert(key@ =~= want);
    Some(key)
}

/// Parse the value of a unit key header.
pub fn parse_uk_line(s: &[char]) -> (r: Option<(u32, Key)>)
    ensures
        r is Some <==> unit_key_value(s@) is Some,
        r matches Some((cps, key)) ==> unit_key_value(s@) == Some((cps, key@)),
{
    let mut k: usize = 0;
    while k < s.len() && s[k] != ':'
        invariant
            k <= s@.len(),
            forall|j: int| 0 <= j < k ==> s@[j] != ':',
        decreases s@.len() - k,
    {
        k = k + 1;
    }
    if k == s.len() {
        return None;
    }
    proof {
        assert(s@[k as int] == ':');
        s@.index_of_first_ensures(':');
    }
    let cps = parse_unsigned(trim(slice_subrange(s, 0, k)), 10, u32::MAX as u64);
    assert(s@.subrange(0, k as int) =~= s@.take(k as int));
    let key = parse_vid_hex(trim(slice_subrange(s, k + 1, s.len())));
    assert(s@.subrange(k + 1, s@.len() as int) =~= s@.skip(k + 1));
    match (cps, key) {
        (Some(cps), Some(key)) => Some((cps as u32, key)),
        _ => None,
    }
}

// ---------------------------------------------------------------------------
// Reading
// ---------------------------------------------------------------------------

/// The header that names the writer.
pub open spec fn created_by() -> Seq<char> {
    "Rescue Logfile. Created by "@
}

/// What has been read of a mapfile's text so far.
#[verifier::ext_equal]
pub struct Reading {
    /// The ranges, in the order of their lines.
    pub entries: Seq<MapEntry>,
    /// Whether a line other than a comment has been seen.
    pub past_first: bool,
    pub version: Seq<char>,
    pub vid: Option<Seq<u8>>,
    pub unit_keys: Seq<(u32, Seq<u8>)>,
}

/// Nothing read yet.
pub open spec fn nothing_read() -> Reading {
    Reading {
        entries: seq![],
        past_first: false,
        version: "unknown"@,
        vid: None,
        unit_keys: seq![],
    }
}

/// Whether the fields are those of ddrescue's "current state" line: the second
/// is a single status character, where a data line has a size.
pub open spec fn is_state_line(f: Seq<Seq<char>>) -> bool {
    f.len() >= 2 && f[1].len() == 1 && char_status(f[1][0]) is Some
}

/// The range that the fields of a data line write.
pub open spec fn data_entry(f: Seq<Seq<char>>) -> Result<MapEntry, MapfileInvalid> {
    if f.len() < 3 {
        Err(MapfileInvalid::ShortLine)
    } else if hex_value(f[0]) is None || hex_value(f[1]) is None {
        Err(MapfileInvalid::Hex)
    } else if hex_value(f[0])->0 + hex_value(f[1])->0 > u64::MAX {
        Err(MapfileInvalid::Range)
    } else if hex_value(f[1])->0 == 0 {
        Err(MapfileInvalid::ZeroSize)
    } else if char_status(f[2][0]) is None {
        Err(MapfileInvalid::StatusChar)
    } else {
        Ok(
            MapEntry {
                pos: hex_value(f[0])->0 as u64,
                size: hex_value(f[1])->0 as u64,
                status: char_status(f[2][0])->0,
            },
        )
    }
}

/// What a comment adds. A header that claims to identify the disc and does not
/// is refused: dropping it would pass the mapfile off as one without identity.
pub open spec fn read_comment(st: Reading, body: Seq<char>) -> Result<Reading, MapfileInvalid> {
    match after_prefix(body, created_by()) {
        Some(v) => Ok(Reading { version: v, ..st }),
        None => match after_prefix(body, "freemkv-vid:"@) {
            Some(hex) => match key_value(trimmed(hex)) {
                Some(k) => Ok(Reading { vid: Some(k), ..st }),
                None => Err(MapfileInvalid::Vid),
            },
            None => match after_prefix(body, "freemkv-uk:"@) {
                Some(uk) => match unit_key_value(trimmed(uk)) {
                    Some(k) => Ok(Reading { unit_keys: st.unit_keys.push(k), ..st }),
                    None => Err(MapfileInvalid::UnitKey),
                },
                None => Ok(st),
            },
        },
    }
}

/// What a line adds.
pub open spec fn read_line(st: Reading, line: Seq<char>) -> Result<Reading, MapfileInvalid> {
    let t = trimmed(line);
    if t.len() == 0 {
        Ok(st)
    } else if t[0] == '#' {
        read_comment(st, trimmed(t.skip(1)))
    } else if !st.past_first && is_state_line(words(t)) {
        Ok(Reading { past_first: true, ..st })
    } else {
        match data_entry(words(t)) {
            Ok(e) => Ok(Reading { entries: st.entries.push(e), past_first: true, ..st }),
            Err(k) => Err(k),
        }
    }
}

/// Where the first line of a text ends.
pub open spec fn line_end(s: Seq<char>) -> int
    decreases s.len(),
{
    if s.len() == 0 || s[0] == '\n' {
        0
    } else {
        1 + line_end(s.drop_first())
    }
}

/// The end of the first line lies in the text, at a line feed or at its end.
pub proof fn lemma_line_end(s: Seq<char>)
    ensures
        0 <= line_end(s) <= s.len(),
        line_end(s) < s.len() ==> s[line_end(s)] == '\n',
        forall|i: int| 0 <= i < line_end(s) ==> s[i] != '\n',
    decreases s.len(),
{
    if s.len() > 0 && s[0] != '\n' {
        let r = s.drop_first();
        lemma_line_end(r);
        assert forall|i: int| 0 <= i < line_end(s) implies s[i] != '\n' by {
            if i > 0 {
                assert(s[i] == r[i - 1]);
            }
        }
    }
}

/// What the lines of a text add.
pub open spec fn read_lines(st: Reading, s: Seq<char>) -> Result<Reading, MapfileInvalid>
    decreases s.len()
        via read_lines_shrinks
{
    let k = line_end(s);
    match read_line(st, s.take(k)) {
        Err(e) => Err(e),
        Ok(next) => if k < s.len() {
            read_lines(next, s.skip(k + 1))
        } else {
            Ok(next)
        },
    }
}

#[via_fn]
proof fn read_lines_shrinks(st: Reading, s: Seq<char>) {
    lemma_line_end(s);
}

/// An entry put in its place among entries in position order, after those of
/// the same position.
pub open spec fn placed(es: Seq<MapEntry>, e: MapEntry) -> Seq<MapEntry>
    decreases es.len(),
{
    if es.len() == 0 || es.last().pos <= e.pos {
        es.push(e)
    } else {
        placed(es.drop_last(), e).push(es.last())
    }
}

/// Entries in position order, those of one position in the order they had.
pub open spec fn arranged(es: Seq<MapEntry>) -> Seq<MapEntry>
    decreases es.len(),
{
    if es.len() == 0 {
        seq![]
    } else {
        placed(arranged(es.drop_last()), es.last())
    }
}

/// Where a list of entries ends.
pub open spec fn list_end(es: Seq<MapEntry>) -> int {
    if es.len() == 0 {
        0
    } else {
        es.last().end()
    }
}

/// Entries with every gap, from zero on, filled as not yet tried. `None` where
/// two of them overlap.
pub open spec fn filled(es: Seq<MapEntry>) -> Option<Seq<MapEntry>>
    decreases es.len(),
{
    if es.len() == 0 {
        Some(seq![])
    } else {
        match filled(es.drop_last()) {
            None => None,
            Some(f) => {
                let cursor = list_end(f);
                let e = es.last();
                if e.pos < cursor {
                    None
                } else if e.pos > cursor {
                    Some(
                        f.push(
                            MapEntry {
                                pos: cursor as u64,
                                size: (e.pos - cursor) as u64,
                                status: SectorStatus::NonTried,
                            },
                        ).push(e),
                    )
                } else {
                    Some(f.push(e))
                }
            },
        }
    }
}

/// What a mapfile's text says.
#[verifier::ext_equal]
pub struct Parsed {
    pub entries: Seq<MapEntry>,
    pub version: Seq<char>,
    pub vid: Option<Seq<u8>>,
    pub unit_keys: Seq<(u32, Seq<u8>)>,
}

/// What a mapfile's text says, or what is wrong with it. Unit keys win over a
/// volume id.
pub open spec fn parsed(text: Seq<char>) -> Result<Parsed, MapfileInvalid> {
    match read_lines(nothing_read(), text) {
        Err(k) => Err(k),
        Ok(st) => match filled(arranged(st.entries)) {
            None => Err(MapfileInvalid::Overlap),
            Some(es) => Ok(
                Parsed {
                    entries: es,
                    version: st.version,
                    vid: if st.unit_keys.len() > 0 {
                        None
                    } else {
                        st.vid
                    },
                    unit_keys: st.unit_keys,
                },
            ),
        },
    }
}

/// The characters of a string.
pub fn chars_of(s: &str) -> (r: Vec<char>)
    ensures
        r@ == s@,
{
    let mut out: Vec<char> = Vec::new();
    for c in it: s.chars()
        invariant
            it.seq() == s@,
            out@ == s@.take(it.index() as int),
    {
        out.push(c);
        assert(out@ =~= s@.take(it.index() + 1));
    }
    assert(out@ =~= s@);
    out
}

/// The string of some characters.
pub fn string_of(s: &[char]) -> (r: String)
    ensures
        r@ == s@,
{
    let mut out: String = String::new();
    let mut i: usize = 0;
    assert(s@.take(0) =~= seq![]);
    while i < s.len()
        invariant
            i <= s@.len(),
            out@ == s@.take(i as int),
        decreases s@.len() - i,
    {
        out.push(s[i]);
        assert(s@.take(i + 1) =~= s@.take(i as int).push(s@[i as int]));
        i = i + 1;
    }
    assert(s@.take(i as int) =~= s@);
    out
}

/// Read the range that the fields of a data line write.
fn read_entry(f: &Vec<&[char]>) -> (r: Result<MapEntry, MapfileInvalid>)
    requires
        forall|k: int| 0 <= k < f@.len() ==> (#[trigger] f@[k])@.len() > 0,
    ensures
        r == data_entry(views(f@)),
{
    assert(views(f@).len() == f@.len());
    if f.len() < 3 {
        return Err(MapfileInvalid::ShortLine);
    }
    assert(views(f@)[0] == f@[0]@ && views(f@)[1] == f@[1]@ && views(f@)[2] == f@[2]@);
    let pos: u64 = match parse_hex(f[0]) {
        Ok(v) => v,
        Err(k) => {
            return Err(k);
        },
    };
    let size: u64 = match parse_hex(f[1]) {
        Ok(v) => v,
        Err(k) => {
            return Err(k);
        },
    };
    if pos.checked_add(size).is_none() {
        return Err(MapfileInvalid::Range);
    }
    if size == 0 {
        return Err(MapfileInvalid::ZeroSize);
    }
    match SectorStatus::from_char(f[2][0]) {
        Some(status) => Ok(MapEntry { pos, size, status }),
        None => Err(MapfileInvalid::StatusChar),
    }
}

/// A mapfile being read.
struct Reader {
    entries: Vec<MapEntry>,
    past_first: bool,
    version: String,
    vid: Option<Key>,
    unit_keys: Vec<(u32, Key)>,
}

impl View for Reader {
    type V = Reading;

    closed spec fn view(&self) -> Reading {
        Reading {
            entries: self.entries@,
            past_first: self.past_first,
            version: self.version@,
            vid: key_bytes(self.vid),
            unit_keys: keys_bytes(self.unit_keys@),
        }
    }
}

impl Reader {
    fn comment(&mut self, body: &[char]) -> (r: Result<(), MapfileInvalid>)
        ensures
            r is Ok ==> read_comment(old(self)@, body@) == Ok::<Reading, MapfileInvalid>(
                final(self)@,
            ),
            r matches Err(k) ==> read_comment(old(self)@, body@) == Err::<
                Reading,
                MapfileInvalid,
            >(k),
    {
        if let Some(v) = strip_prefix(body, "Rescue Logfile. Created by ") {
            self.version = string_of(v);
            return Ok(());
        }
        if let Some(hex) = strip_prefix(body, "freemkv-vid:") {
            match parse_vid_hex(trim(hex)) {
                Some(k) => {
                    self.vid = Some(k);
                    return Ok(());
                },
                None => {
                    return Err(MapfileInvalid::Vid);
                },
            }
        }
        if let Some(uk) = strip_prefix(body, "freemkv-uk:") {
            match parse_uk_line(trim(uk)) {
                Some(k) => {
                    self.unit_keys.push(k);
                    assert(keys_bytes(self.unit_keys@) =~= keys_bytes(old(self).unit_keys@).push(
                        (k.0, k.1@),
                    ));
                    return Ok(());
                },
                None => {
                    return Err(MapfileInvalid::UnitKey);
                },
            }
        }
        Ok(())
    }

    fn line(&mut self, line: &[char]) -> (r: Result<(), MapfileInvalid>)
        ensures
            r is Ok ==> read_line(old(self)@, line@) == Ok::<Reading, MapfileInvalid>(
                final(self)@,
            ),
            r matches Err(k) ==> read_line(old(self)@, line@) == Err::<Reading, MapfileInvalid>(k),
    {
        let t: &[char] = trim(line);
        if t.len() == 0 {
            return Ok(());
        }
        if t[0] == '#' {
            let body: &[char] = trim(slice_subrange(t, 1, t.len()));
            assert(t@.subrange(1, t@.len() as int) =~= t@.skip(1));
            return self.comment(body);
        }
        let f: Vec<&[char]> = split_words(t);
        assert(forall|k: int|
            0 <= k < f@.len() ==> #[trigger] views(f@)[k] == f@[k]@);
        if !self.past_first {
            self.past_first = true;
            if f.len() >= 2 && f[1].len() == 1 && SectorStatus::from_char(f[1][0]).is_some() {
                return Ok(());
            }
        }
        match read_entry(&f) {
            Ok(e) => {
                self.entries.push(e);
                Ok(())
            },
            Err(k) => Err(k),
        }
    }
}

/// Every entry ends within the address space and none is empty.
pub open spec fn sound(es: Seq<MapEntry>) -> bool {
    forall|i: int| 0 <= i < es.len() ==> (#[trigger] es[i]).size > 0 && es[i].end() <= u64::MAX
}

proof fn lemma_placed(es: Seq<MapEntry>, e: MapEntry, k: int)
    requires
        0 <= k <= es.len(),
        k == 0 || es[k - 1].pos <= e.pos,
        forall|i: int| k <= i < es.len() ==> (#[trigger] es[i]).pos > e.pos,
    ensures
        placed(es, e) == es.insert(k, e),
    decreases es.len(),
{
    if k < es.len() {
        lemma_placed(es.drop_last(), e, k);
        assert(es.drop_last().insert(k, e).push(es.last()) =~= es.insert(k, e));
    } else {
        assert(es.insert(k, e) =~= es.push(e));
    }
}

/// Entries in position order, those of one position in the order they had.
fn arrange(es: &Vec<MapEntry>) -> (r: Vec<MapEntry>)
    requires
        sound(es@),
    ensures
        r@ == arranged(es@),
        r@.len() == es@.len(),
        sound(r@),
{
    let mut out: Vec<MapEntry> = Vec::new();
    let mut i: usize = 0;
    assert(es@.take(0) =~= seq![]);
    while i < es.len()
        invariant
            i <= es@.len(),
            out@.len() == i,
            sound(es@),
            sound(out@),
            out@ == arranged(es@.take(i as int)),
        decreases es@.len() - i,
    {
        let e = es[i];
        assert(es@.take(i + 1).drop_last() =~= es@.take(i as int));
        let mut k: usize = out.len();
        while k > 0 && out[k - 1].pos > e.pos
            invariant
                k <= out@.len(),
                forall|j: int| k <= j < out@.len() ==> (#[trigger] out@[j]).pos > e.pos,
            decreases k,
        {
            k = k - 1;
        }
        proof {
            lemma_placed(out@, e, k as int);
        }
        out.insert(k, e);
        i = i + 1;
    }
    assert(es@.take(i as int) =~= es@);
    out
}

/// Once two entries overlap, filling gaps does not help.
proof fn lemma_filled_prefix(es: Seq<MapEntry>, k: int)
    requires
        0 <= k <= es.len(),
        filled(es.take(k)) is None,
    ensures
        filled(es) is None,
    decreases es.len() - k,
{
    if k == es.len() {
        assert(es.take(k) =~= es);
    } else {
        assert(es.take(k + 1).drop_last() =~= es.take(k));
        lemma_filled_prefix(es, k + 1);
    }
}

/// One more entry at the end of an ordered list without gaps.
pub proof fn lemma_extend(es: Seq<MapEntry>, e: MapEntry)
    requires
        ordered(es),
        no_empty(es),
        chain(es, 0, list_end(es)),
        e.pos == list_end(es),
        e.size > 0,
        e.end() <= u64::MAX,
    ensures
        ordered(es.push(e)),
        no_empty(es.push(e)),
        chain(es.push(e), 0, e.end()),
        count_with(es.push(e), SectorStatus::Unreadable) == count_with(
            es,
            SectorStatus::Unreadable,
        ) + if e.status == SectorStatus::Unreadable {
            1nat
        } else {
            0
        },
{
    let r = es.push(e);
    assert(chain(seq![e], e.pos as int, e.end()));
    lemma_chain_concat(es, seq![e], 0, e.pos as int, e.end());
    assert(es + seq![e] =~= r);
    assert(r.drop_last() =~= es);
    assert forall|i: int| 0 <= i < es.len() implies (#[trigger] es[i]).end() <= e.pos by {
        if i < es.len() - 1 {
            assert(es[i].end() <= es[es.len() - 1].pos);
        }
    }
    assert forall|i: int, j: int| 0 <= i < j < r.len() implies (#[trigger] r[i]).end() <= (
    #[trigger] r[j]).pos by {
        assert(r[i] == es[i]);
        if j < es.len() {
            assert(r[j] == es[j]);
        }
    }
}

/// Fill every gap as not yet tried; `None` where two entries overlap.
fn fill(es: &Vec<MapEntry>) -> (r: Option<Vec<MapEntry>>)
    requires
        sound(es@),
    ensures
        r is Some <==> filled(es@) is Some,
        r matches Some(v) ==> filled(es@) == Some(v@) && ordered(v@) && no_empty(v@) && chain(
            v@,
            0,
            list_end(v@),
        ) && list_end(v@) <= u64::MAX && count_with(v@, SectorStatus::Unreadable) <= es@.len(),
{
    let mut out: Vec<MapEntry> = Vec::new();
    let mut cursor: u64 = 0;
    let mut i: usize = 0;
    assert(es@.take(0) =~= seq![]);
    while i < es.len()
        invariant
            i <= es@.len(),
            sound(es@),
            filled(es@.take(i as int)) == Some(out@),
            cursor == list_end(out@),
            ordered(out@),
            no_empty(out@),
            chain(out@, 0, cursor as int),
            count_with(out@, SectorStatus::Unreadable) <= i,
        decreases es@.len() - i,
    {
        let e = es[i];
        assert(es@.take(i + 1).drop_last() =~= es@.take(i as int));
        if e.pos < cursor {
            proof {
                lemma_filled_prefix(es@, i + 1);
            }
            return None;
        }
        if e.pos > cursor {
            let gap = MapEntry {
                pos: cursor,
                size: e.pos - cursor,
                status: SectorStatus::NonTried,
            };
            proof {
                lemma_extend(out@, gap);
            }
            out.push(gap);
        }
        proof {
            lemma_extend(out@, e);
        }
        cursor = e.pos + e.size;
        out.push(e);
        i = i + 1;
    }
    assert(es@.take(i as int) =~= es@);
    Some(out)
}

/// Whether the damaged ranges that a text lists can be counted. A data line and
/// its line feed take at least six characters, so a text of up to six times as
/// many has no more than can be counted, whatever it says.
pub open spec fn countable_text(text: Seq<char>) -> bool {
    ||| text.len() <= 6 * u32::MAX
    ||| parsed(text) matches Ok(p) ==> count_with(p.entries, SectorStatus::Unreadable) <= u32::MAX
}

/// Whether a mapfile is the one that a text says.
pub open spec fn reads_as(text: Seq<char>, v: MapView) -> bool {
    &&& parsed(text) == Ok::<Parsed, MapfileInvalid>(
        Parsed {
            entries: v.entries,
            version: v.version,
            vid: key_bytes(v.vid),
            unit_keys: keys_bytes(v.unit_keys),
        },
    )
    &&& v.total_size == list_end(v.entries)
    &&& stats_match(v.stats, v.entries, v.total_size)
    &&& !v.dirty
}

/// Whether reading a text gave what the text says: the mapfile, or the reason
/// why it is none.
pub open spec fn loaded(text: Seq<char>, r: Result<Mapfile, MapfileInvalid>) -> bool {
    match r {
        Ok(mf) => reads_as(text, mf@) && mf.wf(),
        Err(k) => parsed(text) == Err::<Parsed, MapfileInvalid>(k),
    }
}

impl Mapfile {
    /// Read a mapfile from its text. Lines are read in order and the first
    /// that is not acceptable refuses the whole; then ranges that share bytes
    /// do. Bytes that no line mentions, below the last that one does, are not
    /// yet tried.
    pub fn load(text: &str) -> (r: Result<Mapfile, MapfileInvalid>)
        requires
            countable_text(text@),
        ensures
            loaded(text@, r),
            r matches Ok(mf) ==> no_empty(mf@.entries) && (mf@.entries.len() > 0 ==> partitions(
                mf@.entries,
                mf@.total_size as int,
            )),
    {
        let chars: Vec<char> = chars_of(text);
        let n: usize = chars.len();
        let mut rd = Reader {
            entries: Vec::new(),
            past_first: false,
            version: "unknown".to_owned(),
            vid: None,
            unit_keys: Vec::new(),
        };
        assert(rd@ =~= nothing_read());
        let mut i: usize = 0;
        assert(chars@.skip(0) =~= chars@);
        loop
            invariant_except_break
                i <= n,
                6 * rd.entries@.len() <= i,
                read_lines(nothing_read(), text@) == read_lines(rd@, chars@.skip(i as int)),
            invariant
                n == chars@.len(),
                chars@ == text@,
                sound(rd.entries@),
            ensures
                6 * rd.entries@.len() <= n + 1,
                read_lines(nothing_read(), text@) == Ok::<Reading, MapfileInvalid>(rd@),
            decreases n - i,
        {
            let mut j: usize = i;
            while j < n && chars[j] != '\n'
                invariant
                    i <= j <= n == chars@.len(),
                    forall|k: int| i <= k < j ==> chars@[k] != '\n',
                decreases n - j,
            {
                j = j + 1;
            }
            let ghost rest = chars@.skip(i as int);
            proof {
                lemma_line_end(rest);
                let le = line_end(rest);
                assert forall|k: int| 0 <= k < j - i implies rest[k] != '\n' by {
                    assert(rest[k] == chars@[i + k]);
                }
                if j < n {
                    assert(rest[j - i] == chars@[j as int]);
                }
                if le < j - i {
                    assert(rest[le] != '\n');
                }
                assert(le == j - i);
                assert(rest.take(le) =~= chars@.subrange(i as int, j as int));
            }
            let line: &[char] = slice_subrange(chars.as_slice(), i, j);
            let ghost before = rd@;
            match rd.line(line) {
                Err(k) => {
                    return Err(k);
                },
                Ok(()) => {},
            }
            proof {
                lemma_line_adds(before, line@);
            }
            if j == n {
                break ;
            }
            assert(rest.skip(j - i + 1) =~= chars@.skip(j + 1));
            i = j + 1;
        }
        let es: Vec<MapEntry> = arrange(&rd.entries);
        match fill(&es) {
            None => Err(MapfileInvalid::Overlap),
            Some(entries) => {
                let total_size: u64 = if entries.len() == 0 {
                    0
                } else {
                    let last = entries[entries.len() - 1];
                    last.pos + last.size
                };
                let vid: Option<Key> = if rd.unit_keys.len() > 0 {
                    None
                } else {
                    rd.vid
                };
                Ok(Mapfile::from_parts(entries, total_size, rd.version, vid, rd.unit_keys))
            },
        }
    }

    /// The mapfile to work with: the one whose text was found, whatever size it
    /// says the disc has, or a fresh one where none was. A text that is no
    /// mapfile is an error, never a fresh start.
    pub fn open_or_create(text: Option<&str>, total_size: u64, version: &str) -> (r: Result<
        Mapfile,
        MapfileInvalid,
    >)
        requires
            text matches Some(t) ==> countable_text(t@),
        ensures
            match text {
                Some(t) => loaded(t@, r),
                None => r matches Ok(mf) && mf.wf() && mf@ == fresh_map(total_size, version@),
            },
    {
        match text {
            Some(t) => Mapfile::load(t),
            None => Ok(Mapfile::create(total_size, version)),
        }
    }
}

/// The mapfile whose text was found, if one was. A text that is no mapfile is an
/// error, not an absence.
pub fn load_if_present(text: Option<&str>) -> (r: Result<Option<Mapfile>, MapfileInvalid>)
    requires
        text matches Some(t) ==> countable_text(t@),
    ensures
        match text {
            None => r matches Ok(None),
            Some(t) => match r {
                Ok(Some(mf)) => loaded(t@, Ok(mf)),
                Ok(None) => false,
                Err(k) => loaded(t@, Err(k)),
            },
        },
{
    match text {
        None => Ok(None),
        Some(t) => match Mapfile::load(t) {
            Ok(mf) => Ok(Some(mf)),
            Err(k) => Err(k),
        },
    }
}

/// A line adds at most one range, one of fewer than five characters none, and
/// what it adds is sound.
proof fn lemma_line_adds(st: Reading, line: Seq<char>)
    requires
        sound(st.entries),
    ensures
        read_line(st, line) matches Ok(next) ==> sound(next.entries) && next.entries.len()
            <= st.entries.len() + if line.len() >= 5 {
            1int
        } else {
            0
        },
{
    let t = trimmed(line);
    lemma_trimmed_len(line);
    lemma_trimmed_len(trim_start(line));
    lemma_words_take_room(t);
}

// ---------------------------------------------------------------------------
// Writing
// ---------------------------------------------------------------------------

/// The digits of a key.
pub open spec fn key_text(k: Seq<u8>) -> Seq<char>
    decreases k.len(),
{
    if k.len() == 0 {
        seq![]
    } else {
        key_text(k.drop_last()).push(digit_char((k.last() / 16) as nat)).push(
            digit_char((k.last() % 16) as nat),
        )
    }
}

/// The header of one unit key.
pub open spec fn unit_key_text(k: (u32, Seq<u8>)) -> Seq<char> {
    "# freemkv-uk: "@ + digits_of(k.0 as nat, 10) + ":"@ + key_text(k.1)
}

/// The header of a volume id.
pub open spec fn vid_text(k: Seq<u8>) -> Seq<char> {
    "# freemkv-vid: "@ + key_text(k)
}

/// The line of one range.
pub open spec fn entry_text(e: MapEntry) -> Seq<char> {
    "0x"@ + padded_digits(e.pos as nat, 16, 9) + "  0x"@ + padded_digits(e.size as nat, 16, 9)
        + "    "@.push(status_char(e.status))
}

/// The headers of some unit keys.
pub open spec fn unit_keys_text(ks: Seq<(u32, Seq<u8>)>) -> Seq<char>
    decreases ks.len(),
{
    if ks.len() == 0 {
        seq![]
    } else {
        unit_key_text(ks[0]).push('\n') + unit_keys_text(ks.drop_first())
    }
}

/// The lines of some ranges.
pub open spec fn entries_text(es: Seq<MapEntry>) -> Seq<char>
    decreases es.len(),
{
    if es.len() == 0 {
        seq![]
    } else {
        entry_text(es[0]).push('\n') + entries_text(es.drop_first())
    }
}

/// The headers that say which disc the mapfile belongs to: its keys, or its
/// volume id where it has none.
pub open spec fn identity_text(vid: Option<Seq<u8>>, ks: Seq<(u32, Seq<u8>)>) -> Seq<char> {
    if ks.len() > 0 {
        unit_keys_text(ks)
    } else {
        match vid {
            Some(k) => vid_text(k).push('\n'),
            None => seq![],
        }
    }
}

/// The text of a mapfile.
pub open spec fn map_text(v: MapView) -> Seq<char> {
    ("# Rescue Logfile. Created by "@ + v.version).push('\n') + (identity_text(
        key_bytes(v.vid),
        keys_bytes(v.unit_keys),
    ) + ("# Current pos / status / pass / pass_time"@.push('\n') + ("0x000000000  ?  1  0"@.push(
        '\n',
    ) + ("#      pos        size  status"@.push('\n') + entries_text(v.entries)))))
}

/// Append the characters of a string.
fn push_str(out: &mut Vec<char>, s: &str)
    ensures
        final(out)@ == old(out)@ + s@,
{
    let ghost start = out@;
    for c in it: s.chars()
        invariant
            it.seq() == s@,
            out@ == start + s@.take(it.index() as int),
    {
        out.push(c);
        assert(out@ =~= start + s@.take(it.index() + 1));
    }
    assert(out@ =~= start + s@);
}

/// Append the digits of a key.
fn push_key(out: &mut Vec<char>, key: &Key)
    ensures
        final(out)@ == old(out)@ + key_text(key@),
{
    let ghost start = out@;
    let mut i: usize = 0;
    assert(out@ =~= start + key_text(key@.take(0)));
    while i < 16
        invariant
            i <= 16,
            out@ == start + key_text(key@.take(i as int)),
        decreases 16 - i,
    {
        let b: u8 = key[i];
        assert(key@.take(i + 1).drop_last() =~= key@.take(i as int));
        out.push(digit((b / 16) as u64));
        out.push(digit((b % 16) as u64));
        assert(out@ =~= start + key_text(key@.take(i + 1)));
        i = i + 1;
    }
    assert(key@.take(16) =~= key@);
}

/// Append the line of one range.
fn push_entry(out: &mut Vec<char>, e: &MapEntry)
    ensures
        final(out)@ == old(out)@ + entry_text(*e).push('\n'),
{
    let ghost start = out@;
    push_str(out, "0x");
    push_padded(out, e.pos, 16, 9);
    push_str(out, "  0x");
    push_padded(out, e.size, 16, 9);
    push_str(out, "    ");
    out.push(e.status.to_char());
    out.push('\n');
    assert(out@ =~= start + entry_text(*e).push('\n'));
}

impl Mapfile {
    /// The text of the mapfile.
    pub fn render(&self) -> (r: String)
        ensures
            r@ == map_text(self@),
    {
        let mut out: Vec<char> = Vec::new();
        push_str(&mut out, "# Rescue Logfile. Created by ");
        push_str(&mut out, self.version());
        out.push('\n');
        let ghost l1 = ("# Rescue Logfile. Created by "@ + self@.version).push('\n');
        assert(out@ =~= l1);
        let keys = self.unit_keys();
        let ghost ks = keys_bytes(self@.unit_keys);
        if keys.len() > 0 {
            let mut i: usize = 0;
            assert(ks.skip(0) =~= ks);
            while i < keys.len()
                invariant
                    i <= keys@.len(),
                    keys@ == self@.unit_keys,
                    ks == keys_bytes(self@.unit_keys),
                    out@ + unit_keys_text(ks.skip(i as int)) == l1 + unit_keys_text(ks),
                decreases keys@.len() - i,
            {
                let ghost before = out@;
                push_str(&mut out, "# freemkv-uk: ");
                push_digits(&mut out, keys[i].0 as u64, 10);
                push_str(&mut out, ":");
                push_key(&mut out, &keys[i].1);
                out.push('\n');
                proof {
                    let k = ks[i as int];
                    assert(k == (keys@[i as int].0, keys@[i as int].1@));
                    assert(out@ =~= before + unit_key_text(k).push('\n'));
                    let rest = ks.skip(i as int);
                    assert(rest[0] == k);
                    assert(rest.drop_first() =~= ks.skip(i + 1));
                    assert(before + (unit_key_text(k).push('\n') + unit_keys_text(ks.skip(i + 1)))
                        =~= out@ + unit_keys_text(ks.skip(i + 1)));
                }
                i = i + 1;
            }
            assert(ks.skip(i as int).len() == 0);
            assert(out@ + unit_keys_text(ks.skip(i as int)) =~= out@);
        } else if let Some(vid) = self.vid() {
            push_str(&mut out, "# freemkv-vid: ");
            push_key(&mut out, &vid);
            out.push('\n');
            assert(out@ =~= l1 + vid_text(vid@).push('\n'));
        } else {
            assert(out@ =~= l1 + seq![]);
        }
        let ghost id = identity_text(key_bytes(self@.vid), ks);
        assert(out@ == l1 + id);
        push_str(&mut out, "# Current pos / status / pass / pass_time");
        out.push('\n');
        push_str(&mut out, "0x000000000  ?  1  0");
        out.push('\n');
        push_str(&mut out, "#      pos        size  status");
        out.push('\n');
        let ghost head = out@;
        let es = self.entries();
        let mut i: usize = 0;
        assert(es@.skip(0) =~= es@);
        while i < es.len()
            invariant
                i <= es@.len(),
                es@ == self@.entries,
                out@ + entries_text(es@.skip(i as int)) == head + entries_text(es@),
            decreases es@.len() - i,
        {
            let ghost before = out@;
            push_entry(&mut out, &es[i]);
            proof {
                let e = es@[i as int];
                let rest = es@.skip(i as int);
                assert(rest[0] == e);
                assert(rest.drop_first() =~= es@.skip(i + 1));
                assert(before + (entry_text(e).push('\n') + entries_text(es@.skip(i + 1))) =~= out@
                    + entries_text(es@.skip(i + 1)));
            }
            i = i + 1;
        }
        assert(es@.skip(i as int).len() == 0);
        assert(out@ + entries_text(es@.skip(i as int)) =~= out@);
        assert(out@ =~= map_text(self@));
        string_of(&out)
    }
}

} // verus!
