//! The mapfile's text, line by line: what each may say and how it is written.

use crate::entries::{status_at, MapEntry};
use crate::mapfile::{MapView, MapfileInvalid};
use crate::mapfile_text::{
    arranged, created_by, data_entry, entries_text, entry_text, filled, hex_value, identity_text,
    key_bytes, key_digits, key_text, key_value, keys_bytes, list_end, map_text, nothing_read,
    parsed, placed, read_comment, read_line, read_lines, sound, unit_key_value, unit_keys_text,
    vid_text, Parsed, Reading,
};
use crate::status::{char_status, status_char, SectorStatus};
use crate::text::{
    digit_char, digit_rank, digits_of, has_prefix, padded_digits, trimmed,
    unsigned_value, words,
};
use crate::text_laws::law_prefixes;
use vstd::prelude::*;
use vstd::seq_lib::group_to_multiset_ensures;

verus! {

/// A position or size is a hexadecimal number of up to sixty-four bits, with or
/// without `0x` in front.
pub proof fn law_a_number_field(d: Seq<char>)
    ensures
        hex_value("0x"@ + d) == unsigned_value(d, 16, 0xffff_ffff_ffff_ffff),
        !has_prefix(d, "0x"@) ==> hex_value(d) == unsigned_value(d, 16, 0xffff_ffff_ffff_ffff),
{
    law_prefixes("0x"@, d, d);
}

/// What the fields of a data line come to: position, size and status, in this
/// order. Refused are, the first fault found, a line of fewer than three
/// fields, a field that is no number, a range that ends beyond the address
/// space, an empty range, and a status that is none.
pub proof fn law_what_a_data_line_says(f: Seq<Seq<char>>)
    ensures
        ({
            let numbers = hex_value(f[0]) is Some && hex_value(f[1]) is Some;
            let pos = hex_value(f[0])->0;
            let size = hex_value(f[1])->0;
            let fits = pos + size <= 0xffff_ffff_ffff_ffff;
            &&& f.len() < 3 <==> data_entry(f) == Err::<MapEntry, MapfileInvalid>(
                MapfileInvalid::ShortLine,
            )
            &&& f.len() >= 3 && !numbers <==> data_entry(f) == Err::<MapEntry, MapfileInvalid>(
                MapfileInvalid::Hex,
            )
            &&& f.len() >= 3 && numbers && !fits <==> data_entry(f) == Err::<
                MapEntry,
                MapfileInvalid,
            >(MapfileInvalid::Range)
            &&& f.len() >= 3 && numbers && fits && size == 0 <==> data_entry(f) == Err::<
                MapEntry,
                MapfileInvalid,
            >(MapfileInvalid::ZeroSize)
            &&& f.len() >= 3 && numbers && fits && size > 0 && char_status(f[2][0]) is None
                <==> data_entry(f) == Err::<MapEntry, MapfileInvalid>(MapfileInvalid::StatusChar)
            &&& data_entry(f) matches Ok(e) ==> e.pos == pos && e.size == size && Some(e.status)
                == char_status(f[2][0])
        }),
{
}

/// A key is thirty-two hexadecimal digits, two to a byte, the more significant
/// first, with or without `0x` or `0X` in front; anything else is none.
pub proof fn law_a_key(d: Seq<char>)
    ensures
        ({
            let is_key = d.len() == 32 && forall|i: int|
                0 <= i < d.len() ==> digit_rank(#[trigger] d[i]) < 16;
            &&& is_key ==> {
                &&& key_value(d) is Some
                &&& (key_value(d)->0).len() == 16
                &&& forall|i: int|
                    0 <= i < 16 ==> #[trigger] (key_value(d)->0)[i] == 16 * digit_rank(d[2 * i])
                        + digit_rank(d[2 * i + 1])
                &&& key_value("0x"@ + d) == key_value(d)
                &&& key_value("0X"@ + d) == key_value(d)
            }
            &&& !is_key && !has_prefix(d, "0x"@) && !has_prefix(d, "0X"@) ==> key_value(d) is None
                && key_value("0x"@ + d) is None && key_value("0X"@ + d) is None
        }),
{
    reveal_strlit("0x");
    reveal_strlit("0X");
    law_prefixes("0x"@, d, d);
    law_prefixes("0X"@, d, d);
    let t = "0X"@ + d;
    assert(t[1] == 'X');
    if has_prefix(t, "0x"@) {
        assert(t.take(2)[1] == "0x"@[1]);
    }
    if d.len() == 32 && forall|i: int| 0 <= i < d.len() ==> digit_rank(#[trigger] d[i]) < 16 {
        assert(digit_rank(d[1]) < 16);
        if has_prefix(d, "0x"@) {
            assert(d.take(2)[1] == "0x"@[1]);
        }
        if has_prefix(d, "0X"@) {
            assert(d.take(2)[1] == "0X"@[1]);
        }
        assert(key_digits(d) == d);
        let k = key_value(d)->0;
        assert forall|i: int| 0 <= i < 16 implies #[trigger] k[i] == 16 * digit_rank(d[2 * i])
            + digit_rank(d[2 * i + 1]) by {
            assert(digit_rank(d[2 * i]) < 16 && digit_rank(d[2 * i + 1]) < 16);
        }
    }
}

/// A unit key is the number of its CPS unit, a colon, and the key; the first
/// colon is the one that counts.
pub proof fn law_a_unit_key(a: Seq<char>, b: Seq<char>)
    requires
        forall|i: int| 0 <= i < a.len() ==> #[trigger] a[i] != ':',
    ensures
        ({
            let cps = unsigned_value(trimmed(a), 10, 0xffff_ffff);
            let key = key_value(trimmed(b));
            let s = a + seq![':'] + b;
            &&& cps is Some && key is Some ==> unit_key_value(s) == Some(
                ((cps->0) as u32, key->0),
            )
            &&& cps is None || key is None ==> unit_key_value(s) is None
            &&& unit_key_value(a) is None
        }),
{
    let s = a + seq![':'] + b;
    let n = a.len() as int;
    assert(s[n] == ':');
    assert(s.contains(':'));
    s.index_of_first_ensures(':');
    let k = s.index_of_first(':')->0;
    assert(s[k] == ':');
    if k < n {
        assert(s[k] == a[k]);
    }
    if k > n {
        assert(s[n] != ':');
    }
    assert(s.take(n) =~= a);
    assert(s.skip(n + 1) =~= b);
    assert(!a.contains(':'));
}

/// What a comment says. Three headers are known: who wrote the mapfile, the
/// volume id and a unit key; the last two refuse the mapfile where they are
/// malformed. Any other comment says nothing.
pub proof fn law_what_a_comment_says(st: Reading, v: Seq<char>, body: Seq<char>)
    ensures
        read_comment(st, "Rescue Logfile. Created by "@ + v) == Ok::<Reading, MapfileInvalid>(
            Reading { version: v, ..st },
        ),
        read_comment(st, "freemkv-vid:"@ + v) == match key_value(trimmed(v)) {
            Some(k) => Ok::<Reading, MapfileInvalid>(Reading { vid: Some(k), ..st }),
            None => Err(MapfileInvalid::Vid),
        },
        read_comment(st, "freemkv-uk:"@ + v) == match unit_key_value(trimmed(v)) {
            Some(k) => Ok::<Reading, MapfileInvalid>(
                Reading { unit_keys: st.unit_keys.push(k), ..st },
            ),
            None => Err(MapfileInvalid::UnitKey),
        },
        !has_prefix(body, "Rescue Logfile. Created by "@) && !has_prefix(body, "freemkv-vid:"@)
            && !has_prefix(body, "freemkv-uk:"@) ==> read_comment(st, body) == Ok::<
            Reading,
            MapfileInvalid,
        >(st),
{
    reveal_strlit("Rescue Logfile. Created by ");
    reveal_strlit("freemkv-vid:");
    reveal_strlit("freemkv-uk:");
    law_prefixes("Rescue Logfile. Created by "@, v, v);
    law_prefixes("freemkv-vid:"@, v, v);
    law_prefixes("freemkv-uk:"@, v, v);
    let a = "freemkv-vid:"@ + v;
    let b = "freemkv-uk:"@ + v;
    assert(a[0] == 'f' && b[0] == 'f' && b[8] == 'u');
    if has_prefix(a, created_by()) {
        assert(a.take(27)[0] == created_by()[0]);
    }
    if has_prefix(b, created_by()) {
        assert(b.take(27)[0] == created_by()[0]);
    }
    if has_prefix(b, "freemkv-vid:"@) {
        assert(b.take(12)[8] == "freemkv-vid:"@[8]);
    }
}

/// What a line says. A blank line says nothing, and a line that begins with a
/// hash is a comment. Of the others the first may be ddrescue's own state, a
/// single status character in its second field, which says nothing either; each
/// of the rest is a range, or refuses the mapfile.
pub proof fn law_what_a_line_says(st: Reading, line: Seq<char>)
    ensures
        ({
            let t = trimmed(line);
            let f = words(t);
            let comment = t.len() > 0 && t[0] == '#';
            let state = f.len() >= 2 && f[1].len() == 1 && char_status(f[1][0]) is Some;
            &&& t.len() == 0 ==> read_line(st, line) == Ok::<Reading, MapfileInvalid>(st)
            &&& comment ==> read_line(st, line) == read_comment(st, trimmed(t.skip(1)))
            &&& t.len() > 0 && !comment && !st.past_first && state ==> read_line(st, line) == Ok::<
                Reading,
                MapfileInvalid,
            >(Reading { past_first: true, ..st })
            &&& t.len() > 0 && !comment && (st.past_first || !state) ==> match data_entry(f) {
                Ok(e) => read_line(st, line) == Ok::<Reading, MapfileInvalid>(
                    Reading { entries: st.entries.push(e), past_first: true, ..st },
                ),
                Err(k) => read_line(st, line) == Err::<Reading, MapfileInvalid>(k),
            }
        }),
{
}

/// Before the first line nothing is known, and the writer is unknown.
pub proof fn law_what_is_known_at_first(st: Reading)
    requires
        st == nothing_read(),
    ensures
        st.entries.len() == 0 && !st.past_first && st.vid is None && st.unit_keys.len() == 0,
        st.version == "unknown"@,
{
}

/// Entries in the order of their positions.
pub open spec fn by_position(es: Seq<MapEntry>) -> bool {
    forall|i: int, j: int| 0 <= i < j < es.len() ==> (#[trigger] es[i]).pos <= (#[trigger] es[j]).pos
}

proof fn lemma_placed_in_order(es: Seq<MapEntry>, e: MapEntry)
    requires
        by_position(es),
    ensures
        by_position(placed(es, e)),
        placed(es, e).to_multiset() == es.to_multiset().insert(e),
        forall|i: int|
            0 <= i < placed(es, e).len() ==> (#[trigger] placed(es, e)[i]).pos <= e.pos || (es.len()
                > 0 && placed(es, e)[i].pos <= es.last().pos),
    decreases es.len(),
{
    broadcast use group_to_multiset_ensures;

    if es.len() == 0 || es.last().pos <= e.pos {
        assert forall|i: int| 0 <= i < es.len() implies (#[trigger] es[i]).pos <= e.pos by {
            if i < es.len() - 1 {
                assert(es[i].pos <= es[es.len() - 1].pos);
            }
        }
    } else {
        let init = es.drop_last();
        assert(by_position(init));
        lemma_placed_in_order(init, e);
        let p = placed(init, e);
        let r = placed(es, e);
        assert(init.push(es.last()) =~= es);
        assert(es.to_multiset() =~= init.to_multiset().insert(es.last()));
        assert(r.to_multiset() =~= p.to_multiset().insert(es.last()));
        assert(r.to_multiset() =~= es.to_multiset().insert(e));
        assert forall|i: int| 0 <= i < p.len() implies (#[trigger] p[i]).pos <= es.last().pos by {
            if init.len() > 0 {
                assert(init.last() == es[es.len() - 2]);
                assert(es[es.len() - 2].pos <= es[es.len() - 1].pos);
            }
        }
        assert forall|i: int, j: int| 0 <= i < j < r.len() implies (#[trigger] r[i]).pos <= (
        #[trigger] r[j]).pos by {
            assert(r[i] == p[i]);
            if j < p.len() {
                assert(r[j] == p[j]);
            }
        }
    }
}

/// The ranges of a mapfile are put in the order of their positions; none is
/// added and none is lost.
pub proof fn law_ranges_are_put_in_order(es: Seq<MapEntry>)
    ensures
        by_position(arranged(es)),
        arranged(es).to_multiset() == es.to_multiset(),
    decreases es.len(),
{
    broadcast use group_to_multiset_ensures;

    if es.len() > 0 {
        let init = es.drop_last();
        law_ranges_are_put_in_order(init);
        lemma_placed_in_order(arranged(init), es.last());
        assert(init.push(es.last()) =~= es);
        assert(es.to_multiset() =~= init.to_multiset().insert(es.last()));
    } else {
        assert(arranged(es) =~= es);
    }
}

/// Whether two neighbours share a byte.
pub open spec fn neighbours_overlap(es: Seq<MapEntry>) -> bool {
    exists|i: int, j: int|
        0 <= i && j == i + 1 && j < es.len() && (#[trigger] es[i]).pos + es[i].size > (
        #[trigger] es[j]).pos
}

/// What ranges in order come to: the mapfile is refused exactly where two
/// neighbours share a byte. Else every byte of a range has its status, every
/// other byte up to the end of the last has not been tried, and that is where
/// the mapfile ends.
pub proof fn law_gaps_have_not_been_tried(es: Seq<MapEntry>, x: int)
    requires
        sound(es),
        by_position(es),
    ensures
        filled(es) is None <==> neighbours_overlap(es),
        filled(es) matches Some(f) ==> {
            let end = if es.len() == 0 {
                0
            } else {
                es.last().pos + es.last().size
            };
            &&& list_end(f) == end
            &&& status_at(es, x) is Some ==> status_at(f, x) == status_at(es, x)
            &&& status_at(es, x) is None && 0 <= x < end ==> status_at(f, x) == Some(
                SectorStatus::NonTried,
            )
            &&& status_at(es, x) is None && !(0 <= x < end) ==> status_at(f, x) is None
        },
    decreases es.len(),
{
    if es.len() == 0 {
        assert(filled(es)->0 =~= seq![]);
        assert(!neighbours_overlap(es));
    } else {
        let init = es.drop_last();
        let e = es.last();
        let n = es.len() as int;
        assert(e == es[n - 1]);
        assert(sound(init)) by {
            assert forall|i: int| 0 <= i < init.len() implies (#[trigger] init[i]).size > 0
                && init[i].end() <= u64::MAX by {
                assert(init[i] == es[i]);
            }
        }
        assert(by_position(init));
        law_gaps_have_not_been_tried(init, x);
        if neighbours_overlap(init) {
            let (i, j) = choose|i: int, j: int|
                0 <= i && j == i + 1 && j < init.len() && (#[trigger] init[i]).pos + init[i].size > (
                #[trigger] init[j]).pos;
            assert(es[i].pos + es[i].size > es[j].pos);
        } else {
            let f = filled(init)->0;
            if init.len() > 0 {
                assert(init.last() == es[n - 2]);
                if e.pos < list_end(f) {
                    assert(es[n - 2].pos + es[n - 2].size > es[n - 1].pos);
                }
            }
            if neighbours_overlap(es) {
                let (i, j) = choose|i: int, j: int|
                    0 <= i && j == i + 1 && j < es.len() && (#[trigger] es[i]).pos + es[i].size > (
                    #[trigger] es[j]).pos;
                if j < n - 1 {
                    assert(init[i].pos + init[i].size > init[j].pos);
                }
            }
            if e.pos >= list_end(f) {
                if status_at(init, x) is Some {
                    lemma_ends_before(init, x);
                }
                if e.pos > list_end(f) {
                    let gap = MapEntry {
                        pos: list_end(f) as u64,
                        size: (e.pos - list_end(f)) as u64,
                        status: SectorStatus::NonTried,
                    };
                    let g = f.push(gap);
                    assert(g.push(e).drop_last() =~= g);
                    assert(g.drop_last() =~= f);
                    assert(filled(es) == Some(g.push(e)));
                    assert(status_at(g, x) == if gap.covers(x) {
                        Some(SectorStatus::NonTried)
                    } else {
                        status_at(f, x)
                    });
                    assert(status_at(g.push(e), x) == if e.covers(x) {
                        Some(e.status)
                    } else {
                        status_at(g, x)
                    });
                } else {
                    assert(f.push(e).drop_last() =~= f);
                    assert(filled(es) == Some(f.push(e)));
                }
                assert(status_at(es, x) == if e.covers(x) {
                    Some(e.status)
                } else {
                    status_at(init, x)
                });
            }
        }
    }
}

/// Where no neighbours share a byte, nothing reaches beyond the end of the last.
proof fn lemma_ends_before(es: Seq<MapEntry>, x: int)
    requires
        sound(es),
        by_position(es),
        !neighbours_overlap(es),
        status_at(es, x) is Some,
    ensures
        es.len() > 0,
        0 <= x < es.last().pos + es.last().size,
    decreases es.len(),
{
    if es.len() > 0 && !es.last().covers(x) {
        let init = es.drop_last();
        let n = es.len() as int;
        assert(sound(init)) by {
            assert forall|i: int| 0 <= i < init.len() implies (#[trigger] init[i]).size > 0
                && init[i].end() <= u64::MAX by {
                assert(init[i] == es[i]);
            }
        }
        assert(!neighbours_overlap(init)) by {
            if neighbours_overlap(init) {
                let (i, j) = choose|i: int, j: int|
                    0 <= i && j == i + 1 && j < init.len() && (#[trigger] init[i]).pos
                        + init[i].size > (#[trigger] init[j]).pos;
                assert(es[i].pos + es[i].size > es[j].pos);
            }
        }
        lemma_ends_before(init, x);
        assert(init.last() == es[n - 2]);
        if es[n - 2].pos + es[n - 2].size > es[n - 1].pos {
            assert(neighbours_overlap(es));
        }
    }
}

/// What a text comes to, once its lines are read: the ranges in order with their
/// gaps filled, or a refusal where they overlap; the writer as it was read; the
/// keys, and the volume id only where there are no keys.
pub proof fn law_what_the_lines_come_to(text: Seq<char>, st: Reading)
    requires
        read_lines(nothing_read(), text) == Ok::<Reading, MapfileInvalid>(st),
    ensures
        filled(arranged(st.entries)) is None <==> parsed(text) == Err::<Parsed, MapfileInvalid>(
            MapfileInvalid::Overlap,
        ),
        parsed(text) matches Ok(p) ==> {
            &&& Some(p.entries) == filled(arranged(st.entries))
            &&& p.version == st.version
            &&& p.unit_keys == st.unit_keys
            &&& p.unit_keys.len() > 0 ==> p.vid is None
            &&& p.unit_keys.len() == 0 ==> p.vid == st.vid
        },
        parsed(text) is Err ==> filled(arranged(st.entries)) is None,
{
}

/// How a mapfile is written: who wrote it, whose disc it is, ddrescue's headings
/// and a state line, then a line to a range.
pub proof fn law_how_a_mapfile_is_written(v: MapView)
    ensures
        map_text(v) == "# Rescue Logfile. Created by "@ + v.version + seq!['\n'] + identity_text(
            key_bytes(v.vid),
            keys_bytes(v.unit_keys),
        ) + "# Current pos / status / pass / pass_time"@ + seq!['\n'] + "0x000000000  ?  1  0"@
            + seq!['\n'] + "#      pos        size  status"@ + seq!['\n'] + entries_text(v.entries),
{
    assert(map_text(v) =~= "# Rescue Logfile. Created by "@ + v.version + seq!['\n']
        + identity_text(key_bytes(v.vid), keys_bytes(v.unit_keys))
        + "# Current pos / status / pass / pass_time"@ + seq!['\n'] + "0x000000000  ?  1  0"@
        + seq!['\n'] + "#      pos        size  status"@ + seq!['\n'] + entries_text(v.entries));
}

/// How a range is written: position and size in hexadecimal, nine digits or
/// more, and its status; one line to a range, in order.
pub proof fn law_how_ranges_are_written(es: Seq<MapEntry>, e: MapEntry)
    ensures
        ({
            let mark = match e.status {
                SectorStatus::NonTried => '?',
                SectorStatus::NonTrimmed => '*',
                SectorStatus::NonScraped => '/',
                SectorStatus::Unreadable => '-',
                SectorStatus::Finished => '+',
            };
            entry_text(e) == "0x"@ + padded_digits(e.pos as nat, 16, 9) + "  0x"@ + padded_digits(
                e.size as nat,
                16,
                9,
            ) + "    "@ + seq![mark]
        }),
        entries_text(Seq::<MapEntry>::empty()).len() == 0,
        entries_text(es.push(e)) == entries_text(es) + entry_text(e) + seq!['\n'],
    decreases es.len(),
{
    let mark = status_char(e.status);
    assert(entry_text(e) =~= "0x"@ + padded_digits(e.pos as nat, 16, 9) + "  0x"@ + padded_digits(
        e.size as nat,
        16,
        9,
    ) + "    "@ + seq![mark]);
    let all = es.push(e);
    if es.len() == 0 {
        assert(all.drop_first() =~= Seq::<MapEntry>::empty());
        assert(entries_text(all.drop_first()) =~= seq![]);
        assert(entries_text(es) =~= seq![]);
        assert(all[0] == e);
        assert(entries_text(all) =~= entries_text(es) + entry_text(e) + seq!['\n']);
    } else {
        law_how_ranges_are_written(es.drop_first(), e);
        assert(all.drop_first() =~= es.drop_first().push(e));
        assert(all[0] == es[0]);
        assert(entries_text(all) =~= entries_text(es) + entry_text(e) + seq!['\n']);
    }
}

/// How the identity is written: the unit keys, a line to each in order, with
/// their units in decimal; a volume id only where there are no keys.
pub proof fn law_how_the_identity_is_written(
    vid: Option<Seq<u8>>,
    ks: Seq<(u32, Seq<u8>)>,
    k: (u32, Seq<u8>),
)
    ensures
        ks.len() > 0 ==> identity_text(vid, ks) == unit_keys_text(ks),
        ks.len() == 0 && vid is Some ==> identity_text(vid, ks) == "# freemkv-vid: "@ + key_text(
            vid->0,
        ) + seq!['\n'],
        ks.len() == 0 && vid is None ==> identity_text(vid, ks).len() == 0,
        unit_keys_text(Seq::<(u32, Seq<u8>)>::empty()).len() == 0,
        unit_keys_text(ks.push(k)) == unit_keys_text(ks) + "# freemkv-uk: "@ + digits_of(
            k.0 as nat,
            10,
        ) + ":"@ + key_text(k.1) + seq!['\n'],
    decreases ks.len(),
{
    let all = ks.push(k);
    if ks.len() == 0 && vid is Some {
        assert(identity_text(vid, ks) =~= vid_text(vid->0) + seq!['\n']);
    }
    if ks.len() == 0 {
        assert(all.drop_first() =~= Seq::<(u32, Seq<u8>)>::empty());
        assert(unit_keys_text(all.drop_first()) =~= seq![]);
        assert(unit_keys_text(ks) =~= seq![]);
        assert(all[0] == k);
        assert(unit_keys_text(all) =~= unit_keys_text(ks) + "# freemkv-uk: "@ + digits_of(
            k.0 as nat,
            10,
        ) + ":"@ + key_text(k.1) + seq!['\n']);
    } else {
        law_how_the_identity_is_written(vid, ks.drop_first(), k);
        assert(all.drop_first() =~= ks.drop_first().push(k));
        assert(all[0] == ks[0]);
        assert(unit_keys_text(all) =~= unit_keys_text(ks) + "# freemkv-uk: "@ + digits_of(
            k.0 as nat,
            10,
        ) + ":"@ + key_text(k.1) + seq!['\n']);
    }
}

/// How a key is written: two small hexadecimal digits to a byte, in order.
pub proof fn law_how_a_key_is_written(k: Seq<u8>, b: u8)
    ensures
        key_text(Seq::<u8>::empty()).len() == 0,
        key_text(k.push(b)) == key_text(k) + seq![
            digit_char((b / 16) as nat),
            digit_char((b % 16) as nat),
        ],
{
    assert(k.push(b).drop_last() =~= k);
    assert(key_text(k.push(b)) =~= key_text(k) + seq![
        digit_char((b / 16) as nat),
        digit_char((b % 16) as nat),
    ]);
}

} // verus!
