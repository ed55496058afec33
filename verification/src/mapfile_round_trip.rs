//! What is written of a mapfile is read back as it was.

use crate::disc::Disc;
use crate::entries::{
    all_recorded, chain, gapless, law_records_keep_the_partition, no_empty, ordered, partitions,
    MapEntry,
};
use crate::identity::identity_matches;
use crate::mapfile::{fresh_map, stats_match, Key, MapView, MapfileInvalid};
use crate::mapfile_text::{
    arranged, created_by, data_entry, entries_text, entry_text, filled, hex_value, identity_text,
    is_state_line, key_bytes, key_digits, key_text, key_value, keys_bytes, lemma_extend, lemma_line_end,
    line_end, list_end, map_text, nothing_read, parsed, placed, read_comment, read_line, read_lines,
    reads_as, sound,
    unit_key_text, unit_key_value, unit_keys_text, vid_text, Parsed, Reading,
};
use crate::status::{status_char, SectorStatus};
use crate::text::{
    after_prefix, digit_char, digit_rank, digits_of, has_prefix, is_space,
    lemma_digit_char, lemma_digits_of, lemma_padded_digits, lemma_words_front, padded_digits,
    spaceless, trim_end, trim_start, trimmed, unsigned_digits, unsigned_value, words,
};
use vstd::prelude::*;

verus! {

/// A string that trimming leaves as it is.
pub open spec fn tight(s: Seq<char>) -> bool {
    s.len() > 0 && !is_space(s[0]) && !is_space(s.last())
}

/// A string on one line.
pub open spec fn one_line(s: Seq<char>) -> bool {
    forall|i: int| 0 <= i < s.len() ==> #[trigger] s[i] != '\n'
}

proof fn lemma_tight(s: Seq<char>)
    requires
        tight(s),
    ensures
        trimmed(s) == s,
        trimmed(seq![' '] + s) == s,
{
    let t = seq![' '] + s;
    assert(is_space(t[0]));
    assert(t.drop_first() =~= s);
    assert(trim_start(t) == trim_start(s));
}

/// The first line of a text is read first.
proof fn lemma_first_line(st: Reading, line: Seq<char>, rest: Seq<char>)
    requires
        one_line(line),
    ensures
        read_lines(st, line.push('\n') + rest) == match read_line(st, line) {
            Err(k) => Err(k),
            Ok(next) => read_lines(next, rest),
        },
{
    let s = line.push('\n') + rest;
    lemma_line_end(s);
    let k = line_end(s);
    assert(s[line.len() as int] == '\n');
    if k < line.len() {
        assert(s[k] == line[k]);
    }
    assert(k == line.len());
    assert(s.take(k) =~= line);
    assert(s.skip(k + 1) =~= rest);
}

/// A text is read line by line, in order, up to the first line that is refused;
/// the last line needs no line feed.
pub proof fn law_lines_are_read_in_order(st: Reading, line: Seq<char>, rest: Seq<char>)
    requires
        one_line(line),
    ensures
        read_lines(st, line) == read_line(st, line),
        read_line(st, line) matches Err(k) ==> read_lines(st, line + seq!['\n'] + rest) == Err::<
            Reading,
            MapfileInvalid,
        >(k),
        read_line(st, line) matches Ok(next) ==> read_lines(st, line + seq!['\n'] + rest)
            == read_lines(next, rest),
{
    lemma_first_line(st, line, rest);
    assert(line.push('\n') + rest =~= line + seq!['\n'] + rest);
    lemma_line_end(line);
    let k = line_end(line);
    if k < line.len() {
        assert(line[k] == '\n');
    }
    assert(line.take(k) =~= line);
}

/// The comment that a line of a hash, a space and a tight string is.
proof fn lemma_comment_line(st: Reading, line: Seq<char>, body: Seq<char>)
    requires
        tight(body),
        line == seq!['#', ' '] + body,
    ensures
        read_line(st, line) == read_comment(st, body),
{
    assert(line[0] == '#');
    assert(line.last() == body.last());
    lemma_tight(line);
    assert(line.skip(1) =~= seq![' '] + body);
    lemma_tight(body);
}

/// A string begins with what it was made from.
proof fn lemma_prefix(p: Seq<char>, s: Seq<char>)
    ensures
        after_prefix(p + s, p) == Some(s),
{
    assert((p + s).take(p.len() as int) =~= p);
    assert((p + s).skip(p.len() as int) =~= s);
}

/// A string that differs from a prefix in some place does not begin with it.
proof fn lemma_no_prefix(s: Seq<char>, p: Seq<char>, i: int)
    requires
        0 <= i < p.len(),
        i < s.len(),
        s[i] != p[i],
    ensures
        after_prefix(s, p) is None,
{
    if has_prefix(s, p) {
        assert(s.take(p.len() as int)[i] == p[i]);
    }
}

/// The writer's name as it is read back: without white space at its end, and
/// `unknown` where nothing else is left of it.
pub open spec fn kept_version(version: Seq<char>) -> Seq<char> {
    let t = trim_end(version);
    if t.len() == 0 {
        "unknown"@
    } else {
        t
    }
}

proof fn lemma_trim_end(s: Seq<char>)
    ensures
        trim_end(s).len() <= s.len(),
        trim_end(s) == s.take(trim_end(s).len() as int),
        trim_end(s).len() > 0 ==> !is_space(trim_end(s).last()),
    decreases s.len(),
{
    if s.len() > 0 && is_space(s.last()) {
        lemma_trim_end(s.drop_last());
        let n = trim_end(s).len() as int;
        assert(s.drop_last().take(n) =~= s.take(n));
    } else {
        assert(s.take(s.len() as int) =~= s);
    }
}

proof fn lemma_trim_end_concat(p: Seq<char>, s: Seq<char>)
    ensures
        trim_end(p + s) == if trim_end(s).len() == 0 {
            trim_end(p)
        } else {
            p + trim_end(s)
        },
    decreases s.len(),
{
    let t = p + s;
    if s.len() == 0 {
        assert(t =~= p);
    } else {
        assert(t.last() == s.last());
        if is_space(s.last()) {
            assert(t.drop_last() =~= p + s.drop_last());
            lemma_trim_end_concat(p, s.drop_last());
        }
    }
}

/// A name that does not end in white space is kept as it is, and a name that
/// was read back is.
proof fn lemma_kept_version(version: Seq<char>)
    ensures
        version.len() > 0 && !is_space(version.last()) ==> kept_version(version) == version,
        kept_version(kept_version(version)) == kept_version(version),
{
    lemma_trim_end(version);
    reveal_strlit("unknown");
    assert(!is_space("unknown"@.last()));
    assert(trim_end("unknown"@) == "unknown"@);
}

/// The line that names the writer, without the name.
proof fn lemma_nameless_line(st: Reading)
    ensures
        trim_end("# Rescue Logfile. Created by "@) == "# Rescue Logfile. Created by "@.take(28),
        read_line(st, "# Rescue Logfile. Created by "@.take(28)) == Ok::<Reading, MapfileInvalid>(
            st,
        ),
{
    reveal_strlit("# Rescue Logfile. Created by ");
    reveal_strlit("Rescue Logfile. Created by ");
    reveal_strlit("freemkv-vid:");
    reveal_strlit("freemkv-uk:");
    let p = "# Rescue Logfile. Created by "@;
    let line = p.take(28);
    let body = created_by().take(26);
    assert(p.last() == ' ');
    assert(p.drop_last() =~= line);
    assert(line.last() == 'y' && !is_space(line.last()));
    assert(trim_end(line) == line);
    assert(line =~= seq!['#', ' '] + body);
    assert(body[0] == 'R');
    assert(body.last() == 'y');
    lemma_comment_line(st, line, body);
    lemma_no_prefix(body, "freemkv-vid:"@, 0);
    lemma_no_prefix(body, "freemkv-uk:"@, 0);
}

proof fn lemma_version_line(st: Reading, version: Seq<char>)
    requires
        one_line(version),
    ensures
        one_line("# Rescue Logfile. Created by "@ + version),
        read_line(st, "# Rescue Logfile. Created by "@ + version) == Ok::<Reading, MapfileInvalid>(
            if trim_end(version).len() == 0 {
                st
            } else {
                Reading { version: trim_end(version), ..st }
            },
        ),
{
    reveal_strlit("# Rescue Logfile. Created by ");
    reveal_strlit("Rescue Logfile. Created by ");
    let p = "# Rescue Logfile. Created by "@;
    let line = p + version;
    let kept = trim_end(version);
    assert(line[0] == '#');
    lemma_trim_end_concat(p, version);
    lemma_trim_end(version);
    if kept.len() == 0 {
        lemma_nameless_line(st);
        let short = p.take(28);
        assert(short[0] == '#');
        assert(trim_start(short) == short);
        assert(short.last() == 'y');
        assert(trim_end(short) == short);
        assert(trimmed(line) == trimmed(short));
    } else {
        let whole = p + kept;
        let body = created_by() + kept;
        assert(whole =~= seq!['#', ' '] + body);
        assert(body[0] == 'R');
        assert(body.last() == kept.last());
        assert(whole[0] == '#' && whole.last() == kept.last());
        lemma_tight(whole);
        assert(trimmed(line) == whole);
        lemma_comment_line(st, whole, body);
        lemma_prefix(created_by(), kept);
    }
    assert forall|i: int| 0 <= i < line.len() implies #[trigger] line[i] != '\n' by {
        if i >= 29 {
            assert(line[i] == version[i - 29]);
        }
    }
}

/// The digits of a key, one byte at a time.
proof fn lemma_key_text(k: Seq<u8>)
    ensures
        key_text(k).len() == 2 * k.len(),
        forall|i: int|
            #![trigger k[i]]
            0 <= i < k.len() ==> key_text(k)[2 * i] == digit_char((k[i] / 16) as nat) && key_text(
                k,
            )[2 * i + 1] == digit_char((k[i] % 16) as nat),
        forall|j: int|
            0 <= j < key_text(k).len() ==> exists|v: nat|
                v < 16 && #[trigger] key_text(k)[j] == digit_char(v),
    decreases k.len(),
{
    if k.len() > 0 {
        let init = k.drop_last();
        let t = key_text(k);
        let p = key_text(init);
        lemma_key_text(init);
        assert forall|i: int| #![trigger k[i]] 0 <= i < k.len() implies t[2 * i] == digit_char(
            (k[i] / 16) as nat,
        ) && t[2 * i + 1] == digit_char((k[i] % 16) as nat) by {
            if i < init.len() {
                assert(init[i] == k[i]);
                assert(t[2 * i] == p[2 * i] && t[2 * i + 1] == p[2 * i + 1]);
            }
        }
        assert forall|j: int| 0 <= j < t.len() implies exists|v: nat|
            v < 16 && #[trigger] t[j] == digit_char(v) by {
            if j < p.len() {
                assert(t[j] == p[j]);
            } else if j == p.len() {
                assert(t[j] == digit_char((k.last() / 16) as nat));
            } else {
                assert(t[j] == digit_char((k.last() % 16) as nat));
            }
        }
    }
}

/// A string of lower-case hexadecimal digits.
pub open spec fn digit_text(s: Seq<char>) -> bool {
    forall|j: int| 0 <= j < s.len() ==> exists|v: nat| v < 16 && #[trigger] s[j] == digit_char(v)
}

proof fn lemma_digit_text(s: Seq<char>, j: int)
    requires
        digit_text(s),
        0 <= j < s.len(),
    ensures
        digit_rank(s[j]) < 16,
        !is_space(s[j]),
        s[j] != '+' && s[j] != ':' && s[j] != 'x' && s[j] != 'X' && s[j] != '\n' && s[j] != '#',
{
    let v = choose|v: nat| v < 16 && s[j] == digit_char(v);
    lemma_digit_char(v);
}

/// The digits of a key write the key.
proof fn lemma_key_value(k: Seq<u8>)
    requires
        k.len() == 16,
    ensures
        digit_text(key_text(k)),
        key_text(k).len() == 32,
        tight(key_text(k)),
        key_value(key_text(k)) == Some(k),
{
    let s = key_text(k);
    lemma_key_text(k);
    lemma_digit_text(s, 0);
    lemma_digit_text(s, 1);
    lemma_digit_text(s, 31);
    reveal_strlit("0x");
    reveal_strlit("0X");
    lemma_no_prefix(s, "0x"@, 1);
    lemma_no_prefix(s, "0X"@, 1);
    assert(key_digits(s) == s);
    assert forall|j: int| 0 <= j < s.len() implies digit_rank(#[trigger] s[j]) < 16 by {
        lemma_digit_text(s, j);
    }
    let r = key_value(s)->0;
    assert forall|i: int| 0 <= i < 16 implies r[i] == k[i] by {
        lemma_digit_char((k[i] / 16) as nat);
        lemma_digit_char((k[i] % 16) as nat);
        assert(r[i] == ((k[i] / 16) * 16 + k[i] % 16) as u8);
    }
    assert(r =~= k);
}

proof fn lemma_vid_line(st: Reading, k: Seq<u8>)
    requires
        k.len() == 16,
    ensures
        one_line(vid_text(k)),
        read_line(st, vid_text(k)) == Ok::<Reading, MapfileInvalid>(
            Reading { vid: Some(k), ..st },
        ),
{
    reveal_strlit("# freemkv-vid: ");
    reveal_strlit("freemkv-vid:");
    reveal_strlit("Rescue Logfile. Created by ");
    lemma_key_value(k);
    let line = vid_text(k);
    let hex = key_text(k);
    let tail = seq![' '] + hex;
    let body = "freemkv-vid:"@ + tail;
    assert(line =~= seq!['#', ' '] + body);
    assert(body[0] == 'f');
    assert(body.last() == hex.last());
    lemma_comment_line(st, line, body);
    lemma_no_prefix(body, created_by(), 0);
    lemma_prefix("freemkv-vid:"@, tail);
    lemma_tight(hex);
    assert forall|i: int| 0 <= i < line.len() implies #[trigger] line[i] != '\n' by {
        if i >= 15 {
            assert(line[i] == hex[i - 15]);
            lemma_digit_text(hex, i - 15);
        }
    }
}

/// The value of a unit key header is the unit key.
proof fn lemma_unit_key_value(cps: u32, k: Seq<u8>)
    requires
        k.len() == 16,
    ensures
        tight(digits_of(cps as nat, 10) + ":"@ + key_text(k)),
        one_line(digits_of(cps as nat, 10) + ":"@ + key_text(k)),
        unit_key_value(digits_of(cps as nat, 10) + ":"@ + key_text(k)) == Some((cps, k)),
{
    reveal_strlit(":");
    let d = digits_of(cps as nat, 10);
    let hex = key_text(k);
    let s = d + ":"@ + hex;
    lemma_digits_of(cps as nat, 10);
    lemma_key_value(k);
    assert(digit_text(d));
    assert forall|i: int| 0 <= i < s.len() implies #[trigger] s[i] != '\n' by {
        if i < d.len() {
            assert(s[i] == d[i]);
            lemma_digit_text(d, i);
        } else if i > d.len() {
            assert(s[i] == hex[i - d.len() - 1]);
            lemma_digit_text(hex, i - d.len() - 1);
        }
    }
    assert(s[d.len() as int] == ':');
    s.index_of_first_ensures(':');
    let at = s.index_of_first(':')->0;
    if at < d.len() {
        assert(s[at] == d[at]);
        lemma_digit_text(d, at);
    }
    assert(at == d.len());
    assert(s.take(at) =~= d);
    assert(s.skip(at + 1) =~= hex);
    lemma_digit_text(d, 0);
    lemma_digit_text(d, d.len() - 1);
    assert(s[0] == d[0]);
    assert(s.last() == hex.last());
    lemma_tight(d);
    lemma_tight(hex);
    assert(unsigned_digits(d) == d);
    assert(unsigned_value(d, 10, u32::MAX as nat) == Some(cps as nat));
}

proof fn lemma_unit_key_line(st: Reading, cps: u32, k: Seq<u8>)
    requires
        k.len() == 16,
    ensures
        one_line(unit_key_text((cps, k))),
        read_line(st, unit_key_text((cps, k))) == Ok::<Reading, MapfileInvalid>(
            Reading { unit_keys: st.unit_keys.push((cps, k)), ..st },
        ),
{
    reveal_strlit("# freemkv-uk: ");
    reveal_strlit("freemkv-uk:");
    reveal_strlit("freemkv-vid:");
    reveal_strlit("Rescue Logfile. Created by ");
    lemma_unit_key_value(cps, k);
    let val = digits_of(cps as nat, 10) + ":"@ + key_text(k);
    let line = unit_key_text((cps, k));
    let tail = seq![' '] + val;
    let body = "freemkv-uk:"@ + tail;
    assert(line =~= seq!['#', ' '] + body);
    assert(body[0] == 'f');
    assert(body[8] == 'u');
    assert(body.last() == val.last());
    lemma_comment_line(st, line, body);
    lemma_no_prefix(body, created_by(), 0);
    lemma_no_prefix(body, "freemkv-vid:"@, 8);
    lemma_prefix("freemkv-uk:"@, tail);
    lemma_tight(val);
    assert forall|i: int| 0 <= i < line.len() implies #[trigger] line[i] != '\n' by {
        if i >= 14 {
            assert(line[i] == val[i - 14]);
        }
    }
}

/// The unit key headers at the front of a text.
proof fn lemma_unit_key_lines(st: Reading, ks: Seq<(u32, Seq<u8>)>, rest: Seq<char>)
    requires
        forall|i: int| 0 <= i < ks.len() ==> (#[trigger] ks[i]).1.len() == 16,
    ensures
        read_lines(st, unit_keys_text(ks) + rest) == read_lines(
            Reading { unit_keys: st.unit_keys + ks, ..st },
            rest,
        ),
    decreases ks.len(),
{
    if ks.len() == 0 {
        assert(unit_keys_text(ks) + rest =~= rest);
        assert(st.unit_keys + ks =~= st.unit_keys);
    } else {
        let k = ks[0];
        let tail = ks.drop_first();
        let line = unit_key_text(k);
        lemma_unit_key_line(st, k.0, k.1);
        assert(unit_keys_text(ks) + rest =~= line.push('\n') + (unit_keys_text(tail) + rest));
        lemma_first_line(st, line, unit_keys_text(tail) + rest);
        let next = Reading { unit_keys: st.unit_keys.push(k), ..st };
        assert forall|i: int| 0 <= i < tail.len() implies (#[trigger] tail[i]).1.len() == 16 by {
            assert(tail[i] == ks[i + 1]);
        }
        lemma_unit_key_lines(next, tail, rest);
        assert(next.unit_keys + tail =~= st.unit_keys + ks);
    }
}

/// The three fixed lines.
proof fn lemma_fixed_lines(st: Reading)
    requires
        !st.past_first,
    ensures
        one_line("# Current pos / status / pass / pass_time"@),
        one_line("0x000000000  ?  1  0"@),
        one_line("#      pos        size  status"@),
        read_line(st, "# Current pos / status / pass / pass_time"@) == Ok::<
            Reading,
            MapfileInvalid,
        >(st),
        read_line(st, "0x000000000  ?  1  0"@) == Ok::<Reading, MapfileInvalid>(
            Reading { past_first: true, ..st },
        ),
        forall|past: bool|
            read_line(
                Reading { past_first: past, ..st },
                "#      pos        size  status"@,
            ) == Ok::<Reading, MapfileInvalid>(Reading { past_first: past, ..st }),
{
    reveal_strlit("# Current pos / status / pass / pass_time");
    reveal_strlit("0x000000000  ?  1  0");
    reveal_strlit("#      pos        size  status");
    reveal_strlit("Rescue Logfile. Created by ");
    reveal_strlit("freemkv-vid:");
    reveal_strlit("freemkv-uk:");
    let a = "# Current pos / status / pass / pass_time"@;
    let body = a.skip(2);
    assert(a =~= seq!['#', ' '] + body);
    assert(body[0] == 'C');
    lemma_comment_line(st, a, body);
    lemma_no_prefix(body, created_by(), 0);
    lemma_no_prefix(body, "freemkv-vid:"@, 0);
    lemma_no_prefix(body, "freemkv-uk:"@, 0);
    let b = "0x000000000  ?  1  0"@;
    lemma_tight(b);
    let w = b.take(11);
    let r1 = b.skip(11);
    assert(b =~= w + r1);
    assert(r1[0] == ' ');
    lemma_words_front(w, r1);
    assert(r1.drop_first()[0] == ' ');
    assert(words(r1) == words(r1.drop_first()));
    let r2 = r1.drop_first().drop_first();
    assert(words(r1.drop_first()) == words(r2));
    let q = seq!['?'];
    let r3 = r2.drop_first();
    assert(r2 =~= q + r3);
    assert(r3[0] == ' ');
    lemma_words_front(q, r3);
    assert(words(b)[1] == q);
    assert(is_state_line(words(b)));
    let c = "#      pos        size  status"@;
    lemma_tight(c);
    let s0 = c.skip(1);
    let p = c.skip(7);
    assert(p[0] == 'p');
    assert(tight(p));
    lemma_tight(p);
    assert(trim_start(s0) == p) by {
        let s1 = s0.drop_first();
        let s2 = s1.drop_first();
        let s3 = s2.drop_first();
        let s4 = s3.drop_first();
        let s5 = s4.drop_first();
        let s6 = s5.drop_first();
        assert(s6 =~= p);
        assert(is_space(s0[0]) && is_space(s1[0]) && is_space(s2[0]) && is_space(s3[0])
            && is_space(s4[0]) && is_space(s5[0]));
        assert(trim_start(s5) == trim_start(s6));
        assert(trim_start(s4) == trim_start(s5));
        assert(trim_start(s3) == trim_start(s4));
        assert(trim_start(s2) == trim_start(s3));
        assert(trim_start(s1) == trim_start(s2));
    }
    assert(trimmed(s0) == p);
    lemma_no_prefix(p, created_by(), 0);
    lemma_no_prefix(p, "freemkv-vid:"@, 0);
    lemma_no_prefix(p, "freemkv-uk:"@, 0);
}

/// A number field reads as the number it was written from.
proof fn lemma_hex_field(n: u64)
    ensures
        ({
            let w = "0x"@ + padded_digits(n as nat, 16, 9);
            &&& w.len() > 0
            &&& w[0] == '0'
            &&& spaceless(w)
            &&& one_line(w)
            &&& hex_value(w) == Some(n as nat)
        }),
{
    reveal_strlit("0x");
    let d = padded_digits(n as nat, 16, 9);
    let w = "0x"@ + d;
    lemma_padded_digits(n as nat, 16, 9);
    assert(digit_text(d));
    lemma_prefix("0x"@, d);
    lemma_digit_text(d, 0);
    assert(unsigned_digits(d) == d);
    assert forall|i: int| 0 <= i < w.len() implies !is_space(#[trigger] w[i]) && w[i] != '\n' by {
        if i >= 2 {
            assert(w[i] == d[i - 2]);
            lemma_digit_text(d, i - 2);
        }
    }
}

proof fn lemma_entry_line(st: Reading, e: MapEntry)
    requires
        st.past_first,
        e.size > 0,
        e.end() <= u64::MAX,
    ensures
        one_line(entry_text(e)),
        read_line(st, entry_text(e)) == Ok::<Reading, MapfileInvalid>(
            Reading { entries: st.entries.push(e), ..st },
        ),
{
    reveal_strlit("0x");
    reveal_strlit("  0x");
    reveal_strlit("    ");
    let line = entry_text(e);
    let c = status_char(e.status);
    let w1 = "0x"@ + padded_digits(e.pos as nat, 16, 9);
    let w2 = "0x"@ + padded_digits(e.size as nat, 16, 9);
    let w3 = seq![c];
    lemma_hex_field(e.pos);
    lemma_hex_field(e.size);
    let sp2 = seq![' ', ' '];
    let sp4 = seq![' ', ' ', ' ', ' '];
    let r2 = sp4 + w3;
    let r1 = sp2 + (w2 + r2);
    assert(line =~= w1 + r1);
    assert(line[0] == w1[0]);
    assert(line.last() == c);
    lemma_tight(line);
    lemma_words_front(w1, r1);
    assert(r1.drop_first().drop_first() =~= w2 + r2);
    assert(r1[0] == ' ' && r1.drop_first()[0] == ' ');
    assert(words(r1) == words(r1.drop_first()));
    assert(words(r1.drop_first()) == words(w2 + r2));
    lemma_words_front(w2, r2);
    let q1 = r2.drop_first();
    let q2 = q1.drop_first();
    let q3 = q2.drop_first();
    let q4 = q3.drop_first();
    assert(q4 =~= w3);
    assert(r2[0] == ' ' && q1[0] == ' ' && q2[0] == ' ' && q3[0] == ' ');
    assert(words(r2) == words(q1));
    assert(words(q1) == words(q2));
    assert(words(q2) == words(q3));
    assert(words(q3) == words(w3));
    lemma_words_front(w3, seq![]);
    assert(w3 + seq![] =~= w3);
    assert(words(Seq::<char>::empty()).len() == 0);
    let f = words(line);
    assert(words(w2 + r2) == seq![w2] + words(w3));
    assert(words(r1)[0] == w2);
    assert(words(r1)[1] == words(w3)[0]);
    assert(f[0] == w1 && f[1] == words(r1)[0] && f[2] == words(r1)[1]);
    assert(f.len() == 3);
    assert(f[2][0] == c);
    assert(data_entry(f) == Ok::<MapEntry, MapfileInvalid>(e));
    assert forall|i: int| 0 <= i < line.len() implies #[trigger] line[i] != '\n' by {
        if i < w1.len() {
            assert(line[i] == w1[i]);
        } else if i < w1.len() + 2 {
            assert(line[i] == sp2[i - w1.len()]);
        } else if i < w1.len() + 2 + w2.len() {
            assert(line[i] == w2[i - w1.len() - 2]);
        } else if i < w1.len() + 2 + w2.len() + 4 {
            assert(line[i] == sp4[i - w1.len() - 2 - w2.len()]);
        } else {
            assert(line[i] == c);
        }
    }
}

/// The lines of ranges at the end of a text.
proof fn lemma_entry_lines(st: Reading, es: Seq<MapEntry>)
    requires
        st.past_first,
        forall|i: int|
            0 <= i < es.len() ==> (#[trigger] es[i]).size > 0 && es[i].end() <= u64::MAX,
    ensures
        read_lines(st, entries_text(es)) == Ok::<Reading, MapfileInvalid>(
            Reading { entries: st.entries + es, ..st },
        ),
    decreases es.len(),
{
    if es.len() == 0 {
        let none = Seq::<char>::empty();
        assert(entries_text(es) =~= none);
        assert(none.take(0) =~= none);
        assert(trimmed(none) =~= none);
        assert(st.entries + es =~= st.entries);
    } else {
        let e = es[0];
        let tail = es.drop_first();
        lemma_entry_line(st, e);
        lemma_first_line(st, entry_text(e), entries_text(tail));
        let next = Reading { entries: st.entries.push(e), ..st };
        assert forall|i: int| 0 <= i < tail.len() implies (#[trigger] tail[i]).size > 0
            && tail[i].end() <= u64::MAX by {
            assert(tail[i] == es[i + 1]);
        }
        lemma_entry_lines(next, tail);
        assert(next.entries + tail =~= st.entries + es);
    }
}

/// A list that is in order and without gaps is not changed by putting it in
/// order and filling its gaps.
proof fn lemma_list_unchanged(es: Seq<MapEntry>)
    requires
        ordered(es),
        no_empty(es),
        chain(es, 0, list_end(es)),
    ensures
        arranged(es) == es,
        filled(es) == Some(es),
    decreases es.len(),
{
    if es.len() == 0 {
        assert(arranged(es) =~= es);
        assert(filled(es)->0 =~= es);
    } else {
        let init = es.drop_last();
        let e = es.last();
        assert(ordered(init));
        assert(no_empty(init));
        if init.len() > 0 {
            assert(init.last() == es[es.len() - 2]);
            assert(es[es.len() - 2].end() == es[es.len() - 1].pos);
            assert(gapless(init)) by {
                assert forall|i: int, j: int| 0 <= i && j == i + 1 && j < init.len() implies (
                #[trigger] init[i]).end() == (#[trigger] init[j]).pos by {
                    assert(es[i].end() == es[j].pos);
                }
            }
        }
        lemma_list_unchanged(init);
        assert(placed(init, e) == init.push(e));
        assert(init.push(e) =~= es);
    }
}

/// What is written of a mapfile is read back as it was: its ranges and its
/// disc's identity, whatever the writer's name is, as long as it stands on one
/// line. The ranges have to cover the disc from its start without a gap and none
/// may be empty. A mapfile that has keys is identified by them alone. Of the
/// name, white space at its end is lost, and no more.
pub proof fn law_text_round_trip(v: MapView)
    requires
        ordered(v.entries),
        no_empty(v.entries),
        chain(v.entries, 0, list_end(v.entries)),
        one_line(v.version),
    ensures
        parsed(map_text(v)) == Ok::<Parsed, MapfileInvalid>(
            Parsed {
                entries: v.entries,
                version: kept_version(v.version),
                vid: if v.unit_keys.len() > 0 {
                    None
                } else {
                    key_bytes(v.vid)
                },
                unit_keys: keys_bytes(v.unit_keys),
            },
        ),
        v.version.len() > 0 && !is_space(v.version.last()) ==> kept_version(v.version) == v.version,
{
    lemma_kept_version(v.version);
    let ks = keys_bytes(v.unit_keys);
    let vid = key_bytes(v.vid);
    let l1 = "# Rescue Logfile. Created by "@ + v.version;
    let l3 = "# Current pos / status / pass / pass_time"@;
    let l4 = "0x000000000  ?  1  0"@;
    let l5 = "#      pos        size  status"@;
    let t5 = entries_text(v.entries);
    let t4 = l5.push('\n') + t5;
    let t3 = l4.push('\n') + t4;
    let t2 = l3.push('\n') + t3;
    let t1 = identity_text(vid, ks) + t2;
    let s0 = nothing_read();
    lemma_version_line(s0, v.version);
    lemma_first_line(s0, l1, t1);
    let s1 = Reading { version: kept_version(v.version), ..s0 };
    let s2 = Reading {
        vid: if ks.len() > 0 {
            None
        } else {
            vid
        },
        unit_keys: ks,
        ..s1
    };
    assert(read_lines(s1, t1) == read_lines(s2, t2)) by {
        if ks.len() > 0 {
            assert forall|i: int| 0 <= i < ks.len() implies (#[trigger] ks[i]).1.len() == 16 by {
                assert(ks[i].1 == v.unit_keys[i].1@);
            }
            lemma_unit_key_lines(s1, ks, t2);
            assert(s1.unit_keys + ks =~= ks);
        } else {
            assert(ks =~= seq![]);
            match v.vid {
                Some(k) => {
                    lemma_vid_line(s1, k@);
                    lemma_first_line(s1, vid_text(k@), t2);
                    assert(t1 =~= vid_text(k@).push('\n') + t2);
                },
                None => {
                    assert(t1 =~= t2);
                },
            }
        }
    }
    lemma_fixed_lines(s2);
    lemma_first_line(s2, l3, t3);
    lemma_first_line(s2, l4, t4);
    let s3 = Reading { past_first: true, ..s2 };
    assert(read_line(Reading { past_first: true, ..s2 }, l5) == Ok::<Reading, MapfileInvalid>(s3));
    lemma_first_line(s3, l5, t5);
    lemma_entry_lines(s3, v.entries);
    assert(s3.entries + v.entries =~= v.entries);
    lemma_list_unchanged(v.entries);
}

proof fn lemma_same_keys(a: Seq<(u32, Key)>, b: Seq<(u32, Key)>)
    requires
        keys_bytes(a) == keys_bytes(b),
    ensures
        a == b,
{
    let ka = keys_bytes(a);
    let kb = keys_bytes(b);
    assert(ka.len() == a.len() && kb.len() == b.len());
    assert forall|i: int| 0 <= i < a.len() implies a[i] == b[i] by {
        assert(ka[i] == kb[i]);
        assert(a[i].1 =~= b[i].1);
    }
    assert(a =~= b);
}

/// Reading undoes writing: the mapfile that is read back has the ranges, the
/// size, the statistics and the identity of the one that was written, and
/// nothing left to write. Of the writer's name, white space at its end is lost.
pub proof fn law_load_undoes_the_write(v: MapView, w: MapView)
    requires
        ordered(v.entries),
        no_empty(v.entries),
        partitions(v.entries, v.total_size as int),
        stats_match(v.stats, v.entries, v.total_size),
        v.unit_keys.len() > 0 ==> v.vid is None,
        one_line(v.version),
        reads_as(map_text(v), w),
    ensures
        w.entries == v.entries,
        w.total_size == v.total_size,
        w.stats == v.stats,
        w.vid == v.vid,
        w.unit_keys == v.unit_keys,
        !w.dirty,
        w.version == kept_version(v.version),
{
    law_text_round_trip(v);
    lemma_same_keys(w.unit_keys, v.unit_keys);
    if v.vid is Some {
        assert(v.vid->0 =~= w.vid->0);
    }
    assert(w.stats == v.stats);
}

/// What is recorded of a disc survives the text, whatever it is: a mapfile that
/// was created for a disc and had ranges of it recorded, and then its identity,
/// is read back with all of it.
pub proof fn law_a_created_mapfile_reads_back(
    total_size: u64,
    version: Seq<char>,
    rs: Seq<MapEntry>,
    v: MapView,
    w: MapView,
)
    requires
        total_size > 0,
        one_line(version),
        forall|i: int|
            0 <= i < rs.len() ==> (#[trigger] rs[i]).size > 0 && rs[i].end() <= total_size,
        v.entries == all_recorded(fresh_map(total_size, version).entries, rs),
        v.total_size == total_size,
        v.version == version,
        stats_match(v.stats, v.entries, v.total_size),
        v.unit_keys.len() > 0 ==> v.vid is None,
        reads_as(map_text(v), w),
    ensures
        w.entries == all_recorded(fresh_map(total_size, version).entries, rs),
        w.total_size == total_size,
        w.stats == v.stats,
        w.vid == v.vid,
        w.unit_keys == v.unit_keys,
{
    law_records_keep_the_partition(fresh_map(total_size, version).entries, rs, total_size as int);
    law_load_undoes_the_write(v, w);
}

/// Writing what was read back reproduces the text, but for white space at the
/// end of the writer's name; and what was rewritten once is reproduced exactly.
pub proof fn law_rewriting_reproduces_the_text(v: MapView, w: MapView)
    requires
        ordered(v.entries),
        no_empty(v.entries),
        chain(v.entries, 0, list_end(v.entries)),
        one_line(v.version),
        reads_as(map_text(v), w),
    ensures
        map_text(w) == map_text((MapView { version: kept_version(v.version), ..v })),
        v.version.len() > 0 && !is_space(v.version.last()) ==> map_text(w) == map_text(v),
        kept_version(w.version) == w.version,
{
    law_text_round_trip(v);
    lemma_kept_version(v.version);
    assert(keys_bytes(w.unit_keys).len() == w.unit_keys.len());
    assert(keys_bytes(v.unit_keys).len() == v.unit_keys.len());
}

/// No text is read as both keys and a volume id.
pub proof fn law_keys_exclude_the_volume_id(text: Seq<char>)
    ensures
        parsed(text) matches Ok(p) ==> p.unit_keys.len() > 0 ==> p.vid is None,
{
}

proof fn lemma_filled_partition(es: Seq<MapEntry>)
    requires
        sound(es),
    ensures
        filled(es) matches Some(f) ==> ordered(f) && no_empty(f) && chain(f, 0, list_end(f)),
    decreases es.len(),
{
    if es.len() > 0 {
        let init = es.drop_last();
        assert forall|i: int| 0 <= i < init.len() implies (#[trigger] init[i]).size > 0
            && init[i].end() <= u64::MAX by {
            assert(init[i] == es[i]);
        }
        lemma_filled_partition(init);
        assert(es.last() == es[es.len() - 1]);
        if filled(init) is Some {
            let f = filled(init)->0;
            let e = es.last();
            if e.pos > list_end(f) {
                let gap = MapEntry {
                    pos: list_end(f) as u64,
                    size: (e.pos - list_end(f)) as u64,
                    status: SectorStatus::NonTried,
                };
                lemma_extend(f, gap);
                lemma_extend(f.push(gap), e);
            } else if e.pos == list_end(f) {
                lemma_extend(f, e);
            }
        }
    }
}

proof fn lemma_arranged_sound(es: Seq<MapEntry>)
    requires
        sound(es),
    ensures
        sound(arranged(es)),
    decreases es.len(),
{
    if es.len() > 0 {
        let init = es.drop_last();
        assert forall|i: int| 0 <= i < init.len() implies (#[trigger] init[i]).size > 0
            && init[i].end() <= u64::MAX by {
            assert(init[i] == es[i]);
        }
        lemma_arranged_sound(init);
        assert(es.last() == es[es.len() - 1]);
        lemma_placed_sound(arranged(init), es.last());
    }
}

proof fn lemma_placed_sound(es: Seq<MapEntry>, e: MapEntry)
    requires
        sound(es),
        e.size > 0,
        e.end() <= u64::MAX,
    ensures
        sound(placed(es, e)),
    decreases es.len(),
{
    if es.len() > 0 && es.last().pos > e.pos {
        let init = es.drop_last();
        assert forall|i: int| 0 <= i < init.len() implies (#[trigger] init[i]).size > 0
            && init[i].end() <= u64::MAX by {
            assert(init[i] == es[i]);
        }
        assert(es.last() == es[es.len() - 1]);
        lemma_placed_sound(init, e);
    }
}

proof fn lemma_lines_sound(st: Reading, s: Seq<char>)
    requires
        sound(st.entries),
    ensures
        read_lines(st, s) matches Ok(next) ==> sound(next.entries),
    decreases s.len(),
{
    lemma_line_end(s);
    let k = line_end(s);
    match read_line(st, s.take(k)) {
        Err(e) => {},
        Ok(next) => {
            assert(sound(next.entries));
            if k < s.len() {
                lemma_lines_sound(next, s.skip(k + 1));
            }
        },
    }
}

/// What is read of any text covers its disc from zero without a gap, in order
/// and without an empty range.
pub proof fn law_text_reads_as_a_partition(text: Seq<char>)
    ensures
        parsed(text) matches Ok(p) ==> ordered(p.entries) && no_empty(p.entries) && chain(
            p.entries,
            0,
            list_end(p.entries),
        ),
{
    lemma_lines_sound(nothing_read(), text);
    match read_lines(nothing_read(), text) {
        Ok(st) => {
            lemma_arranged_sound(st.entries);
            lemma_filled_partition(arranged(st.entries));
        },
        Err(k) => {},
    }
}

/// Whose disc a mapfile is survives its text: the mapfile that is read back is
/// refused or accepted as the one that was written.
pub proof fn law_identity_survives_the_text(v: MapView, w: MapView, disc: Disc)
    requires
        ordered(v.entries),
        no_empty(v.entries),
        chain(v.entries, 0, list_end(v.entries)),
        one_line(v.version),
        reads_as(map_text(v), w),
    ensures
        identity_matches(w, disc) == identity_matches(v, disc),
{
    law_text_round_trip(v);
    lemma_same_keys(v.unit_keys, w.unit_keys);
    if v.unit_keys.len() == 0 && v.vid is Some {
        assert(v.vid->0 =~= w.vid->0);
    }
}

} // verus!
