//! Characters, words and numbers: the lexical layer of the mapfile format.
//!
//! Everything here is stated over `Seq<char>`; the executable side works on
//! slices of characters.

use vstd::prelude::*;
use vstd::slice::slice_subrange;

verus! {

// ---------------------------------------------------------------------------
// White space, trimming, words
// ---------------------------------------------------------------------------

/// The Unicode `White_Space` property.
pub open spec fn is_space(c: char) -> bool {
    ||| 0x09 <= c as u32 <= 0x0d
    ||| c as u32 == 0x20
    ||| c as u32 == 0x85
    ||| c as u32 == 0xa0
    ||| c as u32 == 0x1680
    ||| 0x2000 <= c as u32 <= 0x200a
    ||| c as u32 == 0x2028
    ||| c as u32 == 0x2029
    ||| c as u32 == 0x202f
    ||| c as u32 == 0x205f
    ||| c as u32 == 0x3000
}

/// Whether a character is white space.
pub fn space(c: char) -> (r: bool)
    ensures
        r == is_space(c),
{
    let n: u32 = c as u32;
    (0x09 <= n && n <= 0x0d) || n == 0x20 || n == 0x85 || n == 0xa0 || n == 0x1680
        || (0x2000 <= n && n <= 0x200a) || n == 0x2028 || n == 0x2029 || n == 0x202f
        || n == 0x205f || n == 0x3000
}

/// A string without its leading white space.
pub open spec fn trim_start(s: Seq<char>) -> Seq<char>
    decreases s.len(),
{
    if s.len() > 0 && is_space(s[0]) {
        trim_start(s.drop_first())
    } else {
        s
    }
}

/// A string without its trailing white space.
pub open spec fn trim_end(s: Seq<char>) -> Seq<char>
    decreases s.len(),
{
    if s.len() > 0 && is_space(s.last()) {
        trim_end(s.drop_last())
    } else {
        s
    }
}

/// A string without white space at either end.
pub open spec fn trimmed(s: Seq<char>) -> Seq<char> {
    trim_end(trim_start(s))
}

/// The slice without white space at either end.
pub fn trim(s: &[char]) -> (r: &[char])
    ensures
        r@ == trimmed(s@),
{
    let mut a: usize = 0;
    assert(s@.skip(0) =~= s@);
    while a < s.len() && space(s[a])
        invariant
            a <= s@.len(),
            trim_start(s@) == trim_start(s@.skip(a as int)),
        decreases s@.len() - a,
    {
        assert(s@.skip(a as int)[0] == s@[a as int]);
        assert(s@.skip(a as int).drop_first() =~= s@.skip(a + 1));
        a = a + 1;
    }
    proof {
        if a < s@.len() {
            assert(s@.skip(a as int)[0] == s@[a as int]);
        }
        assert(trim_start(s@) == s@.skip(a as int));
    }
    let mut b: usize = s.len();
    assert(s@.subrange(a as int, b as int) =~= s@.skip(a as int));
    while a < b && space(s[b - 1])
        invariant
            a <= b <= s@.len(),
            trimmed(s@) == trim_end(s@.subrange(a as int, b as int)),
        decreases b - a,
    {
        let ghost t = s@.subrange(a as int, b as int);
        assert(t.last() == s@[b - 1]);
        assert(t.drop_last() =~= s@.subrange(a as int, b - 1));
        b = b - 1;
    }
    proof {
        let t = s@.subrange(a as int, b as int);
        if a < b {
            assert(t.last() == s@[b - 1]);
        }
    }
    slice_subrange(s, a, b)
}

/// The maximal runs of non-space characters, in order.
pub open spec fn words(s: Seq<char>) -> Seq<Seq<char>>
    decreases s.len(),
{
    if s.len() == 0 {
        seq![]
    } else {
        let rest = words(s.drop_first());
        if is_space(s[0]) {
            rest
        } else if s.len() > 1 && !is_space(s[1]) {
            rest.update(0, seq![s[0]] + rest[0])
        } else {
            seq![seq![s[0]]] + rest
        }
    }
}

/// Words are apart: `n` of them take at least `n` characters and the spaces
/// between them.
pub proof fn lemma_words_take_room(s: Seq<char>)
    ensures
        2 * words(s).len() <= s.len() + 1,
        s.len() > 0 && is_space(s[0]) ==> 2 * words(s).len() <= s.len(),
        s.len() > 0 && !is_space(s[0]) ==> words(s).len() > 0,
    decreases s.len(),
{
    if s.len() > 0 {
        let rest = s.drop_first();
        lemma_words_take_room(rest);
        if s.len() > 1 {
            assert(rest[0] == s[1]);
        } else {
            assert(words(rest).len() == 0);
        }
    }
}

/// Trimming makes nothing longer.
pub proof fn lemma_trimmed_len(s: Seq<char>)
    ensures
        trim_start(s).len() <= s.len(),
        trim_end(s).len() <= s.len(),
    decreases s.len(),
{
    if s.len() > 0 {
        lemma_trimmed_len(s.drop_first());
        lemma_trimmed_len(s.drop_last());
    }
}

/// Whether no character of a string is white space.
pub open spec fn spaceless(s: Seq<char>) -> bool {
    forall|i: int| 0 <= i < s.len() ==> !is_space(#[trigger] s[i])
}

/// A word at the front, ended by white space or by the end of the string, is
/// the first word.
pub proof fn lemma_words_front(w: Seq<char>, rest: Seq<char>)
    requires
        w.len() > 0,
        spaceless(w),
        rest.len() == 0 || is_space(rest[0]),
    ensures
        words(w + rest) == seq![w] + words(rest),
    decreases w.len(),
{
    let s = w + rest;
    if w.len() == 1 {
        assert(s.drop_first() =~= rest);
        assert(w =~= seq![s[0]]);
        if rest.len() > 0 {
            assert(s[1] == rest[0]);
        }
        assert(words(s) == seq![seq![s[0]]] + words(rest));
    } else {
        let v = w.drop_first();
        assert(s.drop_first() =~= v + rest);
        assert forall|i: int| 0 <= i < v.len() implies !is_space(#[trigger] v[i]) by {
            assert(v[i] == w[i + 1]);
        }
        lemma_words_front(v, rest);
        assert(s[1] == w[1]);
        assert(seq![s[0]] + v =~= w);
        let r = words(s.drop_first());
        assert(r == seq![v] + words(rest));
        assert(r[0] == v);
        assert(r.update(0, w) =~= seq![w] + words(rest));
    }
}

/// No word is empty.
proof fn lemma_words_are_words(s: Seq<char>)
    ensures
        forall|k: int| 0 <= k < words(s).len() ==> (#[trigger] words(s)[k]).len() > 0,
        s.len() > 0 && !is_space(s[0]) ==> words(s).len() > 0,
    decreases s.len(),
{
    if s.len() > 0 {
        lemma_words_are_words(s.drop_first());
        if s.len() > 1 {
            assert(s.drop_first()[0] == s[1]);
        }
        let rest = words(s.drop_first());
        assert forall|k: int| 0 <= k < words(s).len() implies (#[trigger] words(s)[k]).len() > 0 by {
            if !is_space(s[0]) {
                if s.len() > 1 && !is_space(s[1]) {
                    if k > 0 {
                        assert(words(s)[k] == rest[k]);
                    }
                } else if k > 0 {
                    assert(words(s)[k] == rest[k - 1]);
                }
            }
        }
    }
}

/// What a list of slices holds.
pub open spec fn views(ws: Seq<&[char]>) -> Seq<Seq<char>> {
    ws.map_values(|w: &[char]| w@)
}

/// The words of a slice, in order. None is empty.
pub fn split_words<'a>(s: &'a [char]) -> (out: Vec<&'a [char]>)
    ensures
        views(out@) == words(s@),
        forall|k: int| 0 <= k < out@.len() ==> (#[trigger] out@[k])@.len() > 0,
{
    let mut out: Vec<&'a [char]> = Vec::new();
    let mut i: usize = 0;
    let n: usize = s.len();
    assert(s@.skip(0) =~= s@);
    while i < n
        invariant
            i <= n == s@.len(),
            words(s@).len() == out@.len() + words(s@.skip(i as int)).len(),
            forall|k: int| 0 <= k < out@.len() ==> (#[trigger] out@[k])@ == words(s@)[k],
            forall|k: int|
                0 <= k < words(s@.skip(i as int)).len() ==> words(s@)[out@.len() + k]
                    == #[trigger] words(s@.skip(i as int))[k],
        decreases n - i,
    {
        let ghost here = s@.skip(i as int);
        assert(here[0] == s@[i as int]);
        if space(s[i]) {
            assert(here.drop_first() =~= s@.skip(i + 1));
            i = i + 1;
        } else {
            let mut j: usize = i + 1;
            while j < n && !space(s[j])
                invariant
                    i < j <= n == s@.len(),
                    spaceless(s@.subrange(i as int, j as int)),
                decreases n - j,
            {
                let ghost w0 = s@.subrange(i as int, j as int);
                let ghost w1 = s@.subrange(i as int, j + 1);
                assert forall|k: int| 0 <= k < w1.len() implies !is_space(#[trigger] w1[k]) by {
                    if k < w0.len() {
                        assert(w1[k] == w0[k]);
                    } else {
                        assert(w1[k] == s@[j as int]);
                    }
                }
                j = j + 1;
            }
            let w: &'a [char] = slice_subrange(s, i, j);
            proof {
                let rest = s@.skip(j as int);
                if j < n {
                    assert(rest[0] == s@[j as int]);
                }
                lemma_words_front(w@, rest);
                assert(w@ + rest =~= here);
                assert(words(here) == seq![w@] + words(rest));
                assert(words(here)[0] == w@);
                assert forall|k: int| 0 <= k < words(rest).len() implies words(s@)[out@.len() + 1
                    + k] == #[trigger] words(rest)[k] by {
                    assert(words(here)[k + 1] == words(rest)[k]);
                }
            }
            out.push(w);
            i = j;
        }
    }
    proof {
        assert(s@.skip(n as int).len() == 0);
        assert(views(out@) =~= words(s@));
        lemma_words_are_words(s@);
        assert forall|k: int| 0 <= k < out@.len() implies (#[trigger] out@[k])@.len() > 0 by {
            assert(words(s@)[k].len() > 0);
        }
    }
    out
}

// ---------------------------------------------------------------------------
// Prefixes
// ---------------------------------------------------------------------------

/// Whether a string starts with a prefix.
pub open spec fn has_prefix(s: Seq<char>, p: Seq<char>) -> bool {
    p.len() <= s.len() && s.take(p.len() as int) == p
}

/// What follows a prefix, where the string has it.
pub open spec fn after_prefix(s: Seq<char>, p: Seq<char>) -> Option<Seq<char>> {
    if has_prefix(s, p) {
        Some(s.skip(p.len() as int))
    } else {
        None
    }
}

/// What follows a prefix, where the slice has it.
pub fn strip_prefix<'a>(s: &'a [char], p: &str) -> (r: Option<&'a [char]>)
    ensures
        r is Some <==> after_prefix(s@, p@) is Some,
        r is Some ==> after_prefix(s@, p@) == Some(r->0@),
{
    let mut i: usize = 0;
    for c in it: p.chars()
        invariant
            it.seq() == p@,
            i == it.index(),
            i <= s@.len(),
            s@.take(i as int) == p@.take(i as int),
    {
        assert(c == p@[i as int]);
        if i >= s.len() || s[i] != c {
            proof {
                if has_prefix(s@, p@) {
                    assert(s@.take(p@.len() as int)[i as int] == p@[i as int]);
                }
            }
            return None;
        }
        proof {
            assert(s@.take(i + 1) =~= s@.take(i as int).push(s@[i as int]));
            assert(p@.take(i + 1) =~= p@.take(i as int).push(p@[i as int]));
        }
        i = i + 1;
    }
    assert(p@.take(p@.len() as int) =~= p@);
    assert(s@.skip(i as int) =~= s@.subrange(i as int, s@.len() as int));
    Some(slice_subrange(s, i, s.len()))
}

// ---------------------------------------------------------------------------
// Numbers
// ---------------------------------------------------------------------------

/// The value of a digit: `0`-`9`, then `a`-`z` in either case.
pub open spec fn digit_rank(c: char) -> nat {
    if 0x30 <= c as u32 <= 0x39 {
        (c as u32 - 0x30) as nat
    } else if 0x61 <= c as u32 <= 0x7a {
        (c as u32 - 0x61 + 10) as nat
    } else if 0x41 <= c as u32 <= 0x5a {
        (c as u32 - 0x41 + 10) as nat
    } else {
        36
    }
}

/// Whether every character is a digit of the radix.
pub open spec fn all_digits(s: Seq<char>, radix: nat) -> bool {
    forall|i: int| 0 <= i < s.len() ==> digit_rank(#[trigger] s[i]) < radix
}

/// The number that a string of digits writes, most significant digit first.
pub open spec fn digits_value(s: Seq<char>, radix: nat) -> nat
    decreases s.len(),
{
    if s.len() == 0 {
        0
    } else {
        digits_value(s.drop_last(), radix) * radix + digit_rank(s.last())
    }
}

/// The digits of a number: the string without its optional leading `+`.
pub open spec fn unsigned_digits(s: Seq<char>) -> Seq<char> {
    if s.len() > 0 && s[0] == '+' {
        s.skip(1)
    } else {
        s
    }
}

/// The unsigned number that a string writes in a radix, up to a maximum: an
/// optional `+`, then at least one digit, and nothing else.
pub open spec fn unsigned_value(s: Seq<char>, radix: nat, max: nat) -> Option<nat> {
    let d = unsigned_digits(s);
    if d.len() > 0 && all_digits(d, radix) && digits_value(d, radix) <= max {
        Some(digits_value(d, radix))
    } else {
        None
    }
}

/// The value of a digit; 36 for a character that is no digit.
pub fn rank(c: char) -> (r: u64)
    ensures
        r == digit_rank(c),
        r <= 36,
{
    let n: u32 = c as u32;
    if 0x30 <= n && n <= 0x39 {
        (n - 0x30) as u64
    } else if 0x61 <= n && n <= 0x7a {
        (n - 0x61 + 10) as u64
    } else if 0x41 <= n && n <= 0x5a {
        (n - 0x41 + 10) as u64
    } else {
        36
    }
}

/// More digits never make a smaller number.
proof fn lemma_digits_value_grows(s: Seq<char>, k: int, radix: nat)
    requires
        0 <= k <= s.len(),
        radix >= 1,
    ensures
        digits_value(s.take(k), radix) <= digits_value(s, radix),
    decreases s.len() - k,
{
    if k == s.len() {
        assert(s.take(k) =~= s);
    } else {
        lemma_digits_value_grows(s, k + 1, radix);
        assert(s.take(k + 1).drop_last() =~= s.take(k));
        let a = digits_value(s.take(k), radix);
        assert(a <= a * radix) by (nonlinear_arith)
            requires
                radix >= 1,
        ;
    }
}

/// Parse an unsigned number; `None` where the text is no number of the radix
/// or exceeds `max`.
pub fn parse_unsigned(s: &[char], radix: u64, max: u64) -> (r: Option<u64>)
    requires
        2 <= radix <= 36,
    ensures
        r is Some <==> unsigned_value(s@, radix as nat, max as nat) is Some,
        r is Some ==> unsigned_value(s@, radix as nat, max as nat) == Some(r->0 as nat),
{
    let plus: usize = if s.len() > 0 && s[0] == '+' {
        1
    } else {
        0
    };
    let ghost d = unsigned_digits(s@);
    assert(d =~= s@.skip(plus as int));
    if s.len() == plus {
        return None;
    }
    let mut acc: u64 = 0;
    let mut i: usize = plus;
    assert(d.take(0).len() == 0);
    while i < s.len()
        invariant
            plus <= i <= s@.len(),
            d == s@.skip(plus as int),
            d == unsigned_digits(s@),
            2 <= radix <= 36,
            all_digits(d.take(i - plus), radix as nat),
            acc == digits_value(d.take(i - plus), radix as nat),
            acc <= max,
        decreases s@.len() - i,
    {
        let v: u64 = rank(s[i]);
        let ghost k = i - plus;
        assert(d[k] == s@[i as int]);
        assert(d.take(k + 1).drop_last() =~= d.take(k));
        assert(d.take(k + 1).last() == d[k]);
        if v >= radix {
            return None;
        }
        proof {
            assert forall|j: int| 0 <= j < k + 1 implies digit_rank(#[trigger] d.take(k + 1)[j])
                < radix by {
                if j < k {
                    assert(d.take(k)[j] == d.take(k + 1)[j]);
                }
            }
            lemma_digits_value_grows(d, k + 1, radix as nat);
            assert(digits_value(d.take(k + 1), radix as nat) == acc * radix + v);
        }
        acc = match acc.checked_mul(radix) {
            None => {
                return None;
            },
            Some(m) => match m.checked_add(v) {
                None => {
                    return None;
                },
                Some(x) => x,
            },
        };
        if acc > max {
            return None;
        }
        i = i + 1;
    }
    assert(d.take(d.len() as int) =~= d);
    Some(acc)
}

/// The digit that writes a value below sixteen, in lower case.
pub open spec fn digit_char(v: nat) -> char {
    if v < 10 {
        (0x30 + v) as char
    } else {
        (0x57 + v) as char
    }
}

/// The digits that write a number in a radix, without leading zeros.
pub open spec fn digits_of(n: nat, radix: nat) -> Seq<char>
    decreases n
        via digits_of_shrinks
{
    if radix < 2 || n < radix {
        seq![digit_char(n)]
    } else {
        digits_of(n / radix, radix).push(digit_char(n % radix))
    }
}

#[via_fn]
proof fn digits_of_shrinks(n: nat, radix: nat) {
    if radix >= 2 && n >= radix {
        assert(n / radix < n) by (nonlinear_arith)
            requires
                n >= radix,
                radix >= 2,
        ;
    }
}

/// The digits of a number, filled with zeros in front to a least width.
pub open spec fn padded_digits(n: nat, radix: nat, width: nat) -> Seq<char> {
    let d = digits_of(n, radix);
    if d.len() < width {
        zeros((width - d.len()) as nat) + d
    } else {
        d
    }
}

/// A run of the digit zero.
pub open spec fn zeros(n: nat) -> Seq<char> {
    Seq::new(n, |i: int| '0')
}

/// The digit that writes a value below sixteen, in lower case.
pub fn digit(v: u64) -> (c: char)
    requires
        v < 16,
    ensures
        c == digit_char(v as nat),
{
    if v < 10 {
        (0x30 + v as u8) as char
    } else {
        (0x57 + v as u8) as char
    }
}

pub proof fn lemma_digit_char(v: nat)
    requires
        v < 16,
    ensures
        digit_rank(digit_char(v)) == v,
        !is_space(digit_char(v)),
        digit_char(v) != '+',
        digit_char(v) != ':',
        digit_char(v) != 'x',
        digit_char(v) != 'X',
        digit_char(v) != '\n',
        digit_char(v) != '#',
{
}

/// Append the digits of a number, most significant first.
pub fn push_digits(out: &mut Vec<char>, n: u64, radix: u64)
    requires
        2 <= radix <= 16,
    ensures
        final(out)@ == old(out)@ + digits_of(n as nat, radix as nat),
    decreases n,
{
    if n < radix {
        out.push(digit(n));
        assert(out@ =~= old(out)@ + digits_of(n as nat, radix as nat));
    } else {
        proof {
            assert(n / radix < n) by (nonlinear_arith)
                requires
                    n >= radix,
                    radix >= 2,
            ;
            assert((n as nat) / (radix as nat) == (n / radix) as nat);
            assert(n % radix < radix);
        }
        push_digits(out, n / radix, radix);
        out.push(digit(n % radix));
        assert(out@ =~= old(out)@ + digits_of(n as nat, radix as nat));
    }
}

/// How many digits a number takes.
fn digit_count(n: u64, radix: u64) -> (r: usize)
    requires
        2 <= radix <= 16,
    ensures
        r == digits_of(n as nat, radix as nat).len(),
        1 <= r <= 64,
{
    let mut r: usize = 1;
    let mut m: u64 = n;
    proof {
        assert(vstd::arithmetic::power2::pow2(64) == 0x1_0000_0000_0000_0000) by {
            vstd::arithmetic::power2::lemma2_to64();
        }
    }
    let ghost mut room: nat = 63;
    while m >= radix
        invariant
            2 <= radix <= 16,
            1 <= r,
            r + room == 64,
            (m as nat) < vstd::arithmetic::power2::pow2(room + 1),
            digits_of(n as nat, radix as nat).len() == r - 1 + digits_of(
                m as nat,
                radix as nat,
            ).len(),
        decreases m,
    {
        proof {
            assert(m / radix < m) by (nonlinear_arith)
                requires
                    m >= radix,
                    radix >= 2,
            ;
            assert(m / radix <= m / 2) by (nonlinear_arith)
                requires
                    radix >= 2,
            ;
            vstd::arithmetic::power2::lemma_pow2_unfold(room + 1);
            if room == 0 {
                vstd::arithmetic::power2::lemma2_to64();
            }
            room = (room - 1) as nat;
        }
        m = m / radix;
        r = r + 1;
    }
    r
}

/// Append the digits of a number, filled with zeros to a least width.
pub fn push_padded(out: &mut Vec<char>, n: u64, radix: u64, width: usize)
    requires
        2 <= radix <= 16,
    ensures
        final(out)@ == old(out)@ + padded_digits(n as nat, radix as nat, width as nat),
{
    let len: usize = digit_count(n, radix);
    let ghost start = out@;
    let mut k: usize = len;
    assert(start + zeros(0) =~= start);
    while k < width
        invariant
            len <= k,
            k <= width || k == len,
            out@ == start + zeros((k - len) as nat),
        decreases width - k,
    {
        out.push('0');
        assert(out@ =~= start + zeros((k + 1 - len) as nat));
        k = k + 1;
    }
    push_digits(out, n, radix);
    assert(out@ =~= start + padded_digits(n as nat, radix as nat, width as nat));
}

/// The digits of a number write the number.
pub proof fn lemma_digits_of(n: nat, radix: nat)
    requires
        2 <= radix <= 16,
    ensures
        digits_of(n, radix).len() > 0,
        all_digits(digits_of(n, radix), radix),
        digits_value(digits_of(n, radix), radix) == n,
        forall|i: int|
            0 <= i < digits_of(n, radix).len() ==> exists|v: nat|
                v < 16 && #[trigger] digits_of(n, radix)[i] == digit_char(v),
    decreases n,
{
    let d = digits_of(n, radix);
    if n < radix {
        lemma_digit_char(n);
        assert(d.drop_last().len() == 0);
        assert(digits_value(d.drop_last(), radix) == 0);
        assert(0 * radix == 0);
        assert(d[0] == digit_char(n));
    } else {
        assert(n / radix < n) by (nonlinear_arith)
            requires
                n >= radix,
                radix >= 2,
        ;
        lemma_digits_of(n / radix, radix);
        let p = digits_of(n / radix, radix);
        lemma_digit_char(n % radix);
        assert(d.drop_last() =~= p);
        assert(n == (n / radix) * radix + n % radix) by (nonlinear_arith)
            requires
                radix >= 2,
        ;
        assert forall|i: int| 0 <= i < d.len() implies exists|v: nat|
            v < 16 && #[trigger] d[i] == digit_char(v) by {
            if i < p.len() {
                assert(d[i] == p[i]);
            } else {
                assert(d[i] == digit_char(n % radix));
            }
        }
        assert forall|i: int| 0 <= i < d.len() implies digit_rank(#[trigger] d[i]) < radix by {
            if i < p.len() {
                assert(d[i] == p[i]);
            }
        }
    }
}

/// Zeros in front of a number do not change it.
proof fn lemma_zeros_in_front(k: nat, s: Seq<char>, radix: nat)
    ensures
        digits_value(zeros(k) + s, radix) == digits_value(s, radix),
    decreases k + s.len(),
{
    let t = zeros(k) + s;
    if s.len() > 0 {
        assert(t.drop_last() =~= zeros(k) + s.drop_last());
        lemma_zeros_in_front(k, s.drop_last(), radix);
    } else if k > 0 {
        assert(t.drop_last() =~= zeros((k - 1) as nat) + s);
        lemma_zeros_in_front((k - 1) as nat, s, radix);
        assert(digit_rank(t.last()) == 0);
        assert(0 * radix == 0);
    } else {
        assert(t =~= s);
    }
}

/// The padded digits of a number write the number.
pub proof fn lemma_padded_digits(n: nat, radix: nat, width: nat)
    requires
        2 <= radix <= 16,
    ensures
        padded_digits(n, radix, width).len() > 0,
        all_digits(padded_digits(n, radix, width), radix),
        digits_value(padded_digits(n, radix, width), radix) == n,
        forall|i: int|
            0 <= i < padded_digits(n, radix, width).len() ==> exists|v: nat|
                v < 16 && #[trigger] padded_digits(n, radix, width)[i] == digit_char(v),
{
    let d = digits_of(n, radix);
    let p = padded_digits(n, radix, width);
    lemma_digits_of(n, radix);
    if d.len() < width {
        let k = (width - d.len()) as nat;
        lemma_zeros_in_front(k, d, radix);
        lemma_digit_char(0);
        assert(digit_char(0) == '0');
        assert forall|i: int| 0 <= i < p.len() implies digit_rank(#[trigger] p[i]) < radix && exists|
            v: nat,
        |
            v < 16 && p[i] == digit_char(v) by {
            if i < k {
                assert(p[i] == digit_char(0));
            } else {
                assert(p[i] == d[i - k]);
            }
        }
    }
}

} // verus!
