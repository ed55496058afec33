//! What trimming, splitting and numbers come to.

use crate::text::{
    after_prefix, digit_char, digit_rank, digits_of, digits_value, is_space, lemma_digits_of,
    lemma_padded_digits, lemma_words_front, padded_digits, spaceless, trim_end, trim_start, trimmed,
    unsigned_value, words,
};
use vstd::prelude::*;

verus! {

/// A string of white space alone.
pub open spec fn blank(s: Seq<char>) -> bool {
    forall|i: int| 0 <= i < s.len() ==> is_space(#[trigger] s[i])
}

proof fn lemma_trim_start(a: Seq<char>, u: Seq<char>)
    requires
        blank(a),
        u.len() > 0 ==> !is_space(u[0]),
    ensures
        trim_start(a + u) == u,
    decreases a.len(),
{
    if a.len() == 0 {
        assert(a + u =~= u);
    } else {
        let s = a + u;
        assert(s[0] == a[0]);
        assert(s.drop_first() =~= a.drop_first() + u);
        assert forall|i: int| 0 <= i < a.drop_first().len() implies is_space(
            #[trigger] a.drop_first()[i],
        ) by {
            assert(a.drop_first()[i] == a[i + 1]);
        }
        lemma_trim_start(a.drop_first(), u);
    }
}

proof fn lemma_trim_end(t: Seq<char>, b: Seq<char>)
    requires
        blank(b),
        t.len() > 0 ==> !is_space(t.last()),
    ensures
        trim_end(t + b) == t,
    decreases b.len(),
{
    if b.len() == 0 {
        assert(t + b =~= t);
    } else {
        let s = t + b;
        assert(s.last() == b.last());
        assert(s.drop_last() =~= t + b.drop_last());
        assert(b.last() == b[b.len() - 1]);
        assert forall|i: int| 0 <= i < b.drop_last().len() implies is_space(
            #[trigger] b.drop_last()[i],
        ) by {
            assert(b.drop_last()[i] == b[i]);
        }
        lemma_trim_end(t, b.drop_last());
    }
}

/// Trimming takes the white space off both ends, all of it, and nothing else.
pub proof fn law_trimming(a: Seq<char>, t: Seq<char>, b: Seq<char>)
    requires
        blank(a),
        blank(b),
        t.len() > 0 ==> !is_space(t[0]) && !is_space(t.last()),
    ensures
        trimmed(a + t + b) == t,
{
    if t.len() > 0 {
        assert(a + t + b =~= a + (t + b));
        assert((t + b)[0] == t[0]);
        lemma_trim_start(a, t + b);
        lemma_trim_end(t, b);
    } else {
        let s = a + t + b;
        assert forall|i: int| 0 <= i < s.len() implies is_space(#[trigger] s[i]) by {
            if i < a.len() {
                assert(s[i] == a[i]);
            } else {
                assert(s[i] == b[i - a.len()]);
            }
        }
        lemma_trim_start(s, t);
        assert(s + t =~= s);
        assert(t =~= Seq::<char>::empty());
    }
}

/// Words are what stands between white space: a word goes up to the next white
/// space or the end, and white space in front of it does not count.
pub proof fn law_splitting(w: Seq<char>, c: char, rest: Seq<char>)
    requires
        w.len() > 0,
        spaceless(w),
        is_space(c),
    ensures
        words(Seq::<char>::empty()).len() == 0,
        words(w) == seq![w],
        words(w + seq![c] + rest) == seq![w] + words(rest),
        words(seq![c] + rest) == words(rest),
{
    let s = seq![c] + rest;
    assert(s[0] == c);
    assert(s.drop_first() =~= rest);
    assert(w + seq![c] + rest =~= w + s);
    lemma_words_front(w, s);
    let none = Seq::<char>::empty();
    lemma_words_front(w, none);
    assert(w + none =~= w);
    assert(words(none) =~= seq![]);
    assert(seq![w] + words(none) =~= seq![w]);
}

/// What a digit is worth: `0` to `9`, then the letters in either case; any other
/// character is worth no less than thirty-six, more than any radix has.
pub proof fn law_what_a_digit_is_worth(c: char)
    ensures
        '0' <= c <= '9' ==> digit_rank(c) == c as u32 - 48,
        'a' <= c <= 'z' ==> digit_rank(c) == c as u32 - 97 + 10,
        'A' <= c <= 'Z' ==> digit_rank(c) == c as u32 - 65 + 10,
        !('0' <= c <= '9') && !('a' <= c <= 'z') && !('A' <= c <= 'Z') ==> digit_rank(c) >= 36,
{
}

/// What a number is worth: each digit more multiplies by the radix and adds.
pub proof fn law_what_a_number_is_worth(s: Seq<char>, c: char, radix: nat)
    ensures
        digits_value(Seq::<char>::empty(), radix) == 0,
        digits_value(s.push(c), radix) == digits_value(s, radix) * radix + digit_rank(c),
{
    assert(s.push(c).drop_last() =~= s);
}

/// When a string is a number: a plus sign or none, then one digit or more of the
/// radix, and nothing else, and the number is not too large.
pub proof fn law_when_a_string_is_a_number(d: Seq<char>, radix: nat, max: nat)
    requires
        radix <= 36,
        d.len() > 0 ==> d[0] != '+',
    ensures
        ({
            let is_number = d.len() > 0 && (forall|i: int|
                0 <= i < d.len() ==> digit_rank(#[trigger] d[i]) < radix) && digits_value(d, radix)
                <= max;
            &&& is_number ==> unsigned_value(d, radix, max) == Some(digits_value(d, radix))
            &&& !is_number ==> unsigned_value(d, radix, max) is None
            &&& unsigned_value(seq!['+'] + d, radix, max) == unsigned_value(d, radix, max)
        }),
{
    let s = seq!['+'] + d;
    assert(s[0] == '+');
    assert(s.skip(1) =~= d);
}

/// How a value is written as a digit: `0` to `9`, then `a` to `f`.
pub proof fn law_how_a_digit_is_written(v: nat)
    requires
        v < 16,
    ensures
        v < 10 ==> digit_char(v) as u32 == 48 + v,
        v >= 10 ==> digit_char(v) as u32 == 97 + v - 10,
{
}

/// How a number is written: in digits that are worth it, without a zero in
/// front; and where a width is asked for, with as many zeros as it takes and no
/// more.
pub proof fn law_how_a_number_is_written(n: nat, radix: nat, width: nat)
    requires
        2 <= radix <= 16,
    ensures
        digits_of(n, radix).len() > 0,
        digits_value(digits_of(n, radix), radix) == n,
        n > 0 ==> digits_of(n, radix)[0] != '0',
        digits_of(n, radix).len() >= width ==> padded_digits(n, radix, width) == digits_of(n, radix),
        digits_of(n, radix).len() < width ==> padded_digits(n, radix, width).len() == width,
        digits_value(padded_digits(n, radix, width), radix) == n,
    decreases n,
{
    lemma_digits_of(n, radix);
    lemma_padded_digits(n, radix, width);
    if n > 0 && n >= radix {
        assert(0 < n / radix < n) by (nonlinear_arith)
            requires
                n >= radix,
                radix >= 2,
        ;
        law_how_a_number_is_written(n / radix, radix, width);
        let d = digits_of(n / radix, radix);
        assert(digits_of(n, radix)[0] == d[0]);
    }
}

/// What follows a prefix is the rest of the string, where it begins with it.
pub proof fn law_prefixes(p: Seq<char>, s: Seq<char>, t: Seq<char>)
    ensures
        after_prefix(p + s, p) == Some(s),
        after_prefix(t, p) matches Some(r) ==> t == p + r,
{
    assert((p + s).take(p.len() as int) =~= p);
    assert((p + s).skip(p.len() as int) =~= s);
    if after_prefix(t, p) is Some {
        assert(t =~= p + t.skip(p.len() as int));
    }
}

} // verus!
