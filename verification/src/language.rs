//! Language tags: names and codes of whatever standard, brought to one
//! identity.
//!
//! A language is identified by its ISO 639-3 code.

use crate::mapfile_text::{chars_of, string_of};
use crate::text::{trim, trimmed};
use vstd::prelude::*;

verus! {

/// The ISO 639-3 code of the language that `isolang::Language::from_639_1`
/// finds under a two-letter code.
pub uninterp spec fn iso_639_1(code: Seq<char>) -> Option<Seq<char>>;

/// The ISO 639-3 code of the language that `isolang::Language::from_639_3`
/// finds under a three-letter code.
pub uninterp spec fn iso_639_3(code: Seq<char>) -> Option<Seq<char>>;

/// The ISO 639-3 code of the language that
/// `isolang::Language::from_name_lowercase` finds under an English name.
pub uninterp spec fn iso_name(name: Seq<char>) -> Option<Seq<char>>;

/// What an optional string holds.
pub open spec fn opt_text(s: Option<String>) -> Option<Seq<char>> {
    match s {
        Some(s) => Some(s@),
        None => None,
    }
}

/// `isolang::Language::from_639_1`, with the language handed on as its ISO
/// 639-3 code: a function of the code alone.
#[verifier::external_body]
fn lookup_639_1(code: &str) -> (r: Option<String>)
    ensures
        opt_text(r) == iso_639_1(code@),
{
    isolang::Language::from_639_1(code).map(|l| l.to_639_3().to_string())
}

/// `isolang::Language::from_639_3`, with the language handed on as its ISO
/// 639-3 code: a function of the code alone.
#[verifier::external_body]
fn lookup_639_3(code: &str) -> (r: Option<String>)
    ensures
        opt_text(r) == iso_639_3(code@),
{
    isolang::Language::from_639_3(code).map(|l| l.to_639_3().to_string())
}

/// `isolang::Language::from_name_lowercase`, with the language handed on as its
/// ISO 639-3 code: a function of the name alone.
#[verifier::external_body]
fn lookup_name(name: &str) -> (r: Option<String>)
    ensures
        opt_text(r) == iso_name(name@),
{
    isolang::Language::from_name_lowercase(name).map(|l| l.to_639_3().to_string())
}

/// A character in lower case, if it is an ASCII letter.
pub open spec fn lower(c: char) -> char {
    if 0x41 <= c as u32 <= 0x5a {
        (c as u32 + 0x20) as char
    } else {
        c
    }
}

/// A string with its ASCII letters in lower case.
pub open spec fn lowered(s: Seq<char>) -> Seq<char> {
    s.map_values(|c: char| lower(c))
}

/// A character in lower case, if it is an ASCII letter.
fn lower_char(c: char) -> (r: char)
    ensures
        r == lower(c),
{
    let n: u32 = c as u32;
    if 0x41 <= n && n <= 0x5a {
        (n as u8 + 0x20) as char
    } else {
        c
    }
}

/// Whether a string is a given one.
fn same_text(s: &str, t: &str) -> (r: bool)
    ensures
        r <==> s@ == t@,
{
    let a: Vec<char> = chars_of(s);
    let b: Vec<char> = chars_of(t);
    if a.len() != b.len() {
        return false;
    }
    let mut i: usize = 0;
    while i < a.len()
        invariant
            i <= a@.len() == b@.len(),
            a@ == s@,
            b@ == t@,
            forall|j: int| 0 <= j < i ==> a@[j] == b@[j],
        decreases a@.len() - i,
    {
        if a[i] != b[i] {
            return false;
        }
        i = i + 1;
    }
    assert(a@ =~= b@);
    true
}

/// The terminological ISO 639-2 code for each bibliographic one that differs.
pub open spec fn terminologic(code: Seq<char>) -> Option<Seq<char>> {
    if code == "alb"@ {
        Some("sqi"@)
    } else if code == "arm"@ {
        Some("hye"@)
    } else if code == "baq"@ {
        Some("eus"@)
    } else if code == "bur"@ {
        Some("mya"@)
    } else if code == "cze"@ {
        Some("ces"@)
    } else if code == "chi"@ {
        Some("zho"@)
    } else if code == "dut"@ {
        Some("nld"@)
    } else if code == "fre"@ {
        Some("fra"@)
    } else if code == "geo"@ {
        Some("kat"@)
    } else if code == "ger"@ {
        Some("deu"@)
    } else if code == "gre"@ {
        Some("ell"@)
    } else if code == "ice"@ {
        Some("isl"@)
    } else if code == "mac"@ {
        Some("mkd"@)
    } else if code == "mao"@ {
        Some("mri"@)
    } else if code == "may"@ {
        Some("msa"@)
    } else if code == "per"@ {
        Some("fas"@)
    } else if code == "rum"@ {
        Some("ron"@)
    } else if code == "slo"@ {
        Some("slk"@)
    } else if code == "tib"@ {
        Some("bod"@)
    } else if code == "wel"@ {
        Some("cym"@)
    } else {
        None
    }
}

/// What an optional string slice holds.
pub open spec fn opt_str(s: Option<&str>) -> Option<Seq<char>> {
    match s {
        Some(s) => Some(s@),
        None => None,
    }
}

/// The terminological code for a bibliographic one that differs from it, which
/// is how discs label their tracks as often as not.
pub fn bib_to_terminologic(code: &str) -> (r: Option<&'static str>)
    ensures
        opt_str(r) == terminologic(code@),
{
    if same_text(code, "alb") {
        Some("sqi")
    } else if same_text(code, "arm") {
        Some("hye")
    } else if same_text(code, "baq") {
        Some("eus")
    } else if same_text(code, "bur") {
        Some("mya")
    } else if same_text(code, "cze") {
        Some("ces")
    } else if same_text(code, "chi") {
        Some("zho")
    } else if same_text(code, "dut") {
        Some("nld")
    } else if same_text(code, "fre") {
        Some("fra")
    } else if same_text(code, "geo") {
        Some("kat")
    } else if same_text(code, "ger") {
        Some("deu")
    } else if same_text(code, "gre") {
        Some("ell")
    } else if same_text(code, "ice") {
        Some("isl")
    } else if same_text(code, "mac") {
        Some("mkd")
    } else if same_text(code, "mao") {
        Some("mri")
    } else if same_text(code, "may") {
        Some("msa")
    } else if same_text(code, "per") {
        Some("fas")
    } else if same_text(code, "rum") {
        Some("ron")
    } else if same_text(code, "slo") {
        Some("slk")
    } else if same_text(code, "tib") {
        Some("bod")
    } else if same_text(code, "wel") {
        Some("cym")
    } else {
        None
    }
}

/// The first of four answers that there is.
pub open spec fn first_of(
    a: Option<Seq<char>>,
    b: Option<Seq<char>>,
    c: Option<Seq<char>>,
    d: Option<Seq<char>>,
) -> Option<Seq<char>> {
    if a is Some {
        a
    } else if b is Some {
        b
    } else if c is Some {
        c
    } else {
        d
    }
}

/// The identity of the language that a tag names, in whatever case: a
/// two-letter code, a three-letter code, a bibliographic code, or an English
/// name, in this order.
pub open spec fn identity(tag: Seq<char>) -> Option<Seq<char>> {
    let t = lowered(trimmed(tag));
    if t.len() == 0 {
        None
    } else {
        first_of(
            iso_639_1(t),
            iso_639_3(t),
            match terminologic(t) {
                Some(u) => iso_639_3(u),
                None => None,
            },
            iso_name(t),
        )
    }
}

/// The first of four answers that there is.
pub fn first_answer(
    a: Option<String>,
    b: Option<String>,
    c: Option<String>,
    d: Option<String>,
) -> (r: Option<String>)
    ensures
        opt_text(r) == first_of(opt_text(a), opt_text(b), opt_text(c), opt_text(d)),
{
    if a.is_some() {
        a
    } else if b.is_some() {
        b
    } else if c.is_some() {
        c
    } else {
        d
    }
}

/// The identity of the language that a tag names; `None` where it names none.
pub fn normalize_lang(tag: &str) -> (r: Option<String>)
    ensures
        opt_text(r) == identity(tag@),
        tag@.len() == 0 ==> r is None,
{
    let c: Vec<char> = chars_of(tag);
    let t: &[char] = trim(&c);
    if t.len() == 0 {
        assert(lowered(trimmed(tag@)).len() == 0);
        return None;
    }
    let mut low: Vec<char> = Vec::new();
    let mut i: usize = 0;
    while i < t.len()
        invariant
            i <= t@.len(),
            low@ == lowered(t@.take(i as int)),
        decreases t@.len() - i,
    {
        low.push(lower_char(t[i]));
        assert(low@ =~= lowered(t@.take(i + 1)));
        i = i + 1;
    }
    assert(t@.take(i as int) =~= t@);
    let key: String = string_of(&low);
    let by_two = lookup_639_1(key.as_str());
    let by_three = lookup_639_3(key.as_str());
    let by_bib = match bib_to_terminologic(key.as_str()) {
        Some(u) => lookup_639_3(u),
        None => None,
    };
    let by_name = lookup_name(key.as_str());
    first_answer(by_two, by_three, by_bib, by_name)
}

/// The case of a tag's letters does not matter, nor white space around it.
pub proof fn law_tags_ignore_case_and_space(a: Seq<char>, b: Seq<char>)
    requires
        lowered(trimmed(a)) == lowered(trimmed(b)),
    ensures
        identity(a) == identity(b),
{
}

/// Strings of three that differ somewhere differ.
proof fn lemma_differ(a: Seq<char>, b: Seq<char>)
    ensures
        a.len() == 3 && b.len() == 3 && (a[0] != b[0] || a[1] != b[1] || a[2] != b[2]) ==> a != b,
{
}

/// No bibliographic code is its own terminological one, and the table leads to
/// no code that it would lead on from.
pub proof fn law_terminologic_codes_are_final(code: Seq<char>)
    requires
        terminologic(code) is Some,
    ensures
        code.len() == 3,
        (terminologic(code)->0).len() == 3,
        terminologic(terminologic(code)->0) is None,
{
    reveal_strlit("alb");
    reveal_strlit("sqi");
    reveal_strlit("arm");
    reveal_strlit("hye");
    reveal_strlit("baq");
    reveal_strlit("eus");
    reveal_strlit("bur");
    reveal_strlit("mya");
    reveal_strlit("cze");
    reveal_strlit("ces");
    reveal_strlit("chi");
    reveal_strlit("zho");
    reveal_strlit("dut");
    reveal_strlit("nld");
    reveal_strlit("fre");
    reveal_strlit("fra");
    reveal_strlit("geo");
    reveal_strlit("kat");
    reveal_strlit("ger");
    reveal_strlit("deu");
    reveal_strlit("gre");
    reveal_strlit("ell");
    reveal_strlit("ice");
    reveal_strlit("isl");
    reveal_strlit("mac");
    reveal_strlit("mkd");
    reveal_strlit("mao");
    reveal_strlit("mri");
    reveal_strlit("may");
    reveal_strlit("msa");
    reveal_strlit("per");
    reveal_strlit("fas");
    reveal_strlit("rum");
    reveal_strlit("ron");
    reveal_strlit("slo");
    reveal_strlit("slk");
    reveal_strlit("tib");
    reveal_strlit("bod");
    reveal_strlit("wel");
    reveal_strlit("cym");
    let u = terminologic(code)->0;
    lemma_differ(u, "alb"@);
    lemma_differ(u, "arm"@);
    lemma_differ(u, "baq"@);
    lemma_differ(u, "bur"@);
    lemma_differ(u, "cze"@);
    lemma_differ(u, "chi"@);
    lemma_differ(u, "dut"@);
    lemma_differ(u, "fre"@);
    lemma_differ(u, "geo"@);
    lemma_differ(u, "ger"@);
    lemma_differ(u, "gre"@);
    lemma_differ(u, "ice"@);
    lemma_differ(u, "mac"@);
    lemma_differ(u, "mao"@);
    lemma_differ(u, "may"@);
    lemma_differ(u, "per"@);
    lemma_differ(u, "rum"@);
    lemma_differ(u, "slo"@);
    lemma_differ(u, "tib"@);
    lemma_differ(u, "wel"@);
}

} // verus!
