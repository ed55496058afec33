//! What a language tag comes to.

use crate::language::{
    identity, iso_639_1, iso_639_3, iso_name, lower, lowered, terminologic,
};
use crate::text::trimmed;
use vstd::prelude::*;

verus! {

/// Codes that differ in a letter differ.
proof fn lemma_differ(a: Seq<char>, b: Seq<char>)
    ensures
        a.len() == 3 && b.len() == 3 && (a[0] != b[0] || a[1] != b[1] || a[2] != b[2]) ==> a != b,
{
}

/// A code as three letters.
spec fn letters(code: Seq<char>) -> (char, char, char) {
    (code[0], code[1], code[2])
}

/// What a code of three letters leads to, letter by letter.
proof fn lemma_row(code: Seq<char>)
    requires
        code.len() == 3,
    ensures
        code == "alb"@ ==> terminologic(code) == Some("sqi"@),
        code == "arm"@ ==> terminologic(code) == Some("hye"@),
        code == "baq"@ ==> terminologic(code) == Some("eus"@),
        code == "bur"@ ==> terminologic(code) == Some("mya"@),
        code == "cze"@ ==> terminologic(code) == Some("ces"@),
        code == "chi"@ ==> terminologic(code) == Some("zho"@),
        code == "dut"@ ==> terminologic(code) == Some("nld"@),
        code == "fre"@ ==> terminologic(code) == Some("fra"@),
        code == "geo"@ ==> terminologic(code) == Some("kat"@),
        code == "ger"@ ==> terminologic(code) == Some("deu"@),
        code == "gre"@ ==> terminologic(code) == Some("ell"@),
        code == "ice"@ ==> terminologic(code) == Some("isl"@),
        code == "mac"@ ==> terminologic(code) == Some("mkd"@),
        code == "mao"@ ==> terminologic(code) == Some("mri"@),
        code == "may"@ ==> terminologic(code) == Some("msa"@),
        code == "per"@ ==> terminologic(code) == Some("fas"@),
        code == "rum"@ ==> terminologic(code) == Some("ron"@),
        code == "slo"@ ==> terminologic(code) == Some("slk"@),
        code == "tib"@ ==> terminologic(code) == Some("bod"@),
        code == "wel"@ ==> terminologic(code) == Some("cym"@),
{
    reveal_strlit("alb");
    reveal_strlit("sqi");
    reveal_strlit("arm");
    reveal_strlit("hye");
    reveal_strlit("baq");
    reveal_strlit("eus");
    reveal_strlit("bur");
    reveal_strlit("mya");
    reveal_strlit("cze");
    reveal_strlit("ces");
    reveal_strlit("chi");
    reveal_strlit("zho");
    reveal_strlit("dut");
    reveal_strlit("nld");
    reveal_strlit("fre");
    reveal_strlit("fra");
    reveal_strlit("geo");
    reveal_strlit("kat");
    reveal_strlit("ger");
    reveal_strlit("deu");
    reveal_strlit("gre");
    reveal_strlit("ell");
    reveal_strlit("ice");
    reveal_strlit("isl");
    reveal_strlit("mac");
    reveal_strlit("mkd");
    reveal_strlit("mao");
    reveal_strlit("mri");
    reveal_strlit("may");
    reveal_strlit("msa");
    reveal_strlit("per");
    reveal_strlit("fas");
    reveal_strlit("rum");
    reveal_strlit("ron");
    reveal_strlit("slo");
    reveal_strlit("slk");
    reveal_strlit("tib");
    reveal_strlit("bod");
    reveal_strlit("wel");
    reveal_strlit("cym");
    lemma_differ(code, "alb"@);
    lemma_differ(code, "arm"@);
    lemma_differ(code, "baq"@);
    lemma_differ(code, "bur"@);
    lemma_differ(code, "cze"@);
    lemma_differ(code, "chi"@);
    lemma_differ(code, "dut"@);
    lemma_differ(code, "fre"@);
    lemma_differ(code, "geo"@);
    lemma_differ(code, "ger"@);
    lemma_differ(code, "gre"@);
    lemma_differ(code, "ice"@);
    lemma_differ(code, "mac"@);
    lemma_differ(code, "mao"@);
    lemma_differ(code, "may"@);
    lemma_differ(code, "per"@);
    lemma_differ(code, "rum"@);
    lemma_differ(code, "slo"@);
    lemma_differ(code, "tib"@);
    lemma_differ(code, "wel"@);
}

/// The table is that of ISO 639-2: each of the twenty bibliographic codes has
/// its terminological code, and no other code has one.
pub proof fn law_the_table_of_codes(code: Seq<char>)
    ensures
        terminologic("alb"@) == Some("sqi"@),
        terminologic("arm"@) == Some("hye"@),
        terminologic("baq"@) == Some("eus"@),
        terminologic("bur"@) == Some("mya"@),
        terminologic("cze"@) == Some("ces"@),
        terminologic("chi"@) == Some("zho"@),
        terminologic("dut"@) == Some("nld"@),
        terminologic("fre"@) == Some("fra"@),
        terminologic("geo"@) == Some("kat"@),
        terminologic("ger"@) == Some("deu"@),
        terminologic("gre"@) == Some("ell"@),
        terminologic("ice"@) == Some("isl"@),
        terminologic("mac"@) == Some("mkd"@),
        terminologic("mao"@) == Some("mri"@),
        terminologic("may"@) == Some("msa"@),
        terminologic("per"@) == Some("fas"@),
        terminologic("rum"@) == Some("ron"@),
        terminologic("slo"@) == Some("slk"@),
        terminologic("tib"@) == Some("bod"@),
        terminologic("wel"@) == Some("cym"@),
        terminologic(code) is Some ==> code == "alb"@ || code == "arm"@ || code == "baq"@ || code == "bur"@ || code == "cze"@ || code == "chi"@ || code == "dut"@ || code == "fre"@ || code == "geo"@ || code == "ger"@ || code == "gre"@ || code == "ice"@ || code == "mac"@ || code == "mao"@ || code == "may"@ || code == "per"@ || code == "rum"@ || code == "slo"@ || code == "tib"@ || code == "wel"@,
{
    reveal_strlit("alb");
    reveal_strlit("sqi");
    reveal_strlit("arm");
    reveal_strlit("hye");
    reveal_strlit("baq");
    reveal_strlit("eus");
    reveal_strlit("bur");
    reveal_strlit("mya");
    reveal_strlit("cze");
    reveal_strlit("ces");
    reveal_strlit("chi");
    reveal_strlit("zho");
    reveal_strlit("dut");
    reveal_strlit("nld");
    reveal_strlit("fre");
    reveal_strlit("fra");
    reveal_strlit("geo");
    reveal_strlit("kat");
    reveal_strlit("ger");
    reveal_strlit("deu");
    reveal_strlit("gre");
    reveal_strlit("ell");
    reveal_strlit("ice");
    reveal_strlit("isl");
    reveal_strlit("mac");
    reveal_strlit("mkd");
    reveal_strlit("mao");
    reveal_strlit("mri");
    reveal_strlit("may");
    reveal_strlit("msa");
    reveal_strlit("per");
    reveal_strlit("fas");
    reveal_strlit("rum");
    reveal_strlit("ron");
    reveal_strlit("slo");
    reveal_strlit("slk");
    reveal_strlit("tib");
    reveal_strlit("bod");
    reveal_strlit("wel");
    reveal_strlit("cym");
    lemma_row("alb"@);
    lemma_row("arm"@);
    lemma_row("baq"@);
    lemma_row("bur"@);
    lemma_row("cze"@);
    lemma_row("chi"@);
    lemma_row("dut"@);
    lemma_row("fre"@);
    lemma_row("geo"@);
    lemma_row("ger"@);
    lemma_row("gre"@);
    lemma_row("ice"@);
    lemma_row("mac"@);
    lemma_row("mao"@);
    lemma_row("may"@);
    lemma_row("per"@);
    lemma_row("rum"@);
    lemma_row("slo"@);
    lemma_row("tib"@);
    lemma_row("wel"@);
}

/// No two bibliographic codes lead to the same one.
pub proof fn law_no_two_codes_are_one_language(a: Seq<char>, b: Seq<char>)
    requires
        terminologic(a) is Some,
        terminologic(a) == terminologic(b),
    ensures
        a == b,
{
    reveal_strlit("alb");
    reveal_strlit("sqi");
    reveal_strlit("arm");
    reveal_strlit("hye");
    reveal_strlit("baq");
    reveal_strlit("eus");
    reveal_strlit("bur");
    reveal_strlit("mya");
    reveal_strlit("cze");
    reveal_strlit("ces");
    reveal_strlit("chi");
    reveal_strlit("zho");
    reveal_strlit("dut");
    reveal_strlit("nld");
    reveal_strlit("fre");
    reveal_strlit("fra");
    reveal_strlit("geo");
    reveal_strlit("kat");
    reveal_strlit("ger");
    reveal_strlit("deu");
    reveal_strlit("gre");
    reveal_strlit("ell");
    reveal_strlit("ice");
    reveal_strlit("isl");
    reveal_strlit("mac");
    reveal_strlit("mkd");
    reveal_strlit("mao");
    reveal_strlit("mri");
    reveal_strlit("may");
    reveal_strlit("msa");
    reveal_strlit("per");
    reveal_strlit("fas");
    reveal_strlit("rum");
    reveal_strlit("ron");
    reveal_strlit("slo");
    reveal_strlit("slk");
    reveal_strlit("tib");
    reveal_strlit("bod");
    reveal_strlit("wel");
    reveal_strlit("cym");
    let x = terminologic(a)->0;
    let y = terminologic(b)->0;
    assert(letters(x) == letters(y));
    law_the_table_of_codes(a);
    law_the_table_of_codes(b);
}

/// ASCII capitals become small, and every other character stays as it is.
pub proof fn law_lower_case(c: char)
    ensures
        'A' <= c <= 'Z' ==> lower(c) as u32 == c as u32 + 32,
        !('A' <= c <= 'Z') ==> lower(c) == c,
{
}

/// The language that a tag names: none where the tag is blank; else, of its
/// small letters, the language with that two-letter code; failing that the one
/// with that three-letter code; failing that the one whose bibliographic code it
/// is; failing that the one of that English name.
pub proof fn law_the_order_of_lookups(tag: Seq<char>)
    ensures
        ({
            let t = lowered(trimmed(tag));
            &&& t.len() == trimmed(tag).len()
            &&& forall|i: int| 0 <= i < t.len() ==> #[trigger] t[i] == lower(trimmed(tag)[i])
            &&& t.len() == 0 ==> identity(tag) is None
            &&& t.len() > 0 && iso_639_1(t) is Some ==> identity(tag) == iso_639_1(t)
            &&& t.len() > 0 && iso_639_1(t) is None && iso_639_3(t) is Some ==> identity(tag)
                == iso_639_3(t)
            &&& t.len() > 0 && iso_639_1(t) is None && iso_639_3(t) is None ==> (if terminologic(
                t,
            ) is Some && iso_639_3(terminologic(t)->0) is Some {
                identity(tag) == iso_639_3(terminologic(t)->0)
            } else {
                identity(tag) == iso_name(t)
            })
        }),
{
}

/// A bibliographic code that is no ISO 639-3 code names the language of its
/// terminological code.
pub proof fn law_both_codes_name_one_language(b: Seq<char>)
    requires
        terminologic(b) is Some,
        lowered(trimmed(b)) == b,
        lowered(trimmed(terminologic(b)->0)) == terminologic(b)->0,
        iso_639_1(b) is None && iso_639_3(b) is None,
        iso_639_1(terminologic(b)->0) is None,
        iso_639_3(terminologic(b)->0) is Some,
        b.len() > 0 && (terminologic(b)->0).len() > 0,
    ensures
        identity(b) == identity(terminologic(b)->0),
{
}

} // verus!
