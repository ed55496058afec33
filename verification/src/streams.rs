//! Which audio and subtitle streams of a title to keep, by language.

use crate::language::{identity, normalize_lang};
use crate::mapfile_text::chars_of;
use vstd::prelude::*;

verus! {

/// A stream of a title.
#[derive(Debug)]
pub enum Stream {
    Video { pid: u16 },
    /// The language is empty where the stream carries no tag.
    Audio { pid: u16, language: String },
    /// The language is empty where the stream carries no tag.
    Subtitle { pid: u16, language: String },
}

/// A title and its streams, in order.
#[derive(Debug)]
pub struct DiscTitle {
    pub streams: Vec<Stream>,
}

/// Which streams of a class to keep.
#[derive(Debug)]
pub enum StreamFilter {
    All,
    Nothing,
    /// Those in any of these languages.
    Langs(Vec<String>),
}

/// Which streams to keep.
#[derive(Debug)]
pub struct StreamChoice {
    pub audio: StreamFilter,
    pub subtitles: StreamFilter,
}

/// Which streams of a class to keep, by packet id.
#[derive(Debug, PartialEq, Eq)]
pub enum PidFilter {
    All,
    Only(Vec<u16>),
}

/// Which streams to keep, by packet id.
#[derive(Debug, PartialEq, Eq)]
pub struct StreamSelection {
    pub audio: PidFilter,
    pub subtitle: PidFilter,
}

/// The classes of stream that can be chosen from.
#[derive(Debug, Clone, Copy, PartialEq, Eq, Structural)]
pub enum StreamClass {
    Audio,
    Subtitle,
}

/// What can go wrong with a choice of languages.
#[derive(Clone, Debug, PartialEq, Eq)]
pub enum StreamSelError {
    /// A tag that names no language.
    UnknownLanguage { tag: String },
}

/// A class of which no stream is in a language that was asked for, on a title
/// that has streams of it: without a word, the file would lack them all.
#[derive(Clone, Debug, PartialEq, Eq)]
pub struct UnmatchedClass {
    /// `audio` or `subtitle`.
    pub class: &'static str,
    /// The tags as they were asked for.
    pub requested: Vec<String>,
    /// The tags there are, each once, in order; `und` for streams without one.
    pub available: Vec<String>,
}

impl StreamClass {
    /// The stable key of the class, for a front-end to localize.
    pub fn key(self) -> (r: &'static str)
        ensures
            r@ == class_key(self),
    {
        match self {
            StreamClass::Audio => "audio",
            StreamClass::Subtitle => "subtitle",
        }
    }
}

/// The stable key of a class.
pub open spec fn class_key(class: StreamClass) -> Seq<char> {
    match class {
        StreamClass::Audio => "audio"@,
        StreamClass::Subtitle => "subtitle"@,
    }
}

/// What a list of strings holds.
pub open spec fn texts(v: Seq<String>) -> Seq<Seq<char>> {
    v.map_values(|s: String| s@)
}

/// The packet id and the language tag of a stream, if it is of a class.
pub open spec fn of_class(s: Stream, class: StreamClass) -> Option<(u16, Seq<char>)> {
    match (s, class) {
        (Stream::Audio { pid, language }, StreamClass::Audio) => Some((pid, language@)),
        (Stream::Subtitle { pid, language }, StreamClass::Subtitle) => Some((pid, language@)),
        _ => None,
    }
}

/// The language tags of the streams of a class, in order, empty ones with them.
pub open spec fn class_tags(streams: Seq<Stream>, class: StreamClass) -> Seq<Seq<char>>
    decreases streams.len(),
{
    if streams.len() == 0 {
        seq![]
    } else {
        let rest = class_tags(streams.drop_last(), class);
        match of_class(streams.last(), class) {
            Some((pid, tag)) => rest.push(tag),
            None => rest,
        }
    }
}

/// The languages that some tags name; tags that name none are left out.
pub open spec fn known(tags: Seq<Seq<char>>) -> Seq<Seq<char>>
    decreases tags.len(),
{
    if tags.len() == 0 {
        seq![]
    } else {
        let rest = known(tags.drop_last());
        match identity(tags.last()) {
            Some(l) => rest.push(l),
            None => rest,
        }
    }
}

/// Whether a tag names one of some languages.
pub open spec fn tag_in(tag: Seq<char>, wanted: Seq<Seq<char>>) -> bool {
    identity(tag) is Some && wanted.contains(identity(tag)->0)
}

/// The packet ids of the streams of a class in one of some languages, in order.
pub open spec fn chosen_pids(streams: Seq<Stream>, class: StreamClass, wanted: Seq<Seq<char>>) -> Seq<
    u16,
>
    decreases streams.len(),
{
    if streams.len() == 0 {
        seq![]
    } else {
        let rest = chosen_pids(streams.drop_last(), class, wanted);
        match of_class(streams.last(), class) {
            Some((pid, tag)) => if tag_in(tag, wanted) {
                rest.push(pid)
            } else {
                rest
            },
            None => rest,
        }
    }
}

/// Whether the first tag that names no language stands at a place.
pub open spec fn first_unknown(tags: Seq<Seq<char>>, i: int) -> bool {
    0 <= i < tags.len() && identity(tags[i]) is None && forall|j: int|
        0 <= j < i ==> identity(#[trigger] tags[j]) is Some
}

/// Whether a choice of languages comes to a filter, or to an error.
pub open spec fn resolves(
    streams: Seq<Stream>,
    sel: StreamFilter,
    class: StreamClass,
    r: Result<PidFilter, StreamSelError>,
) -> bool {
    match sel {
        StreamFilter::All => r matches Ok(PidFilter::All),
        StreamFilter::Nothing => r matches Ok(PidFilter::Only(p)) && p@.len() == 0,
        StreamFilter::Langs(tags) => match r {
            Ok(PidFilter::All) => false,
            Ok(PidFilter::Only(p)) => {
                &&& forall|i: int|
                    0 <= i < tags@.len() ==> identity(#[trigger] texts(tags@)[i]) is Some
                &&& p@ == chosen_pids(streams, class, known(texts(tags@)))
            },
            Err(StreamSelError::UnknownLanguage { tag }) => exists|i: int| #[trigger]
                first_unknown(texts(tags@), i) && tag@ == texts(tags@)[i],
        },
    }
}

/// Whether a language that was looked up is one of some.
pub fn is_wanted(lang: &Option<String>, wanted: &Vec<String>) -> (r: bool)
    ensures
        r <==> lang is Some && texts(wanted@).contains(lang->0@),
{
    match lang {
        None => false,
        Some(l) => {
            let mut i: usize = 0;
            while i < wanted.len()
                invariant
                    i <= wanted@.len(),
                    *lang == Some(*l),
                    forall|j: int| 0 <= j < i ==> texts(wanted@)[j] != l@,
                decreases wanted@.len() - i,
            {
                assert(texts(wanted@)[i as int] == wanted@[i as int]@);
                if wanted[i] == *l {
                    return true;
                }
                i = i + 1;
            }
            false
        },
    }
}

/// The packet id and the language tag of a stream, if it is of a class.
fn stream_of(s: &Stream, class: StreamClass) -> (r: Option<(u16, &String)>)
    ensures
        r is Some <==> of_class(*s, class) is Some,
        r matches Some((pid, tag)) ==> of_class(*s, class) == Some((pid, tag@)),
{
    match (s, class) {
        (Stream::Audio { pid, language }, StreamClass::Audio) => Some((*pid, language)),
        (Stream::Subtitle { pid, language }, StreamClass::Subtitle) => Some((*pid, language)),
        _ => None,
    }
}

/// The filter that a choice of languages comes to for one class. A tag that
/// names no language is an error, before any stream is looked at.
pub fn resolve_class(title: &DiscTitle, sel: &StreamFilter, class: StreamClass) -> (r: Result<
    PidFilter,
    StreamSelError,
>)
    ensures
        resolves(title.streams@, *sel, class, r),
{
    match sel {
        StreamFilter::All => Ok(PidFilter::All),
        StreamFilter::Nothing => Ok(PidFilter::Only(Vec::new())),
        StreamFilter::Langs(tags) => {
            let mut wanted: Vec<String> = Vec::new();
            let mut i: usize = 0;
            let ghost all = texts(tags@);
            assert(all.take(0) =~= seq![]);
            assert(texts(wanted@) =~= seq![]);
            while i < tags.len()
                invariant
                    i <= tags@.len(),
                    *sel == StreamFilter::Langs(*tags),
                    all == texts(tags@),
                    texts(wanted@) == known(all.take(i as int)),
                    forall|j: int| 0 <= j < i ==> identity(#[trigger] all[j]) is Some,
                decreases tags@.len() - i,
            {
                assert(all[i as int] == tags@[i as int]@);
                assert(all.take(i + 1).drop_last() =~= all.take(i as int));
                match normalize_lang(tags[i].as_str()) {
                    Some(l) => {
                        let ghost before = texts(wanted@);
                        wanted.push(l);
                        assert(texts(wanted@) =~= before.push(l@));
                    },
                    None => {
                        assert(first_unknown(all, i as int));
                        return Err(StreamSelError::UnknownLanguage { tag: tags[i].clone() });
                    },
                }
                i = i + 1;
            }
            assert(all.take(i as int) =~= all);
            let ghost want = known(all);
            let mut pids: Vec<u16> = Vec::new();
            let mut k: usize = 0;
            assert(title.streams@.take(0) =~= seq![]);
            while k < title.streams.len()
                invariant
                    k <= title.streams@.len(),
                    texts(wanted@) == want,
                    pids@ == chosen_pids(title.streams@.take(k as int), class, want),
                decreases title.streams@.len() - k,
            {
                assert(title.streams@.take(k + 1).drop_last() =~= title.streams@.take(k as int));
                if let Some((pid, tag)) = stream_of(&title.streams[k], class) {
                    let lang = normalize_lang(tag.as_str());
                    if is_wanted(&lang, &wanted) {
                        pids.push(pid);
                    }
                }
                k = k + 1;
            }
            assert(title.streams@.take(k as int) =~= title.streams@);
            Ok(PidFilter::Only(pids))
        },
    }
}

/// Which streams of a title to keep. Where a tag is at fault, one for audio is
/// reported before one for subtitles.
pub fn resolve_stream_selection(
    title: &DiscTitle,
    audio: &StreamFilter,
    subtitles: &StreamFilter,
) -> (r: Result<StreamSelection, StreamSelError>)
    ensures
        match r {
            Ok(sel) => resolves(title.streams@, *audio, StreamClass::Audio, Ok(sel.audio))
                && resolves(title.streams@, *subtitles, StreamClass::Subtitle, Ok(sel.subtitle)),
            Err(e) => {
                ||| resolves(title.streams@, *audio, StreamClass::Audio, Err(e))
                ||| (exists|p: PidFilter|
                    resolves(title.streams@, *audio, StreamClass::Audio, Ok(p))) && resolves(
                    title.streams@,
                    *subtitles,
                    StreamClass::Subtitle,
                    Err(e),
                )
            },
        },
{
    let a = match resolve_class(title, audio, StreamClass::Audio) {
        Ok(a) => a,
        Err(e) => {
            return Err(e);
        },
    };
    match resolve_class(title, subtitles, StreamClass::Subtitle) {
        Ok(s) => Ok(StreamSelection { audio: a, subtitle: s }),
        Err(e) => {
            assert(resolves(title.streams@, *audio, StreamClass::Audio, Ok(a)));
            Err(e)
        },
    }
}

// ---------------------------------------------------------------------------
// Choices that match nothing
// ---------------------------------------------------------------------------

/// Whether a string comes before another in the order of their characters.
pub open spec fn text_less(a: Seq<char>, b: Seq<char>) -> bool
    decreases a.len(),
{
    if b.len() == 0 {
        false
    } else if a.len() == 0 {
        true
    } else if a[0] != b[0] {
        (a[0] as u32) < (b[0] as u32)
    } else {
        text_less(a.drop_first(), b.drop_first())
    }
}

/// Strings in order, each once.
pub open spec fn strictly_sorted(v: Seq<Seq<char>>) -> bool {
    forall|i: int, j: int| 0 <= i < j < v.len() ==> text_less(#[trigger] v[i], #[trigger] v[j])
}

/// What a tag is shown as: an untagged stream as undetermined.
pub open spec fn shown(tag: Seq<char>) -> Seq<char> {
    if tag.len() == 0 {
        "und"@
    } else {
        tag
    }
}

/// Whether a list holds what some tags are shown as, each once, in order.
pub open spec fn listing(tags: Seq<Seq<char>>, out: Seq<Seq<char>>) -> bool {
    &&& strictly_sorted(out)
    &&& forall|x: Seq<char>| #[trigger]
        out.contains(x) <==> exists|i: int| 0 <= i < tags.len() && shown(#[trigger] tags[i]) == x
}

/// Whether a choice of languages matches no stream of a class that has some.
pub open spec fn misses(streams: Seq<Stream>, sel: StreamFilter, class: StreamClass) -> bool {
    match sel {
        StreamFilter::Langs(tags) => {
            let present = class_tags(streams, class);
            &&& present.len() > 0
            &&& forall|i: int|
                0 <= i < present.len() ==> !tag_in(#[trigger] present[i], known(texts(tags@)))
        },
        _ => false,
    }
}

/// Whether a report is that of a class.
pub open spec fn reports(
    streams: Seq<Stream>,
    sel: StreamFilter,
    class: StreamClass,
    u: UnmatchedClass,
) -> bool {
    &&& u.class@ == class_key(class)
    &&& sel matches StreamFilter::Langs(tags) && texts(u.requested@) == texts(tags@)
    &&& listing(class_tags(streams, class), texts(u.available@))
}

proof fn lemma_text_less_irreflexive(a: Seq<char>)
    ensures
        !text_less(a, a),
    decreases a.len(),
{
    if a.len() > 0 {
        lemma_text_less_irreflexive(a.drop_first());
    }
}

proof fn lemma_text_less_transitive(a: Seq<char>, b: Seq<char>, c: Seq<char>)
    requires
        text_less(a, b),
        text_less(b, c),
    ensures
        text_less(a, c),
    decreases a.len(),
{
    if a.len() > 0 && b.len() > 0 && c.len() > 0 && a[0] == b[0] && b[0] == c[0] {
        lemma_text_less_transitive(a.drop_first(), b.drop_first(), c.drop_first());
    }
}

proof fn lemma_chars_differ(x: char, y: char)
    requires
        x != y,
    ensures
        (x as u32) < (y as u32) || (y as u32) < (x as u32),
{
}

/// Of two strings one comes first, unless they are the same.
pub proof fn lemma_text_less_total(a: Seq<char>, b: Seq<char>)
    ensures
        text_less(a, b) || text_less(b, a) || a == b,
    decreases a.len(),
{
    if a.len() == 0 {
        if b.len() == 0 {
            assert(a =~= b);
        }
    } else if b.len() == 0 {
        assert(text_less(b, a));
    } else if a[0] != b[0] {
        lemma_chars_differ(a[0], b[0]);
    } else {
        lemma_text_less_total(a.drop_first(), b.drop_first());
        assert(text_less(a, b) == text_less(a.drop_first(), b.drop_first()));
        assert(text_less(b, a) == text_less(b.drop_first(), a.drop_first()));
        if a.drop_first() == b.drop_first() {
            assert(a =~= seq![a[0]] + a.drop_first());
            assert(b =~= seq![b[0]] + b.drop_first());
        }
    }
}

/// Whether a string comes before another, or is the same.
fn text_order(a: &Vec<char>, b: &Vec<char>) -> (r: (bool, bool))
    ensures
        r.0 == text_less(a@, b@),
        r.1 <==> a@ == b@,
{
    let mut i: usize = 0;
    assert(a@.skip(0) =~= a@);
    assert(b@.skip(0) =~= b@);
    while i < a.len() && i < b.len() && a[i] == b[i]
        invariant
            i <= a@.len(),
            i <= b@.len(),
            a@.take(i as int) == b@.take(i as int),
            text_less(a@, b@) == text_less(a@.skip(i as int), b@.skip(i as int)),
        decreases a@.len() - i,
    {
        proof {
            let x = a@.skip(i as int);
            let y = b@.skip(i as int);
            assert(x[0] == a@[i as int] && y[0] == b@[i as int]);
            assert(x.drop_first() =~= a@.skip(i + 1));
            assert(y.drop_first() =~= b@.skip(i + 1));
            assert(a@.take(i + 1) =~= a@.take(i as int).push(a@[i as int]));
            assert(b@.take(i + 1) =~= b@.take(i as int).push(b@[i as int]));
        }
        i = i + 1;
    }
    if i >= b.len() {
        if i >= a.len() {
            assert(a@.take(i as int) =~= a@);
            assert(b@.take(i as int) =~= b@);
            return (false, true);
        }
        assert(a@.len() != b@.len());
        return (false, false);
    }
    if i >= a.len() {
        assert(a@.len() != b@.len());
        return (true, false);
    }
    proof {
        assert(a@.skip(i as int)[0] == a@[i as int]);
        assert(b@.skip(i as int)[0] == b@[i as int]);
    }
    ((a[i] as u32) < (b[i] as u32), false)
}

/// Put a string in its place among strings in order, unless it is there.
fn list_once(out: &mut Vec<String>, s: String)
    requires
        strictly_sorted(texts(old(out)@)),
    ensures
        strictly_sorted(texts(final(out)@)),
        forall|x: Seq<char>| #[trigger]
            texts(final(out)@).contains(x) <==> texts(old(out)@).contains(x) || x == s@,
{
    let key: Vec<char> = chars_of(s.as_str());
    let ghost prev = texts(out@);
    let mut k: usize = out.len();
    while k > 0
        invariant
            k <= out@.len(),
            key@ == s@,
            prev == texts(out@),
            out@ == old(out)@,
            strictly_sorted(prev),
            forall|j: int| k <= j < prev.len() ==> text_less(s@, #[trigger] prev[j]),
        ensures
            k <= out@.len(),
            out@ == old(out)@,
            forall|j: int| k <= j < prev.len() ==> text_less(s@, #[trigger] prev[j]),
            k > 0 ==> text_less(prev[k - 1], s@),
        decreases k,
    {
        let other: Vec<char> = chars_of(out[k - 1].as_str());
        assert(prev[k - 1] == other@);
        let (less, same) = text_order(&other, &key);
        if same {
            proof {
                assert(texts(out@)[k - 1] == s@);
            }
            return ;
        }
        if less {
            break ;
        }
        proof {
            lemma_text_less_total(other@, key@);
        }
        k = k - 1;
    }
    proof {
        assert forall|j: int| 0 <= j < k implies text_less(#[trigger] prev[j], s@) by {
            if j < k - 1 {
                assert(text_less(prev[j], prev[k - 1]));
                lemma_text_less_transitive(prev[j], prev[k - 1], s@);
            }
        }
    }
    let ghost text = s@;
    out.insert(k, s);
    proof {
        let now = texts(out@);
        assert(now =~= prev.insert(k as int, text));
        assert forall|i: int, j: int| 0 <= i < j < now.len() implies text_less(
            #[trigger] now[i],
            #[trigger] now[j],
        ) by {
            if i < k {
                assert(now[i] == prev[i]);
            } else if i > k {
                assert(now[i] == prev[i - 1]);
            }
            if j < k {
                assert(now[j] == prev[j]);
            } else if j > k {
                assert(now[j] == prev[j - 1]);
            }
        }
        assert forall|x: Seq<char>| #[trigger] now.contains(x) <==> prev.contains(x) || x == text by {
            if prev.contains(x) {
                let i = choose|i: int| 0 <= i < prev.len() && prev[i] == x;
                assert(now[if i < k { i } else { i + 1 }] == x);
            }
            if x == text {
                assert(now[k as int] == x);
            }
            if now.contains(x) {
                let i = choose|i: int| 0 <= i < now.len() && now[i] == x;
                if i < k {
                    assert(prev[i] == x);
                } else if i > k {
                    assert(prev[i - 1] == x);
                }
            }
        }
    }
}

/// The language tags of the streams of a class, in order. Empty tags stay: a
/// title with untagged audio is not a title without audio.
pub fn class_languages(title: &DiscTitle, class: StreamClass) -> (r: Vec<String>)
    ensures
        texts(r@) == class_tags(title.streams@, class),
{
    let mut out: Vec<String> = Vec::new();
    let mut k: usize = 0;
    assert(title.streams@.take(0) =~= seq![]);
    assert(texts(out@) =~= seq![]);
    while k < title.streams.len()
        invariant
            k <= title.streams@.len(),
            texts(out@) == class_tags(title.streams@.take(k as int), class),
        decreases title.streams@.len() - k,
    {
        assert(title.streams@.take(k + 1).drop_last() =~= title.streams@.take(k as int));
        if let Some((_, tag)) = stream_of(&title.streams[k], class) {
            let ghost before = texts(out@);
            out.push(tag.clone());
            assert(texts(out@) =~= before.push(tag@));
        }
        k = k + 1;
    }
    assert(title.streams@.take(k as int) =~= title.streams@);
    out
}

/// The tags there are, as they are shown: each once, in order.
fn list_tags(present: &Vec<String>) -> (r: Vec<String>)
    ensures
        listing(texts(present@), texts(r@)),
{
    let mut out: Vec<String> = Vec::new();
    let mut i: usize = 0;
    let ghost all = texts(present@);
    while i < present.len()
        invariant
            i <= present@.len(),
            all == texts(present@),
            strictly_sorted(texts(out@)),
            forall|x: Seq<char>| #[trigger]
                texts(out@).contains(x) <==> exists|j: int|
                    0 <= j < i && shown(#[trigger] all[j]) == x,
        decreases present@.len() - i,
    {
        let ghost prev = texts(out@);
        assert(all[i as int] == present@[i as int]@);
        let name: String = if present[i].as_str().is_empty() {
            "und".to_owned()
        } else {
            present[i].clone()
        };
        assert(name@ == shown(all[i as int]));
        list_once(&mut out, name);
        assert forall|x: Seq<char>| #[trigger] texts(out@).contains(x) <==> exists|j: int|
            0 <= j < i + 1 && shown(#[trigger] all[j]) == x by {
            assert(texts(out@).contains(x) <==> prev.contains(x) || x == shown(all[i as int]));
            if exists|j: int| 0 <= j < i + 1 && shown(#[trigger] all[j]) == x {
                let j = choose|j: int| 0 <= j < i + 1 && shown(#[trigger] all[j]) == x;
                if j < i {
                    assert(prev.contains(x));
                }
            }
        }
        i = i + 1;
    }
    out
}

/// A copy of some strings.
fn copy_texts(v: &Vec<String>) -> (r: Vec<String>)
    ensures
        texts(r@) == texts(v@),
{
    let mut out: Vec<String> = Vec::new();
    let mut i: usize = 0;
    assert(texts(out@) =~= texts(v@).take(0));
    while i < v.len()
        invariant
            i <= v@.len(),
            texts(out@) == texts(v@).take(i as int),
        decreases v@.len() - i,
    {
        let ghost before = texts(out@);
        let s: String = v[i].clone();
        assert(s@ == texts(v@)[i as int]);
        out.push(s);
        assert(texts(out@) =~= before.push(texts(v@)[i as int]));
        assert(texts(v@).take(i + 1) =~= before.push(texts(v@)[i as int]));
        i = i + 1;
    }
    assert(texts(v@).take(i as int) =~= texts(v@));
    out
}

/// The languages that some tags name; tags that name none are left out.
fn known_languages(tags: &Vec<String>) -> (r: Vec<String>)
    ensures
        texts(r@) == known(texts(tags@)),
{
    let mut out: Vec<String> = Vec::new();
    let mut i: usize = 0;
    let ghost all = texts(tags@);
    assert(all.take(0) =~= seq![]);
    assert(texts(out@) =~= seq![]);
    while i < tags.len()
        invariant
            i <= tags@.len(),
            all == texts(tags@),
            texts(out@) == known(all.take(i as int)),
        decreases tags@.len() - i,
    {
        assert(all[i as int] == tags@[i as int]@);
        assert(all.take(i + 1).drop_last() =~= all.take(i as int));
        if let Some(l) = normalize_lang(tags[i].as_str()) {
            let ghost before = texts(out@);
            out.push(l);
            assert(texts(out@) =~= before.push(l@));
        }
        i = i + 1;
    }
    assert(all.take(i as int) =~= all);
    out
}

/// Report a class that a choice of languages misses.
pub fn check_class(title: &DiscTitle, sel: &StreamFilter, class: StreamClass) -> (r: Option<
    UnmatchedClass,
>)
    ensures
        r is Some <==> misses(title.streams@, *sel, class),
        r matches Some(u) ==> reports(title.streams@, *sel, class, u),
{
    let tags: &Vec<String> = match sel {
        StreamFilter::Langs(tags) => tags,
        StreamFilter::All => {
            return None;
        },
        StreamFilter::Nothing => {
            return None;
        },
    };
    let present: Vec<String> = class_languages(title, class);
    let ghost all = class_tags(title.streams@, class);
    assert(texts(present@).len() == present@.len());
    if present.len() == 0 {
        return None;
    }
    let wanted: Vec<String> = known_languages(tags);
    let mut i: usize = 0;
    while i < present.len()
        invariant
            i <= present@.len(),
            all == texts(present@),
            all == class_tags(title.streams@, class),
            *sel == StreamFilter::Langs(*tags),
            texts(wanted@) == known(texts(tags@)),
            forall|j: int| 0 <= j < i ==> !tag_in(#[trigger] all[j], texts(wanted@)),
        decreases present@.len() - i,
    {
        assert(all[i as int] == present@[i as int]@);
        let lang = normalize_lang(present[i].as_str());
        if is_wanted(&lang, &wanted) {
            assert(tag_in(all[i as int], texts(wanted@)));
            return None;
        }
        i = i + 1;
    }
    Some(
        UnmatchedClass {
            class: class.key(),
            requested: copy_texts(tags),
            available: list_tags(&present),
        },
    )
}

impl StreamChoice {
    /// Which streams of a title to keep.
    pub fn resolve(&self, title: &DiscTitle) -> (r: Result<StreamSelection, StreamSelError>)
        ensures
            match r {
                Ok(sel) => resolves(title.streams@, self.audio, StreamClass::Audio, Ok(sel.audio))
                    && resolves(
                    title.streams@,
                    self.subtitles,
                    StreamClass::Subtitle,
                    Ok(sel.subtitle),
                ),
                Err(e) => {
                    ||| resolves(title.streams@, self.audio, StreamClass::Audio, Err(e))
                    ||| (exists|p: PidFilter|
                        resolves(title.streams@, self.audio, StreamClass::Audio, Ok(p)))
                        && resolves(
                        title.streams@,
                        self.subtitles,
                        StreamClass::Subtitle,
                        Err(e),
                    )
                },
            },
    {
        resolve_stream_selection(title, &self.audio, &self.subtitles)
    }

    /// The classes of which no stream is in a language that was asked for, on a
    /// title that has streams of them: audio before subtitles.
    pub fn unmatched(&self, title: &DiscTitle) -> (r: Vec<UnmatchedClass>)
        ensures
            r@.len() == (if misses(title.streams@, self.audio, StreamClass::Audio) {
                1int
            } else {
                0
            }) + (if misses(title.streams@, self.subtitles, StreamClass::Subtitle) {
                1int
            } else {
                0
            }),
            misses(title.streams@, self.audio, StreamClass::Audio) ==> reports(
                title.streams@,
                self.audio,
                StreamClass::Audio,
                r@[0],
            ),
            misses(title.streams@, self.subtitles, StreamClass::Subtitle) ==> reports(
                title.streams@,
                self.subtitles,
                StreamClass::Subtitle,
                r@.last(),
            ),
    {
        let mut out: Vec<UnmatchedClass> = Vec::new();
        if let Some(u) = check_class(title, &self.audio, StreamClass::Audio) {
            out.push(u);
        }
        if let Some(u) = check_class(title, &self.subtitles, StreamClass::Subtitle) {
            out.push(u);
        }
        out
    }
}

/// The tags there are can be listed in one way only.
pub proof fn law_listing_is_unique(a: Seq<Seq<char>>, b: Seq<Seq<char>>)
    requires
        strictly_sorted(a),
        strictly_sorted(b),
        forall|x: Seq<char>| #[trigger] a.contains(x) <==> b.contains(x),
    ensures
        a == b,
    decreases a.len(),
{
    if a.len() == 0 {
        if b.len() > 0 {
            assert(b.contains(b[0]));
            assert(a.contains(b[0]));
        }
        assert(a =~= b);
    } else {
        assert(a.contains(a.last()));
        assert(b.contains(a.last()));
        assert(b.contains(b.last()));
        assert(a.contains(b.last()));
        let i = choose|i: int| 0 <= i < a.len() && a[i] == b.last();
        let j = choose|j: int| 0 <= j < b.len() && b[j] == a.last();
        if a.last() != b.last() {
            assert(text_less(a[i], a[a.len() - 1]));
            assert(text_less(b[j], b[b.len() - 1]));
            lemma_text_less_transitive(a.last(), b.last(), a.last());
            lemma_text_less_irreflexive(a.last());
        }
        let x = a.drop_last();
        let y = b.drop_last();
        assert forall|s: Seq<char>| #[trigger] x.contains(s) <==> y.contains(s) by {
            lemma_text_less_irreflexive(a.last());
            if x.contains(s) {
                let k = choose|k: int| 0 <= k < x.len() && x[k] == s;
                assert(a[k] == s);
                assert(text_less(a[k], a[a.len() - 1]));
                assert(a.contains(s));
                let m = choose|m: int| 0 <= m < b.len() && b[m] == s;
                assert(m < b.len() - 1);
                assert(y[m] == s);
            }
            if y.contains(s) {
                let k = choose|k: int| 0 <= k < y.len() && y[k] == s;
                assert(b[k] == s);
                assert(text_less(b[k], b[b.len() - 1]));
                assert(b.contains(s));
                assert(a.contains(s));
                let m = choose|m: int| 0 <= m < a.len() && a[m] == s;
                assert(m < a.len() - 1);
                assert(x[m] == s);
            }
        }
        law_listing_is_unique(x, y);
        assert(a =~= x.push(a.last()));
        assert(b =~= y.push(b.last()));
    }
}

/// A class is reported exactly where choosing by language would keep none of
/// its streams although it has some.
pub proof fn law_a_miss_is_a_class_that_keeps_nothing(
    streams: Seq<Stream>,
    class: StreamClass,
    tags: Vec<String>,
)
    ensures
        misses(streams, StreamFilter::Langs(tags), class) <==> class_tags(streams, class).len() > 0
            && chosen_pids(streams, class, known(texts(tags@))).len() == 0,
{
    lemma_nothing_chosen(streams, class, known(texts(tags@)));
}

proof fn lemma_nothing_chosen(streams: Seq<Stream>, class: StreamClass, wanted: Seq<Seq<char>>)
    ensures
        chosen_pids(streams, class, wanted).len() == 0 <==> forall|i: int|
            0 <= i < class_tags(streams, class).len() ==> !tag_in(
                #[trigger] class_tags(streams, class)[i],
                wanted,
            ),
    decreases streams.len(),
{
    if streams.len() > 0 {
        let init = streams.drop_last();
        lemma_nothing_chosen(init, class, wanted);
        let a = class_tags(init, class);
        let b = class_tags(streams, class);
        match of_class(streams.last(), class) {
            Some((pid, tag)) => {
                assert(b[b.len() - 1] == tag);
                assert forall|i: int| 0 <= i < a.len() implies #[trigger] a[i] == b[i] by {}
                if forall|i: int| 0 <= i < b.len() ==> !tag_in(#[trigger] b[i], wanted) {
                    assert forall|i: int| 0 <= i < a.len() implies !tag_in(#[trigger] a[i], wanted) by {
                        assert(a[i] == b[i]);
                    }
                }
                if forall|i: int| 0 <= i < a.len() ==> !tag_in(#[trigger] a[i], wanted) {
                    if !tag_in(tag, wanted) {
                        assert forall|i: int| 0 <= i < b.len() implies !tag_in(
                            #[trigger] b[i],
                            wanted,
                        ) by {
                            if i < a.len() {
                                assert(a[i] == b[i]);
                            }
                        }
                    }
                }
            },
            None => {},
        }
    }
}

/// A stream is kept exactly where its tag names the same language as one of the
/// tags that were asked for, whatever each of them is written as.
pub proof fn law_a_stream_is_kept_for_its_language(tag: Seq<char>, tags: Seq<Seq<char>>)
    ensures
        tag_in(tag, known(tags)) <==> exists|i: int|
            0 <= i < tags.len() && identity(#[trigger] tags[i]) is Some && identity(tags[i])
                == identity(tag),
    decreases tags.len(),
{
    if tags.len() > 0 {
        let init = tags.drop_last();
        law_a_stream_is_kept_for_its_language(tag, init);
        let k = known(tags);
        let ki = known(init);
        let last = tags[tags.len() - 1];
        if tag_in(tag, k) {
            let l = identity(tag)->0;
            let j = choose|j: int| 0 <= j < k.len() && k[j] == l;
            if j < ki.len() {
                assert(ki[j] == l);
                assert(tag_in(tag, ki));
                let i = choose|i: int|
                    0 <= i < init.len() && identity(#[trigger] init[i]) is Some && identity(init[i])
                        == identity(tag);
                assert(tags[i] == init[i]);
            } else {
                assert(identity(last) == identity(tag));
            }
        }
        if exists|i: int|
            0 <= i < tags.len() && identity(#[trigger] tags[i]) is Some && identity(tags[i])
                == identity(tag) {
            let i = choose|i: int|
                0 <= i < tags.len() && identity(#[trigger] tags[i]) is Some && identity(tags[i])
                    == identity(tag);
            if i < init.len() {
                assert(init[i] == tags[i]);
                let l = identity(tag)->0;
                let j = choose|j: int| 0 <= j < ki.len() && ki[j] == l;
                assert(k[j] == l);
            } else {
                assert(k[k.len() - 1] == identity(tag)->0);
            }
        }
    }
}

} // verus!
