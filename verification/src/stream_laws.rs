//! Which streams a choice of languages keeps, stream by stream.

use crate::language::identity;
use crate::streams::{
    chosen_pids, class_tags, first_unknown, known, law_a_stream_is_kept_for_its_language, misses,
    reports, resolves, shown, text_less, texts, PidFilter, Stream, StreamClass, StreamFilter,
    StreamSelError, UnmatchedClass,
};
use vstd::prelude::*;

verus! {

/// Whether a stream is of a class and in the language of one of some tags.
pub open spec fn fits(s: Stream, class: StreamClass, tags: Seq<Seq<char>>) -> bool {
    match s {
        Stream::Video { pid } => false,
        Stream::Audio { pid, language } => class is Audio && exists|i: int|
            0 <= i < tags.len() && identity(#[trigger] tags[i]) is Some && identity(tags[i])
                == identity(language@),
        Stream::Subtitle { pid, language } => class is Subtitle && exists|i: int|
            0 <= i < tags.len() && identity(#[trigger] tags[i]) is Some && identity(tags[i])
                == identity(language@),
    }
}

/// The packet id of a stream.
pub open spec fn pid_of(s: Stream) -> u16 {
    match s {
        Stream::Video { pid } => pid,
        Stream::Audio { pid, language } => pid,
        Stream::Subtitle { pid, language } => pid,
    }
}

/// A stream is kept exactly where it is of the class and its language is that
/// of one of the tags, after those in front of it, under its own packet id.
pub proof fn law_a_stream_is_kept_where_it_fits(
    streams: Seq<Stream>,
    s: Stream,
    class: StreamClass,
    tags: Seq<Seq<char>>,
)
    ensures
        chosen_pids(Seq::<Stream>::empty(), class, known(tags)).len() == 0,
        chosen_pids(streams.push(s), class, known(tags)) == if fits(s, class, tags) {
            chosen_pids(streams, class, known(tags)).push(pid_of(s))
        } else {
            chosen_pids(streams, class, known(tags))
        },
{
    assert(streams.push(s).drop_last() =~= streams);
    match s {
        Stream::Video { pid } => {},
        Stream::Audio { pid, language } => {
            law_a_stream_is_kept_for_its_language(language@, tags);
        },
        Stream::Subtitle { pid, language } => {
            law_a_stream_is_kept_for_its_language(language@, tags);
        },
    }
}

/// The tags of a class are those of its streams, in order, blank ones with them.
pub proof fn law_the_tags_of_a_class(streams: Seq<Stream>, s: Stream, class: StreamClass)
    ensures
        class_tags(Seq::<Stream>::empty(), class).len() == 0,
        class_tags(streams.push(s), class) == match s {
            Stream::Video { pid } => class_tags(streams, class),
            Stream::Audio { pid, language } => if class is Audio {
                class_tags(streams, class).push(language@)
            } else {
                class_tags(streams, class)
            },
            Stream::Subtitle { pid, language } => if class is Subtitle {
                class_tags(streams, class).push(language@)
            } else {
                class_tags(streams, class)
            },
        },
{
    assert(streams.push(s).drop_last() =~= streams);
}

/// What a choice comes to. All streams, or none, without a look at the title. A
/// choice of languages is refused exactly where a tag names none, with the first
/// such tag, and else keeps the streams that it should.
pub proof fn law_what_a_choice_comes_to(
    streams: Seq<Stream>,
    sel: StreamFilter,
    class: StreamClass,
    r: Result<PidFilter, StreamSelError>,
)
    requires
        resolves(streams, sel, class, r),
    ensures
        sel is All <==> r matches Ok(PidFilter::All),
        sel is Nothing ==> r is Ok && (r->Ok_0 matches PidFilter::Only(p) && p@.len() == 0),
        sel matches StreamFilter::Langs(tags) ==> {
            &&& r is Err <==> exists|i: int|
                0 <= i < tags@.len() && identity(#[trigger] texts(tags@)[i]) is None
            &&& r matches Ok(PidFilter::Only(p)) ==> p@ == chosen_pids(
                streams,
                class,
                known(texts(tags@)),
            )
            &&& r matches Err(StreamSelError::UnknownLanguage { tag }) ==> exists|i: int|
                0 <= i < tags@.len() && tag@ == #[trigger] texts(tags@)[i] && identity(tag@) is None
                    && forall|j: int| 0 <= j < i ==> identity(#[trigger] texts(tags@)[j]) is Some
        },
{
    if let StreamFilter::Langs(tags) = sel {
        match r {
            Err(StreamSelError::UnknownLanguage { tag }) => {
                let i = choose|i: int| #[trigger]
                    first_unknown(texts(tags@), i) && tag@ == texts(tags@)[i];
                assert(first_unknown(texts(tags@), i));
                assert(tag@ == texts(tags@)[i]);
            },
            Ok(f) => {},
        }
    }
}

/// What is said of a class that a choice misses: its name, the tags that were
/// asked for, and those there are, `und` for a blank one.
pub proof fn law_what_is_said_of_a_miss(
    streams: Seq<Stream>,
    tags: Vec<String>,
    class: StreamClass,
    u: UnmatchedClass,
    tag: Seq<char>,
)
    requires
        reports(streams, StreamFilter::Langs(tags), class, u),
    ensures
        class is Audio ==> u.class@ == "audio"@,
        class is Subtitle ==> u.class@ == "subtitle"@,
        texts(u.requested@) == texts(tags@),
        texts(u.available@).contains(tag) <==> exists|i: int|
            0 <= i < class_tags(streams, class).len() && if (#[trigger] class_tags(
                streams,
                class,
            )[i]).len() == 0 {
                tag == "und"@
            } else {
                tag == class_tags(streams, class)[i]
            },
{
    let all = class_tags(streams, class);
    if texts(u.available@).contains(tag) {
        let i = choose|i: int| 0 <= i < all.len() && shown(#[trigger] all[i]) == tag;
        assert(all[i].len() == 0 || tag == all[i]);
    }
    if exists|i: int|
        0 <= i < all.len() && if (#[trigger] all[i]).len() == 0 {
            tag == "und"@
        } else {
            tag == all[i]
        } {
        let i = choose|i: int|
            0 <= i < all.len() && if (#[trigger] all[i]).len() == 0 {
                tag == "und"@
            } else {
                tag == all[i]
            };
        assert(shown(all[i]) == tag);
    }
}

/// Neither all streams nor none can miss anything, and a title without streams
/// of a class has none to miss.
pub proof fn law_what_cannot_miss(streams: Seq<Stream>, sel: StreamFilter, class: StreamClass)
    ensures
        sel is All || sel is Nothing ==> !misses(streams, sel, class),
        class_tags(streams, class).len() == 0 ==> !misses(streams, sel, class),
{
}

/// Tags are listed by the first character in which they differ, and a tag before
/// those that only go on.
pub proof fn law_the_order_of_tags(p: Seq<char>, x: char, y: char, a: Seq<char>, b: Seq<char>)
    requires
        (x as u32) < (y as u32),
    ensures
        text_less(p + seq![x] + a, p + seq![y] + b),
        !text_less(p + seq![y] + b, p + seq![x] + a),
        text_less(p, p + seq![x] + a),
        !text_less(p + seq![x] + a, p),
        !text_less(p, p),
    decreases p.len(),
{
    let u = p + seq![x] + a;
    let v = p + seq![y] + b;
    if p.len() > 0 {
        let q = p.drop_first();
        law_the_order_of_tags(q, x, y, a, b);
        assert(u.drop_first() =~= q + seq![x] + a);
        assert(v.drop_first() =~= q + seq![y] + b);
    } else {
        assert(u[0] == x && v[0] == y);
    }
}

} // verus!
