//! How many entries and how many bytes of a status a list holds, and what
//! recording a range does to both.

use crate::entries::{
    above, below, bytes_with, count_with, joined, lemma_joined, lemma_replaced_ordered, ordered,
    part_above, part_below, recorded, replaced, status_at, MapEntry,
};
use crate::status::SectorStatus;
use vstd::prelude::*;

verus! {

proof fn lemma_concat(a: Seq<MapEntry>, b: Seq<MapEntry>, s: SectorStatus)
    ensures
        count_with(a + b, s) == count_with(a, s) + count_with(b, s),
        bytes_with(a + b, s) == bytes_with(a, s) + bytes_with(b, s),
    decreases b.len(),
{
    if b.len() == 0 {
        assert(a + b =~= a);
    } else {
        assert((a + b).drop_last() =~= a + b.drop_last());
        lemma_concat(a, b.drop_last(), s);
    }
}

proof fn lemma_one(e: MapEntry, s: SectorStatus)
    ensures
        count_with(seq![e], s) == if e.status == s {
            1nat
        } else {
            0
        },
        bytes_with(seq![e], s) == if e.status == s {
            e.size as nat
        } else {
            0
        },
{
    assert(seq![e].drop_last().len() == 0);
    assert(count_with(seq![e].drop_last(), s) == 0);
    assert(bytes_with(seq![e].drop_last(), s) == 0);
}

/// Joining neighbours never makes more entries of a status.
proof fn lemma_count_joined(es: Seq<MapEntry>, s: SectorStatus)
    ensures
        count_with(joined(es), s) <= count_with(es, s),
    decreases es.len(),
{
    if es.len() > 0 {
        let m = joined(es.drop_last());
        lemma_count_joined(es.drop_last(), s);
        assert(joined(es).drop_last() =~= m || joined(es).drop_last() =~= m.drop_last());
    }
}

/// Cutting a range out of a list splits at most one entry.
proof fn lemma_count_cut(es: Seq<MapEntry>, e: MapEntry, s: SectorStatus)
    requires
        ordered(es),
        0 < e.size,
        e.end() <= u64::MAX,
    ensures
        count_with(below(es, e.pos), s) + count_with(above(es, e.end() as u64), s) <= count_with(
            es,
            s,
        ) + 1,
        es.len() == 0 || es.last().end() <= e.end() ==> count_with(below(es, e.pos), s)
            + count_with(above(es, e.end() as u64), s) <= count_with(es, s),
    decreases es.len(),
{
    if es.len() > 0 {
        let init = es.drop_last();
        let l = part_below(es.last(), e.pos);
        let h = part_above(es.last(), e.end() as u64);
        assert(ordered(init));
        lemma_count_cut(init, e, s);
        lemma_concat(below(init, e.pos), l, s);
        lemma_concat(above(init, e.end() as u64), h, s);
        if l.len() > 0 {
            lemma_one(l[0], s);
            assert(l =~= seq![l[0]]);
        } else {
            assert(count_with(l, s) == 0);
        }
        if h.len() > 0 {
            lemma_one(h[0], s);
            assert(h =~= seq![h[0]]);
        } else {
            assert(count_with(h, s) == 0);
        }
        if init.len() > 0 {
            assert(init.last() == es[es.len() - 2]);
            assert(init.last().end() <= es.last().pos);
        }
    }
}

/// Recording a range adds at most two entries of any status.
pub proof fn lemma_count_recorded(es: Seq<MapEntry>, e: MapEntry, s: SectorStatus)
    requires
        ordered(es),
        0 < e.size,
        e.end() <= u64::MAX,
    ensures
        count_with(recorded(es, e), s) <= count_with(es, s) + 2,
{
    let b = below(es, e.pos);
    let a = above(es, e.end() as u64);
    lemma_count_cut(es, e, s);
    lemma_count_joined(replaced(es, e), s);
    lemma_concat(b.push(e), a, s);
    assert(b.push(e).drop_last() =~= b);
}

/// How many bytes of an entry lie in `[a, b)`.
pub open spec fn overlap(e: MapEntry, a: int, b: int) -> int {
    let lo = if e.pos >= a {
        e.pos as int
    } else {
        a
    };
    let hi = if e.end() <= b {
        e.end()
    } else {
        b
    };
    if lo < hi {
        hi - lo
    } else {
        0
    }
}

/// How many bytes of a status a list has in `[a, b)`.
pub open spec fn bytes_between(es: Seq<MapEntry>, s: SectorStatus, a: int, b: int) -> int
    decreases es.len(),
{
    if es.len() == 0 {
        0
    } else {
        bytes_between(es.drop_last(), s, a, b) + if es.last().status == s {
            overlap(es.last(), a, b)
        } else {
            0
        }
    }
}

proof fn lemma_bytes_cut(es: Seq<MapEntry>, s: SectorStatus, a: u64, b: u64)
    requires
        ordered(es),
        a <= b,
    ensures
        bytes_with(es, s) == bytes_with(below(es, a), s) + bytes_between(es, s, a as int, b as int)
            + bytes_with(above(es, b), s),
    decreases es.len(),
{
    if es.len() > 0 {
        let init = es.drop_last();
        let l = part_below(es.last(), a);
        let h = part_above(es.last(), b);
        assert(ordered(init));
        assert(es.last() == es[es.len() - 1] && es.last().end() <= u64::MAX);
        lemma_bytes_cut(init, s, a, b);
        lemma_concat(below(init, a), l, s);
        lemma_concat(above(init, b), h, s);
        if l.len() > 0 {
            lemma_one(l[0], s);
            assert(l =~= seq![l[0]]);
        } else {
            assert(bytes_with(l, s) == 0);
        }
        if h.len() > 0 {
            lemma_one(h[0], s);
            assert(h =~= seq![h[0]]);
        } else {
            assert(bytes_with(h, s) == 0);
        }
    }
}

/// An ordered list without a byte of a status in `[a, b)` has none there.
proof fn lemma_none_between(es: Seq<MapEntry>, s: SectorStatus, a: int, b: int)
    requires
        ordered(es),
        forall|x: int| a <= x < b ==> #[trigger] status_at(es, x) != Some(s),
    ensures
        bytes_between(es, s, a, b) == 0,
    decreases es.len(),
{
    if es.len() > 0 {
        let init = es.drop_last();
        let e = es.last();
        assert(ordered(init));
        if e.status == s && overlap(e, a, b) > 0 {
            let x = if e.pos >= a {
                e.pos as int
            } else {
                a
            };
            assert(e.covers(x));
            assert(status_at(es, x) == Some(s));
        }
        assert forall|x: int| a <= x < b implies #[trigger] status_at(init, x) != Some(s) by {
            assert(status_at(es, x) != Some(s));
            if e.covers(x) {
                lemma_earlier_entries_end_below(es, x);
            }
        }
        lemma_none_between(init, s, a, b);
    }
}

/// The entries before the last of an ordered list cover none of its bytes.
pub proof fn lemma_earlier_entries_end_below(es: Seq<MapEntry>, x: int)
    requires
        ordered(es),
        es.len() > 0,
        es.last().covers(x),
    ensures
        status_at(es.drop_last(), x) is None,
{
    let init = es.drop_last();
    assert forall|i: int| 0 <= i < init.len() implies !(#[trigger] init[i]).covers(x) by {
        assert(init[i] == es[i]);
        assert(es[i].end() <= es[es.len() - 1].pos);
    }
    lemma_uncovered(init, x);
}

proof fn lemma_uncovered(es: Seq<MapEntry>, x: int)
    requires
        forall|i: int| 0 <= i < es.len() ==> !(#[trigger] es[i]).covers(x),
    ensures
        status_at(es, x) is None,
    decreases es.len(),
{
    if es.len() > 0 {
        assert(!es[es.len() - 1].covers(x));
        let init = es.drop_last();
        assert forall|i: int| 0 <= i < init.len() implies !(#[trigger] init[i]).covers(x) by {
            assert(init[i] == es[i]);
        }
        lemma_uncovered(init, x);
    }
}

/// Recording a range takes its bytes from the statuses they had and gives them
/// to the new one.
pub proof fn law_recording_moves_the_bytes(es: Seq<MapEntry>, e: MapEntry, s: SectorStatus)
    requires
        ordered(es),
        0 < e.size,
        e.end() <= u64::MAX,
    ensures
        bytes_with(recorded(es, e), s) == bytes_with(es, s) - bytes_between(
            es,
            s,
            e.pos as int,
            e.end(),
        ) + if e.status == s {
            e.size as int
        } else {
            0
        },
        (forall|x: int| e.covers(x) ==> #[trigger] status_at(es, x) != Some(s)) ==> bytes_between(
            es,
            s,
            e.pos as int,
            e.end(),
        ) == 0,
{
    let b = below(es, e.pos);
    let a = above(es, e.end() as u64);
    lemma_bytes_cut(es, s, e.pos, e.end() as u64);
    lemma_replaced_ordered(es, e);
    lemma_joined(replaced(es, e));
    lemma_concat(b.push(e), a, s);
    assert(b.push(e).drop_last() =~= b);
    if forall|x: int| e.covers(x) ==> #[trigger] status_at(es, x) != Some(s) {
        lemma_none_between(es, s, e.pos as int, e.end());
    }
}

} // verus!
