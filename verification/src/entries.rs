//! Lists of ranges with a status, and what recording a range does to one.
//!
//! Recording cuts the range out of the list, puts it in with its new status,
//! and joins neighbours of one status, so the list is always the shortest one
//! that says what it says.

use crate::status::SectorStatus;
use vstd::prelude::*;

verus! {

/// One contiguous range of bytes with a status.
#[derive(Debug, Clone, Copy, PartialEq, Eq, Structural)]
pub struct MapEntry {
    pub pos: u64,
    pub size: u64,
    pub status: SectorStatus,
}

impl MapEntry {
    /// The first byte after the range.
    pub open spec fn end(self) -> int {
        self.pos + self.size
    }

    /// Whether a byte lies in the range.
    pub open spec fn covers(self, b: int) -> bool {
        self.pos <= b < self.end()
    }
}

// ---------------------------------------------------------------------------
// What a list of entries says
// ---------------------------------------------------------------------------

/// Entries in position order that share no byte and end within the address
/// space.
pub open spec fn ordered(es: Seq<MapEntry>) -> bool {
    &&& forall|i: int| 0 <= i < es.len() ==> (#[trigger] es[i]).end() <= u64::MAX
    &&& forall|i: int, j: int|
        0 <= i < j < es.len() ==> (#[trigger] es[i]).end() <= (#[trigger] es[j]).pos
}

/// The status that a list of entries gives a byte.
pub open spec fn status_at(es: Seq<MapEntry>, b: int) -> Option<SectorStatus>
    decreases es.len(),
{
    if es.len() == 0 {
        None
    } else if es.last().covers(b) {
        Some(es.last().status)
    } else {
        status_at(es.drop_last(), b)
    }
}

/// Entries that each begin where the one before ends.
pub open spec fn gapless(es: Seq<MapEntry>) -> bool {
    forall|i: int, j: int|
        0 <= i && j == i + 1 && j < es.len() ==> (#[trigger] es[i]).end() == (#[trigger] es[j]).pos
}

/// Entries that lead from one position to another without a gap.
pub open spec fn chain(es: Seq<MapEntry>, a: int, b: int) -> bool {
    if es.len() == 0 {
        a == b
    } else {
        es[0].pos == a && es.last().end() == b && gapless(es)
    }
}

/// Entries that cover `[0, total)` without a gap.
pub open spec fn partitions(es: Seq<MapEntry>, total: int) -> bool {
    es.len() > 0 && chain(es, 0, total)
}

/// Whether two entries are neighbours that say the same.
pub open spec fn joinable(a: MapEntry, b: MapEntry) -> bool {
    a.end() == b.pos && a.status == b.status
}

/// No entry could be joined with the next.
pub open spec fn maximal_runs(es: Seq<MapEntry>) -> bool {
    forall|i: int, j: int|
        0 <= i && j == i + 1 && j < es.len() ==> !joinable(#[trigger] es[i], #[trigger] es[j])
}

/// No entry is empty.
pub open spec fn no_empty(es: Seq<MapEntry>) -> bool {
    forall|i: int| 0 <= i < es.len() ==> (#[trigger] es[i]).size > 0
}

/// How many bytes the entries of a status hold.
pub open spec fn bytes_with(es: Seq<MapEntry>, s: SectorStatus) -> nat
    decreases es.len(),
{
    if es.len() == 0 {
        0
    } else {
        bytes_with(es.drop_last(), s) + if es.last().status == s {
            es.last().size as nat
        } else {
            0
        }
    }
}

/// How many bytes all entries hold.
pub open spec fn bytes_in(es: Seq<MapEntry>) -> nat
    decreases es.len(),
{
    if es.len() == 0 {
        0
    } else {
        bytes_in(es.drop_last()) + es.last().size as nat
    }
}

/// How many entries have a status.
pub open spec fn count_with(es: Seq<MapEntry>, s: SectorStatus) -> nat
    decreases es.len(),
{
    if es.len() == 0 {
        0
    } else {
        count_with(es.drop_last(), s) + if es.last().status == s {
            1nat
        } else {
            0
        }
    }
}

/// The ranges of the entries whose status is among some, in order.
pub open spec fn ranges_among(es: Seq<MapEntry>, among: Seq<SectorStatus>) -> Seq<(u64, u64)>
    decreases es.len(),
{
    if es.len() == 0 {
        seq![]
    } else {
        let rest = ranges_among(es.drop_last(), among);
        if among.contains(es.last().status) {
            rest.push((es.last().pos, es.last().size))
        } else {
            rest
        }
    }
}

// ---------------------------------------------------------------------------
// Recording a range
// ---------------------------------------------------------------------------

/// What is left of an entry below a position.
pub open spec fn part_below(e: MapEntry, pos: u64) -> Seq<MapEntry> {
    if e.end() <= pos {
        seq![e]
    } else if e.pos < pos {
        seq![MapEntry { pos: e.pos, size: (pos - e.pos) as u64, status: e.status }]
    } else {
        seq![]
    }
}

/// What is left of an entry from a position on.
pub open spec fn part_above(e: MapEntry, end: u64) -> Seq<MapEntry> {
    if e.pos >= end {
        seq![e]
    } else if e.end() > end {
        seq![MapEntry { pos: end, size: (e.end() - end) as u64, status: e.status }]
    } else {
        seq![]
    }
}

/// What is left of a list of entries below a position.
pub open spec fn below(es: Seq<MapEntry>, pos: u64) -> Seq<MapEntry>
    decreases es.len(),
{
    if es.len() == 0 {
        seq![]
    } else {
        below(es.drop_last(), pos) + part_below(es.last(), pos)
    }
}

/// What is left of a list of entries from a position on.
pub open spec fn above(es: Seq<MapEntry>, end: u64) -> Seq<MapEntry>
    decreases es.len(),
{
    if es.len() == 0 {
        seq![]
    } else {
        above(es.drop_last(), end) + part_above(es.last(), end)
    }
}

/// A list of entries with a range cut out and replaced.
pub open spec fn replaced(es: Seq<MapEntry>, e: MapEntry) -> Seq<MapEntry> {
    below(es, e.pos).push(e) + above(es, e.end() as u64)
}

/// A list with one more entry at its end, joined to the last where it can be.
pub open spec fn join_last(es: Seq<MapEntry>, e: MapEntry) -> Seq<MapEntry> {
    if es.len() > 0 && joinable(es.last(), e) {
        es.drop_last().push(
            MapEntry { pos: es.last().pos, size: (es.last().size + e.size) as u64, status: e.status },
        )
    } else {
        es.push(e)
    }
}

/// A list with all neighbours of one status joined.
pub open spec fn joined(es: Seq<MapEntry>) -> Seq<MapEntry>
    decreases es.len(),
{
    if es.len() == 0 {
        seq![]
    } else {
        join_last(joined(es.drop_last()), es.last())
    }
}

/// The entries after a range has been recorded.
pub open spec fn recorded(es: Seq<MapEntry>, e: MapEntry) -> Seq<MapEntry> {
    joined(replaced(es, e))
}

// ---------------------------------------------------------------------------
// Lemmas on lists of entries
// ---------------------------------------------------------------------------

pub proof fn lemma_status_at_concat(a: Seq<MapEntry>, b: Seq<MapEntry>, x: int)
    ensures
        status_at(a + b, x) == if status_at(b, x) is Some {
            status_at(b, x)
        } else {
            status_at(a, x)
        },
    decreases b.len(),
{
    if b.len() == 0 {
        assert(a + b =~= a);
    } else {
        assert((a + b).drop_last() =~= a + b.drop_last());
        lemma_status_at_concat(a, b.drop_last(), x);
    }
}

proof fn lemma_status_at_one(e: MapEntry, x: int)
    ensures
        status_at(seq![e], x) == if e.covers(x) {
            Some(e.status)
        } else {
            None
        },
{
    assert(seq![e].drop_last().len() == 0);
    assert(status_at(seq![e].drop_last(), x) is None);
}

proof fn lemma_status_at_below(es: Seq<MapEntry>, pos: u64, x: int)
    ensures
        status_at(below(es, pos), x) == if x < pos {
            status_at(es, x)
        } else {
            None
        },
    decreases es.len(),
{
    if es.len() > 0 {
        lemma_status_at_below(es.drop_last(), pos, x);
        let p = part_below(es.last(), pos);
        lemma_status_at_concat(below(es.drop_last(), pos), p, x);
        if p.len() > 0 {
            lemma_status_at_one(p[0], x);
            assert(p =~= seq![p[0]]);
        } else {
            assert(status_at(p, x) is None);
        }
    }
}

proof fn lemma_status_at_above(es: Seq<MapEntry>, end: u64, x: int)
    requires
        ordered(es),
    ensures
        status_at(above(es, end), x) == if x >= end {
            status_at(es, x)
        } else {
            None
        },
    decreases es.len(),
{
    if es.len() > 0 {
        assert(ordered(es.drop_last()));
        lemma_status_at_above(es.drop_last(), end, x);
        let p = part_above(es.last(), end);
        lemma_status_at_concat(above(es.drop_last(), end), p, x);
        if p.len() > 0 {
            lemma_status_at_one(p[0], x);
            assert(p =~= seq![p[0]]);
        } else {
            assert(status_at(p, x) is None);
        }
    }
}

/// Entries below a position end at or below it, and those of an ordered list
/// stay ordered.
proof fn lemma_below_ordered(es: Seq<MapEntry>, pos: u64)
    requires
        ordered(es),
    ensures
        ordered(below(es, pos)),
        forall|i: int| 0 <= i < below(es, pos).len() ==> (#[trigger] below(es, pos)[i]).end() <= pos,
        es.len() > 0 ==> forall|i: int|
            0 <= i < below(es, pos).len() ==> (#[trigger] below(es, pos)[i]).end() <= es.last().end(),
    decreases es.len(),
{
    if es.len() > 0 {
        let init = es.drop_last();
        assert(ordered(init));
        lemma_below_ordered(init, pos);
        let b = below(init, pos);
        let p = part_below(es.last(), pos);
        let r = below(es, pos);
        assert forall|i: int| 0 <= i < b.len() implies (#[trigger] b[i]).end() <= es.last().pos by {
            assert(init.len() > 0);
            assert(init.last() == es[es.len() - 2]);
        }
        assert forall|i: int| 0 <= i < r.len() implies (#[trigger] r[i]).end() <= pos && r[i].end()
            <= es.last().end() by {
            if i < b.len() {
                assert(r[i] == b[i]);
            } else {
                assert(r[i] == p[0]);
            }
        }
        assert forall|i: int, j: int| 0 <= i < j < r.len() implies (#[trigger] r[i]).end() <= (
        #[trigger] r[j]).pos by {
            assert(r[i] == b[i]);
            if j < b.len() {
                assert(r[j] == b[j]);
            } else {
                assert(r[j] == p[0]);
                assert(p[0].pos == es.last().pos);
            }
        }
    }
}

/// Entries from a position on start at or after it, and those of an ordered
/// list stay ordered.
proof fn lemma_above_ordered(es: Seq<MapEntry>, end: u64)
    requires
        ordered(es),
    ensures
        ordered(above(es, end)),
        forall|i: int| 0 <= i < above(es, end).len() ==> (#[trigger] above(es, end)[i]).pos >= end,
        es.len() > 0 ==> forall|i: int|
            0 <= i < above(es, end).len() ==> (#[trigger] above(es, end)[i]).end() <= es.last().end(),
    decreases es.len(),
{
    if es.len() > 0 {
        let init = es.drop_last();
        assert(ordered(init));
        lemma_above_ordered(init, end);
        let b = above(init, end);
        let p = part_above(es.last(), end);
        let r = above(es, end);
        assert forall|i: int| 0 <= i < b.len() implies (#[trigger] b[i]).end() <= es.last().pos by {
            assert(init.len() > 0);
            assert(init.last() == es[es.len() - 2]);
        }
        assert forall|i: int| 0 <= i < r.len() implies (#[trigger] r[i]).pos >= end && r[i].end()
            <= es.last().end() by {
            if i < b.len() {
                assert(r[i] == b[i]);
            } else {
                assert(r[i] == p[0]);
            }
        }
        assert forall|i: int, j: int| 0 <= i < j < r.len() implies (#[trigger] r[i]).end() <= (
        #[trigger] r[j]).pos by {
            assert(r[i] == b[i]);
            if j < b.len() {
                assert(r[j] == b[j]);
            } else {
                assert(r[j] == p[0]);
                assert(p[0].pos >= es.last().pos);
            }
        }
    }
}

pub proof fn lemma_replaced_ordered(es: Seq<MapEntry>, e: MapEntry)
    requires
        ordered(es),
        e.end() <= u64::MAX,
    ensures
        ordered(replaced(es, e)),
{
    let b = below(es, e.pos);
    let f = above(es, e.end() as u64);
    let r = replaced(es, e);
    lemma_below_ordered(es, e.pos);
    lemma_above_ordered(es, e.end() as u64);
    assert forall|i: int| 0 <= i < r.len() implies (#[trigger] r[i]).end() <= u64::MAX by {
        if i < b.len() {
            assert(r[i] == b[i]);
        } else if i == b.len() {
            assert(r[i] == e);
        } else {
            assert(r[i] == f[i - b.len() - 1]);
        }
    }
    assert forall|i: int, j: int| 0 <= i < j < r.len() implies (#[trigger] r[i]).end() <= (
    #[trigger] r[j]).pos by {
        if i < b.len() {
            assert(r[i] == b[i]);
        } else if i == b.len() {
            assert(r[i] == e);
        } else {
            assert(r[i] == f[i - b.len() - 1]);
        }
        if j < b.len() {
            assert(r[j] == b[j]);
        } else if j == b.len() {
            assert(r[j] == e);
        } else {
            assert(r[j] == f[j - b.len() - 1]);
        }
    }
}

/// Joining changes neither order, nor what any byte's status is, nor how many
/// bytes each status has; and it leaves nothing to join.
pub proof fn lemma_joined(es: Seq<MapEntry>)
    requires
        ordered(es),
    ensures
        ordered(joined(es)),
        maximal_runs(joined(es)),
        joined(es).len() <= es.len(),
        (joined(es).len() == 0) == (es.len() == 0),
        es.len() > 0 ==> joined(es).last().end() == es.last().end(),
        es.len() > 0 ==> joined(es)[0].pos == es[0].pos,
        no_empty(es) ==> no_empty(joined(es)),
        forall|s: SectorStatus| bytes_with(joined(es), s) == bytes_with(es, s),
        forall|x: int| status_at(joined(es), x) == status_at(es, x),
    decreases es.len(),
{
    if es.len() > 0 {
        let init = es.drop_last();
        let m = joined(init);
        let e = es.last();
        let r = joined(es);
        assert(ordered(init));
        lemma_joined(init);
        if m.len() > 0 {
            assert(init.last() == es[es.len() - 2]);
            assert(m.last().end() <= e.pos);
        }
        if no_empty(es) {
            assert(no_empty(init));
        }
        assert forall|i: int| 0 <= i < m.len() implies (#[trigger] m[i]).end() <= e.pos by {
            if i < m.len() - 1 {
                assert(m[i].end() <= m[m.len() - 1].pos);
            }
        }
        if m.len() > 0 && joinable(m.last(), e) {
            let head = m.drop_last();
            let big = r.last();
            assert(big.end() == e.end());
            assert(r.drop_last() =~= head);
            assert(ordered(r)) by {
                assert forall|i: int| 0 <= i < r.len() implies (#[trigger] r[i]).end() <= u64::MAX by {
                    if i < head.len() {
                        assert(r[i] == m[i]);
                    }
                }
                assert forall|i: int, j: int| 0 <= i < j < r.len() implies (#[trigger] r[i]).end()
                    <= (#[trigger] r[j]).pos by {
                    assert(r[i] == m[i]);
                    if j < head.len() {
                        assert(r[j] == m[j]);
                    } else {
                        assert(r[j].pos == m.last().pos);
                        assert(m[i].end() <= m[m.len() - 1].pos);
                    }
                }
            }
            assert(maximal_runs(r)) by {
                assert forall|i: int, j: int| 0 <= i && j == i + 1 && j < r.len() implies !joinable(#[trigger] r[i], #[trigger] r[j]) by {
                    assert(r[i] == m[i]);
                    assert(!joinable(m[i], m[i + 1]));
                    if i + 1 < head.len() {
                        assert(r[i + 1] == m[i + 1]);
                    }
                }
            }
            if no_empty(es) {
                assert forall|i: int| 0 <= i < r.len() implies (#[trigger] r[i]).size > 0 by {
                    if i < head.len() {
                        assert(r[i] == m[i]);
                    }
                }
            }
            assert forall|s: SectorStatus| bytes_with(r, s) == bytes_with(es, s) by {
                assert(bytes_with(m, s) == bytes_with(init, s));
            }
            assert forall|x: int| status_at(r, x) == status_at(es, x) by {
                assert(status_at(m, x) == status_at(init, x));
            }
        } else {
            assert(r.drop_last() =~= m);
            assert(ordered(r)) by {
                assert forall|i: int| 0 <= i < r.len() implies (#[trigger] r[i]).end() <= u64::MAX by {
                    if i < m.len() {
                        assert(r[i] == m[i]);
                    }
                }
                assert forall|i: int, j: int| 0 <= i < j < r.len() implies (#[trigger] r[i]).end()
                    <= (#[trigger] r[j]).pos by {
                    assert(r[i] == m[i]);
                    if j < m.len() {
                        assert(r[j] == m[j]);
                    }
                }
            }
            assert(maximal_runs(r)) by {
                assert forall|i: int, j: int| 0 <= i && j == i + 1 && j < r.len() implies !joinable(#[trigger] r[i], #[trigger] r[j]) by {
                    assert(r[i] == m[i]);
                    if i + 1 < m.len() {
                        assert(!joinable(m[i], m[i + 1]));
                        assert(r[i + 1] == m[i + 1]);
                    }
                }
            }
            if no_empty(es) {
                assert forall|i: int| 0 <= i < r.len() implies (#[trigger] r[i]).size > 0 by {
                    if i < m.len() {
                        assert(r[i] == m[i]);
                    }
                }
            }
            assert forall|s: SectorStatus| bytes_with(r, s) == bytes_with(es, s) by {
                assert(bytes_with(m, s) == bytes_with(init, s));
            }
            assert forall|x: int| status_at(r, x) == status_at(es, x) by {
                assert(status_at(m, x) == status_at(init, x));
            }
        }
    }
}

pub proof fn lemma_chain_concat(x: Seq<MapEntry>, y: Seq<MapEntry>, a: int, b: int, c: int)
    requires
        chain(x, a, b),
        chain(y, b, c),
    ensures
        chain(x + y, a, c),
{
    let r = x + y;
    if x.len() == 0 {
        assert(r =~= y);
    } else if y.len() == 0 {
        assert(r =~= x);
    } else {
        assert forall|i: int, j: int| 0 <= i && j == i + 1 && j < r.len() implies (#[trigger] r[i]).end() == (#[trigger] r[j]).pos by {
            if i < x.len() - 1 {
                assert(r[i] == x[i] && r[i + 1] == x[i + 1]);
            } else if i == x.len() - 1 {
                assert(r[i] == x.last() && r[i + 1] == y[0]);
            } else {
                assert(r[i] == y[i - x.len()] && r[i + 1] == y[i - x.len() + 1]);
            }
        }
    }
}

proof fn lemma_chain_init(es: Seq<MapEntry>, a: int, b: int)
    requires
        es.len() > 0,
        chain(es, a, b),
    ensures
        chain(es.drop_last(), a, es.last().pos as int),
{
    let init = es.drop_last();
    if init.len() > 0 {
        assert(es[es.len() - 2].end() == es[es.len() - 1].pos);
        assert forall|i: int, j: int| 0 <= i && j == i + 1 && j < init.len() implies (#[trigger] init[i]).end() == (#[trigger] init[j]).pos by {
            assert(es[i].end() == es[i + 1].pos);
        }
    }
}

proof fn lemma_chain_below(es: Seq<MapEntry>, pos: u64, t: int)
    requires
        chain(es, 0, t),
    ensures
        chain(below(es, pos), 0, if pos <= t { pos as int } else { t }),
    decreases es.len(),
{
    if es.len() > 0 {
        let l = es.last();
        let init = es.drop_last();
        lemma_chain_init(es, 0, t);
        lemma_chain_below(init, pos, l.pos as int);
        let p = part_below(l, pos);
        let mid = if pos <= l.pos { pos as int } else { l.pos as int };
        let end = if pos <= t { pos as int } else { t };
        assert(chain(p, mid, end));
        lemma_chain_concat(below(init, pos), p, 0, mid, end);
    }
}

proof fn lemma_chain_above(es: Seq<MapEntry>, end: u64, t: int)
    requires
        chain(es, 0, t),
        ordered(es),
    ensures
        end <= t ==> chain(above(es, end), end as int, t),
        end > t ==> above(es, end).len() == 0,
    decreases es.len(),
{
    if es.len() > 0 {
        let l = es.last();
        let init = es.drop_last();
        lemma_chain_init(es, 0, t);
        assert(ordered(init));
        lemma_chain_above(init, end, l.pos as int);
        let p = part_above(l, end);
        if end <= l.pos {
            assert(chain(p, l.pos as int, t));
            lemma_chain_concat(above(init, end), p, end as int, l.pos as int, t);
        } else {
            assert(above(es, end) =~= p);
        }
    }
}

proof fn lemma_chain_joined(es: Seq<MapEntry>, a: int, b: int)
    requires
        ordered(es),
        chain(es, a, b),
    ensures
        chain(joined(es), a, b),
    decreases es.len(),
{
    if es.len() > 0 {
        let init = es.drop_last();
        let e = es.last();
        let m = joined(init);
        let r = joined(es);
        lemma_chain_init(es, a, b);
        assert(ordered(init));
        lemma_chain_joined(init, a, e.pos as int);
        lemma_joined(es);
        lemma_joined(init);
        if m.len() > 0 && joinable(m.last(), e) {
            assert forall|i: int, j: int| 0 <= i && j == i + 1 && j < r.len() implies (#[trigger] r[i]).end() == (#[trigger] r[j]).pos by {
                assert(r[i] == m[i]);
                assert(m[i].end() == m[i + 1].pos);
                if i + 1 < m.len() - 1 {
                    assert(r[i + 1] == m[i + 1]);
                }
            }
        } else {
            assert forall|i: int, j: int| 0 <= i && j == i + 1 && j < r.len() implies (#[trigger] r[i]).end() == (#[trigger] r[j]).pos by {
                assert(r[i] == m[i]);
                if i + 1 < m.len() {
                    assert(m[i].end() == m[i + 1].pos);
                    assert(r[i + 1] == m[i + 1]);
                }
            }
        }
    }
}

proof fn lemma_no_empty_parts(es: Seq<MapEntry>, at: u64)
    requires
        ordered(es),
        no_empty(es),
    ensures
        no_empty(below(es, at)),
        no_empty(above(es, at)),
    decreases es.len(),
{
    if es.len() > 0 {
        let init = es.drop_last();
        assert(ordered(init));
        assert(no_empty(init));
        assert(es.last().size > 0);
        lemma_no_empty_parts(init, at);
        let b = below(es, at);
        assert forall|i: int| 0 <= i < b.len() implies (#[trigger] b[i]).size > 0 by {
            if i < below(init, at).len() {
                assert(b[i] == below(init, at)[i]);
            } else {
                assert(b[i] == part_below(es.last(), at)[0]);
            }
        }
        let f = above(es, at);
        assert forall|i: int| 0 <= i < f.len() implies (#[trigger] f[i]).size > 0 by {
            if i < above(init, at).len() {
                assert(f[i] == above(init, at)[i]);
            } else {
                assert(f[i] == part_above(es.last(), at)[0]);
            }
        }
    }
}

/// The bytes of an ordered list fit below its end.
pub proof fn lemma_bytes_bound(es: Seq<MapEntry>)
    requires
        ordered(es),
    ensures
        bytes_in(es) <= if es.len() == 0 {
            0
        } else {
            es.last().end()
        },
        bytes_in(es) == bytes_with(es, SectorStatus::Finished) + bytes_with(
            es,
            SectorStatus::Unreadable,
        ) + bytes_with(es, SectorStatus::NonTried) + bytes_with(es, SectorStatus::NonTrimmed)
            + bytes_with(es, SectorStatus::NonScraped),
    decreases es.len(),
{
    if es.len() > 0 {
        let init = es.drop_last();
        assert(ordered(init));
        lemma_bytes_bound(init);
        if init.len() > 0 {
            assert(init.last() == es[es.len() - 2]);
        }
    }
}

/// The bytes of a chain are the distance it spans.
pub proof fn lemma_chain_bytes(es: Seq<MapEntry>, a: int, b: int)
    requires
        chain(es, a, b),
    ensures
        bytes_in(es) == b - a,
    decreases es.len(),
{
    if es.len() > 0 {
        lemma_chain_init(es, a, b);
        lemma_chain_bytes(es.drop_last(), a, es.last().pos as int);
    }
}

pub proof fn lemma_cut_len(es: Seq<MapEntry>, e: MapEntry)
    requires
        ordered(es),
        0 < e.size,
        e.end() <= u64::MAX,
    ensures
        below(es, e.pos).len() + above(es, e.end() as u64).len() <= es.len() + 1,
        es.len() == 0 || es.last().end() <= e.end() ==> below(es, e.pos).len() + above(
            es,
            e.end() as u64,
        ).len() <= es.len(),
    decreases es.len(),
{
    if es.len() > 0 {
        let init = es.drop_last();
        assert(ordered(init));
        lemma_cut_len(init, e);
        if init.len() > 0 {
            assert(init.last() == es[es.len() - 2]);
            assert(init.last().end() <= es.last().pos);
        }
    }
}

/// What recording a range does to a list of entries: the bytes of the range
/// take the new status, every other byte keeps its own, and the list stays
/// ordered and joined.
pub proof fn lemma_recorded(es: Seq<MapEntry>, e: MapEntry)
    requires
        ordered(es),
        0 < e.size,
        e.end() <= u64::MAX,
    ensures
        ordered(recorded(es, e)),
        maximal_runs(recorded(es, e)),
        no_empty(es) ==> no_empty(recorded(es, e)),
        recorded(es, e).len() <= es.len() + 2,
        forall|x: int|
            #![trigger status_at(recorded(es, e), x)]
            status_at(recorded(es, e), x) == if e.covers(x) {
                Some(e.status)
            } else {
                status_at(es, x)
            },
        forall|total: int|
            #![trigger partitions(es, total)]
            partitions(es, total) && e.end() <= total ==> partitions(recorded(es, e), total),
{
    let cut = replaced(es, e);
    let b = below(es, e.pos);
    let f = above(es, e.end() as u64);
    lemma_replaced_ordered(es, e);
    lemma_joined(cut);
    lemma_cut_len(es, e);
    assert(cut.len() > 0);
    if no_empty(es) {
        lemma_no_empty_parts(es, e.pos);
        lemma_no_empty_parts(es, e.end() as u64);
        assert forall|i: int| 0 <= i < cut.len() implies (#[trigger] cut[i]).size > 0 by {
            if i < b.len() {
                assert(cut[i] == b[i]);
            } else if i == b.len() {
                assert(cut[i] == e);
            } else {
                assert(cut[i] == f[i - b.len() - 1]);
            }
        }
    }
    assert forall|x: int|
        #![trigger status_at(recorded(es, e), x)]
        status_at(recorded(es, e), x) == if e.covers(x) {
            Some(e.status)
        } else {
            status_at(es, x)
        } by {
        assert(status_at(joined(cut), x) == status_at(cut, x));
        lemma_status_at_concat(b.push(e), f, x);
        assert(b.push(e).drop_last() =~= b);
        lemma_status_at_below(es, e.pos, x);
        lemma_status_at_above(es, e.end() as u64, x);
    }
    assert forall|total: int|
        #![trigger partitions(es, total)]
        partitions(es, total) && e.end() <= total implies partitions(recorded(es, e), total) by {
        lemma_chain_below(es, e.pos, total);
        lemma_chain_above(es, e.end() as u64, total);
        assert(chain(seq![e], e.pos as int, e.end()));
        lemma_chain_concat(b, seq![e], 0, e.pos as int, e.end());
        lemma_chain_concat(b + seq![e], f, 0, e.end(), total);
        assert(b + seq![e] =~= b.push(e));
        lemma_chain_joined(cut, 0, total);
    }
}

/// Two ordered lists without empty entries and without joinable neighbours
/// that give every byte the same status are the same list. So the entries are
/// the only shortest account of what they say.
pub proof fn law_canonical_list_is_unique(a: Seq<MapEntry>, b: Seq<MapEntry>)
    requires
        ordered(a) && no_empty(a) && maximal_runs(a),
        ordered(b) && no_empty(b) && maximal_runs(b),
        forall|x: int| status_at(a, x) == status_at(b, x),
    ensures
        a == b,
    decreases a.len() + b.len(),
{
    if a.len() == 0 && b.len() == 0 {
        assert(a =~= b);
    } else if a.len() == 0 {
        assert(b.last().covers(b.last().pos as int));
        assert(status_at(a, b.last().pos as int) == status_at(b, b.last().pos as int));
    } else if b.len() == 0 {
        assert(a.last().covers(a.last().pos as int));
        assert(status_at(a, a.last().pos as int) == status_at(b, a.last().pos as int));
    } else {
        let la = a.last();
        let lb = b.last();
        lemma_last_entries_agree(a, b);
        lemma_last_entries_agree(b, a);
        let ia = a.drop_last();
        let ib = b.drop_last();
        assert(la == lb);
        assert(ordered(ia) && ordered(ib));
        assert(no_empty(ia) && no_empty(ib));
        assert(maximal_runs(ia)) by {
            assert forall|i: int, j: int| 0 <= i && j == i + 1 && j < ia.len() implies !joinable(#[trigger] ia[i], #[trigger] ia[j]) by {
                assert(!joinable(a[i], a[i + 1]));
            }
        }
        assert(maximal_runs(ib)) by {
            assert forall|i: int, j: int| 0 <= i && j == i + 1 && j < ib.len() implies !joinable(#[trigger] ib[i], #[trigger] ib[j]) by {
                assert(!joinable(b[i], b[i + 1]));
            }
        }
        assert forall|x: int| status_at(ia, x) == status_at(ib, x) by {
            assert(status_at(a, x) == status_at(b, x));
            lemma_status_at_bounded(ia, x, la.pos as int);
            lemma_status_at_bounded(ib, x, la.pos as int);
        }
        law_canonical_list_is_unique(ia, ib);
        assert(a =~= ia.push(la));
        assert(b =~= ib.push(lb));
    }
}

/// No byte at or beyond the end of every entry has a status.
proof fn lemma_status_at_bounded(es: Seq<MapEntry>, x: int, end: int)
    requires
        forall|i: int| 0 <= i < es.len() ==> (#[trigger] es[i]).end() <= end,
    ensures
        x >= end ==> status_at(es, x) is None,
    decreases es.len(),
{
    if es.len() > 0 {
        assert(es.last() == es[es.len() - 1]);
        assert forall|i: int| 0 <= i < es.drop_last().len() implies (#[trigger] es.drop_last()[i]).end()
            <= end by {
            assert(es.drop_last()[i] == es[i]);
        }
        lemma_status_at_bounded(es.drop_last(), x, end);
    }
}

/// Canonical lists with one meaning end in the same place, and the last entry
/// of the one does not begin below that of the other.
proof fn lemma_last_entries_agree(a: Seq<MapEntry>, b: Seq<MapEntry>)
    requires
        a.len() > 0,
        b.len() > 0,
        ordered(a) && no_empty(a) && maximal_runs(a),
        ordered(b) && no_empty(b) && maximal_runs(b),
        forall|x: int| status_at(a, x) == status_at(b, x),
    ensures
        a.last().end() == b.last().end(),
        a.last().status == b.last().status,
        a.last().pos >= b.last().pos,
{
    let la = a.last();
    let lb = b.last();
    assert forall|i: int| 0 <= i < a.len() implies (#[trigger] a[i]).end() <= la.end() by {
        if i < a.len() - 1 {
            assert(a[i].end() <= a[a.len() - 1].pos);
        }
    }
    assert forall|i: int| 0 <= i < b.len() implies (#[trigger] b[i]).end() <= lb.end() by {
        if i < b.len() - 1 {
            assert(b[i].end() <= b[b.len() - 1].pos);
        }
    }
    assert(la.size > 0 && lb.size > 0);
    let ta = la.end() - 1;
    let tb = lb.end() - 1;
    assert(la.covers(ta) && lb.covers(tb));
    assert(status_at(a, ta) == status_at(b, ta));
    assert(status_at(a, tb) == status_at(b, tb));
    lemma_status_at_bounded(a, tb, la.end());
    lemma_status_at_bounded(b, ta, lb.end());
    assert(la.end() == lb.end());
    if la.pos < lb.pos {
        let x = lb.pos - 1;
        assert(la.covers(x));
        assert(status_at(a, x) == status_at(b, x));
        assert(!lb.covers(x));
        let ib = b.drop_last();
        assert(status_at(ib, x) == Some(la.status));
        if ib.len() > 0 {
            let p = ib.last();
            assert(p == b[b.len() - 2]);
            assert(!joinable(b[b.len() - 2], b[b.len() - 1]));
            assert(p.end() <= lb.pos);
            if p.covers(x) {
                assert(joinable(p, lb));
            } else {
                let iib = ib.drop_last();
                assert(p.end() <= x);
                assert forall|i: int| 0 <= i < iib.len() implies (#[trigger] iib[i]).end() <= x by {
                    assert(b[i].end() <= b[b.len() - 2].pos);
                }
                lemma_status_at_bounded(iib, x, x);
            }
        }
    }
}

/// Recording over bytes that all have the status already changes nothing: the
/// list cannot be fragmented by repeating what it says.
pub proof fn law_repeated_record_changes_nothing(es: Seq<MapEntry>, e: MapEntry)
    requires
        ordered(es) && no_empty(es) && maximal_runs(es),
        0 < e.size,
        e.end() <= u64::MAX,
        forall|x: int| e.covers(x) ==> #[trigger] status_at(es, x) == Some(e.status),
    ensures
        recorded(es, e) == es,
{
    lemma_recorded(es, e);
    assert forall|x: int| status_at(recorded(es, e), x) == status_at(es, x) by {
        if e.covers(x) {
            assert(status_at(es, x) == Some(e.status));
        }
    }
    law_canonical_list_is_unique(recorded(es, e), es);
}

/// Two records of disjoint ranges can be made in either order.
pub proof fn law_disjoint_records_commute(es: Seq<MapEntry>, e: MapEntry, f: MapEntry)
    requires
        ordered(es) && no_empty(es),
        0 < e.size && e.end() <= u64::MAX,
        0 < f.size && f.end() <= u64::MAX,
        e.end() <= f.pos || f.end() <= e.pos,
    ensures
        recorded(recorded(es, e), f) == recorded(recorded(es, f), e),
{
    lemma_recorded(es, e);
    lemma_recorded(es, f);
    lemma_recorded(recorded(es, e), f);
    lemma_recorded(recorded(es, f), e);
    assert forall|x: int| status_at(recorded(recorded(es, e), f), x) == status_at(
        recorded(recorded(es, f), e),
        x,
    ) by {
        assert(status_at(recorded(es, e), x) == if e.covers(x) {
            Some(e.status)
        } else {
            status_at(es, x)
        });
        assert(status_at(recorded(es, f), x) == if f.covers(x) {
            Some(f.status)
        } else {
            status_at(es, x)
        });
    }
    law_canonical_list_is_unique(
        recorded(recorded(es, e), f),
        recorded(recorded(es, f), e),
    );
}

/// A later record of a range that covers an earlier one leaves no trace of it.
pub proof fn law_later_record_wins(es: Seq<MapEntry>, e: MapEntry, f: MapEntry)
    requires
        ordered(es) && no_empty(es),
        0 < e.size && e.end() <= u64::MAX,
        0 < f.size && f.end() <= u64::MAX,
        f.pos <= e.pos && e.end() <= f.end(),
    ensures
        recorded(recorded(es, e), f) == recorded(es, f),
{
    lemma_recorded(es, e);
    lemma_recorded(es, f);
    lemma_recorded(recorded(es, e), f);
    assert forall|x: int| status_at(recorded(recorded(es, e), f), x) == status_at(
        recorded(es, f),
        x,
    ) by {
        assert(status_at(recorded(es, e), x) == if e.covers(x) {
            Some(e.status)
        } else {
            status_at(es, x)
        });
    }
    law_canonical_list_is_unique(recorded(recorded(es, e), f), recorded(es, f));
}

/// The entries after a number of ranges have been recorded, one after another.
pub open spec fn all_recorded(es: Seq<MapEntry>, rs: Seq<MapEntry>) -> Seq<MapEntry>
    decreases rs.len(),
{
    if rs.len() == 0 {
        es
    } else {
        recorded(all_recorded(es, rs.drop_last()), rs.last())
    }
}

/// Recorded one after another, ranges leave the entries in order, and each byte
/// with the status of the last range over it.
pub proof fn lemma_all_recorded(es: Seq<MapEntry>, rs: Seq<MapEntry>)
    requires
        ordered(es),
        forall|i: int|
            0 <= i < rs.len() ==> (#[trigger] rs[i]).size > 0 && rs[i].end() <= u64::MAX,
    ensures
        ordered(all_recorded(es, rs)),
        rs.len() > 0 ==> maximal_runs(all_recorded(es, rs)),
        no_empty(es) ==> no_empty(all_recorded(es, rs)),
        forall|x: int|
            #![trigger status_at(all_recorded(es, rs), x)]
            status_at(all_recorded(es, rs), x) == if status_at(rs, x) is Some {
                status_at(rs, x)
            } else {
                status_at(es, x)
            },
    decreases rs.len(),
{
    if rs.len() > 0 {
        let init = rs.drop_last();
        assert forall|i: int| 0 <= i < init.len() implies (#[trigger] init[i]).size > 0
            && init[i].end() <= u64::MAX by {
            assert(init[i] == rs[i]);
        }
        assert(rs.last() == rs[rs.len() - 1]);
        lemma_all_recorded(es, init);
        lemma_recorded(all_recorded(es, init), rs.last());
        assert forall|x: int|
            #![trigger status_at(all_recorded(es, rs), x)]
            status_at(all_recorded(es, rs), x) == if status_at(rs, x) is Some {
                status_at(rs, x)
            } else {
                status_at(es, x)
            } by {
            assert(status_at(recorded(all_recorded(es, init), rs.last()), x) == if rs.last().covers(
                x,
            ) {
                Some(rs.last().status)
            } else {
                status_at(all_recorded(es, init), x)
            });
        }
    }
}

/// However many ranges of a disc are recorded, the entries stay in order and
/// cover the disc without a gap; once anything was recorded, no entry could be
/// joined with the next; and the status of a byte is that of the last range
/// recorded over it.
pub proof fn law_records_keep_the_partition(es: Seq<MapEntry>, rs: Seq<MapEntry>, total: int)
    requires
        ordered(es),
        no_empty(es),
        partitions(es, total),
        forall|i: int|
            0 <= i < rs.len() ==> (#[trigger] rs[i]).size > 0 && rs[i].end() <= total && rs[i].end()
                <= u64::MAX,
    ensures
        ordered(all_recorded(es, rs)),
        no_empty(all_recorded(es, rs)),
        partitions(all_recorded(es, rs), total),
        rs.len() > 0 ==> maximal_runs(all_recorded(es, rs)),
        forall|x: int|
            #![trigger status_at(all_recorded(es, rs), x)]
            status_at(all_recorded(es, rs), x) == if status_at(rs, x) is Some {
                status_at(rs, x)
            } else {
                status_at(es, x)
            },
    decreases rs.len(),
{
    lemma_all_recorded(es, rs);
    if rs.len() > 0 {
        let init = rs.drop_last();
        assert forall|i: int| 0 <= i < init.len() implies (#[trigger] init[i]).size > 0
            && init[i].end() <= total && init[i].end() <= u64::MAX by {
            assert(init[i] == rs[i]);
        }
        assert(rs.last() == rs[rs.len() - 1]);
        law_records_keep_the_partition(es, init, total);
        lemma_recorded(all_recorded(es, init), rs.last());
        assert(partitions(all_recorded(es, init), total));
    }
}

} // verus!
