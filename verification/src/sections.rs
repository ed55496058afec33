//! The still-bad parts of one damaged section.

use vstd::prelude::*;

verus! {

/// The first byte after a range.
pub open spec fn range_end(r: (u64, u64)) -> int {
    r.0 + r.1
}

/// Whether a byte lies in a range.
pub open spec fn range_has(r: (u64, u64), x: int) -> bool {
    r.0 <= x < range_end(r)
}

/// Ranges in order that share no byte, none of them empty, all of them within
/// the address space.
pub open spec fn apart(rs: Seq<(u64, u64)>) -> bool {
    &&& forall|i: int| 0 <= i < rs.len() ==> (#[trigger] rs[i]).1 > 0 && range_end(rs[i]) <= u64::MAX
    &&& forall|i: int, j: int|
        0 <= i < j < rs.len() ==> range_end(#[trigger] rs[i]) <= (#[trigger] rs[j]).0
}

/// Whether a byte lies in any of some ranges.
pub open spec fn any_has(rs: Seq<(u64, u64)>, x: int) -> bool {
    exists|i: int| 0 <= i < rs.len() && range_has(#[trigger] rs[i], x)
}

/// How many bytes some ranges hold.
pub open spec fn sum_len(rs: Seq<(u64, u64)>) -> nat
    decreases rs.len(),
{
    if rs.len() == 0 {
        0
    } else {
        sum_len(rs.drop_last()) + rs.last().1 as nat
    }
}

/// What is left of a range once `[pos, end)` is taken out.
pub open spec fn left_over(r: (u64, u64), pos: u64, end: u64) -> Seq<(u64, u64)> {
    if end <= r.0 || pos >= range_end(r) {
        seq![r]
    } else {
        let low = if pos > r.0 {
            seq![(r.0, (pos - r.0) as u64)]
        } else {
            seq![]
        };
        let high = if end < range_end(r) {
            seq![(end, (range_end(r) - end) as u64)]
        } else {
            seq![]
        };
        low + high
    }
}

/// What is left of some ranges once `[pos, end)` is taken out.
pub open spec fn all_left_over(rs: Seq<(u64, u64)>, pos: u64, end: u64) -> Seq<(u64, u64)>
    decreases rs.len(),
{
    if rs.len() == 0 {
        seq![]
    } else {
        all_left_over(rs.drop_last(), pos, end) + left_over(rs.last(), pos, end)
    }
}

proof fn lemma_any_has_concat(a: Seq<(u64, u64)>, b: Seq<(u64, u64)>, x: int)
    ensures
        any_has(a + b, x) <==> any_has(a, x) || any_has(b, x),
{
    let c = a + b;
    if any_has(a, x) {
        let i = choose|i: int| 0 <= i < a.len() && range_has(#[trigger] a[i], x);
        assert(c[i] == a[i]);
    }
    if any_has(b, x) {
        let i = choose|i: int| 0 <= i < b.len() && range_has(#[trigger] b[i], x);
        assert(c[a.len() + i] == b[i]);
    }
    if any_has(c, x) {
        let i = choose|i: int| 0 <= i < c.len() && range_has(#[trigger] c[i], x);
        if i < a.len() {
            assert(a[i] == c[i]);
        } else {
            assert(b[i - a.len()] == c[i]);
        }
    }
}

proof fn lemma_left_over(r: (u64, u64), pos: u64, end: u64)
    requires
        r.1 > 0,
        range_end(r) <= u64::MAX,
        pos < end,
    ensures
        apart(left_over(r, pos, end)),
        forall|i: int|
            0 <= i < left_over(r, pos, end).len() ==> r.0 <= (#[trigger] left_over(
                r,
                pos,
                end,
            )[i]).0 && range_end(left_over(r, pos, end)[i]) <= range_end(r),
        forall|x: int|
            #![trigger any_has(left_over(r, pos, end), x)]
            any_has(left_over(r, pos, end), x) <==> range_has(r, x) && !(pos <= x < end),
{
    let l = left_over(r, pos, end);
    assert forall|x: int| #![trigger any_has(l, x)] any_has(l, x) <==> range_has(r, x) && !(pos <= x
        < end) by {
        if range_has(r, x) && !(pos <= x < end) {
            if x < pos {
                assert(range_has(l[0], x));
            } else {
                assert(range_has(l[l.len() - 1], x));
            }
        }
    }
}

/// Taking a range out of ranges leaves exactly their other bytes, in order.
pub proof fn lemma_all_left_over(rs: Seq<(u64, u64)>, pos: u64, end: u64)
    requires
        apart(rs),
        pos < end,
    ensures
        apart(all_left_over(rs, pos, end)),
        forall|i: int|
            0 <= i < all_left_over(rs, pos, end).len() ==> rs.len() > 0 && range_end(
                #[trigger] all_left_over(rs, pos, end)[i],
            ) <= range_end(rs.last()),
        forall|x: int|
            #![trigger any_has(all_left_over(rs, pos, end), x)]
            any_has(all_left_over(rs, pos, end), x) <==> any_has(rs, x) && !(pos <= x < end),
    decreases rs.len(),
{
    if rs.len() > 0 {
        let init = rs.drop_last();
        let last = rs.last();
        assert(apart(init));
        lemma_all_left_over(init, pos, end);
        lemma_left_over(last, pos, end);
        let a = all_left_over(init, pos, end);
        let b = left_over(last, pos, end);
        let r = all_left_over(rs, pos, end);
        assert forall|i: int| 0 <= i < a.len() implies range_end(#[trigger] a[i]) <= last.0 by {
            assert(init.last() == rs[rs.len() - 2]);
        }
        assert forall|i: int| 0 <= i < r.len() implies (#[trigger] r[i]).1 > 0 && range_end(r[i])
            <= u64::MAX && range_end(r[i]) <= range_end(last) by {
            if i < a.len() {
                assert(r[i] == a[i]);
            } else {
                assert(r[i] == b[i - a.len()]);
            }
        }
        assert forall|i: int, j: int| 0 <= i < j < r.len() implies range_end(#[trigger] r[i]) <= (
        #[trigger] r[j]).0 by {
            if j < a.len() {
                assert(r[i] == a[i] && r[j] == a[j]);
            } else if i < a.len() {
                assert(r[i] == a[i] && r[j] == b[j - a.len()]);
            } else {
                assert(r[i] == b[i - a.len()] && r[j] == b[j - a.len()]);
            }
        }
        assert forall|x: int| #![trigger any_has(r, x)] any_has(r, x) <==> any_has(rs, x) && !(pos <= x < end) by {
            lemma_any_has_concat(a, b, x);
            lemma_any_has_concat(init, seq![last], x);
            assert(init + seq![last] =~= rs);
            assert(any_has(seq![last], x) <==> range_has(last, x)) by {
                if range_has(last, x) {
                    assert(range_has(seq![last][0], x));
                }
            }
        }
    } else {
        assert forall|x: int| #![trigger any_has(all_left_over(rs, pos, end), x)] any_has(all_left_over(rs, pos, end), x) <==> any_has(rs, x) && !(pos
            <= x < end) by {}
    }
}

/// The bytes of ranges that share none fit below the end of the last.
pub proof fn lemma_sum_len_bound(rs: Seq<(u64, u64)>)
    requires
        apart(rs),
    ensures
        sum_len(rs) <= if rs.len() == 0 {
            0
        } else {
            range_end(rs.last())
        },
    decreases rs.len(),
{
    if rs.len() > 0 {
        let init = rs.drop_last();
        assert(apart(init));
        lemma_sum_len_bound(init);
        if init.len() > 0 {
            assert(init.last() == rs[rs.len() - 2]);
        }
    }
}

/// The still-bad ranges of one damaged section, in order and apart. Recovery
/// takes out what it reads; what remains is recorded for a later pass.
#[derive(Debug, Clone, PartialEq, Eq)]
pub struct SubRanges {
    ranges: Vec<(u64, u64)>,
}

impl View for SubRanges {
    type V = Seq<(u64, u64)>;

    closed spec fn view(&self) -> Seq<(u64, u64)> {
        self.ranges@
    }
}

impl Default for SubRanges {
    fn default() -> (r: SubRanges)
        ensures
            r@ == Seq::<(u64, u64)>::empty(),
            r.wf(),
    {
        SubRanges { ranges: Vec::new() }
    }
}

impl SubRanges {
    /// In order, apart, none empty.
    pub open spec fn wf(&self) -> bool {
        apart(self@)
    }

    /// One whole damaged section.
    pub fn from_section(pos: u64, len: u64) -> (r: SubRanges)
        ensures
            pos + len <= u64::MAX ==> r.wf(),
            r@ == if len == 0 {
                Seq::<(u64, u64)>::empty()
            } else {
                seq![(pos, len)]
            },
    {
        let mut ranges: Vec<(u64, u64)> = Vec::new();
        if len > 0 {
            ranges.push((pos, len));
        }
        assert(len > 0 ==> ranges@ =~= seq![(pos, len)]);
        SubRanges { ranges }
    }

    /// Whether nothing is bad any more.
    pub fn is_empty(&self) -> (r: bool)
        ensures
            r <==> self@.len() == 0,
    {
        self.ranges.len() == 0
    }

    /// How many bytes are still bad.
    pub fn total_len(&self) -> (r: u64)
        requires
            self.wf(),
        ensures
            r == sum_len(self@),
    {
        let mut total: u64 = 0;
        let mut i: usize = 0;
        assert(self.ranges@.take(0) =~= seq![]);
        while i < self.ranges.len()
            invariant
                i <= self.ranges@.len(),
                apart(self.ranges@),
                total == sum_len(self.ranges@.take(i as int)),
            decreases self.ranges@.len() - i,
        {
            let ghost next = self.ranges@.take(i + 1);
            assert(next.drop_last() =~= self.ranges@.take(i as int));
            assert(apart(next));
            proof {
                lemma_sum_len_bound(next);
            }
            total = total + self.ranges[i].1;
            i = i + 1;
        }
        assert(self.ranges@.take(i as int) =~= self.ranges@);
        total
    }

    /// The ranges that are still bad.
    pub fn ranges(&self) -> (r: &[(u64, u64)])
        ensures
            r@ == self@,
    {
        self.ranges.as_slice()
    }

    /// Take the recovered bytes `[pos, pos + len)` out of the bad set.
    pub fn remove(&mut self, pos: u64, len: u64)
        requires
            old(self).wf(),
            pos + len <= u64::MAX,
        ensures
            final(self).wf(),
            final(self)@ == if len == 0 {
                old(self)@
            } else {
                all_left_over(old(self)@, pos, (pos + len) as u64)
            },
            forall|x: int|
                #![trigger any_has(final(self)@, x)]
                any_has(final(self)@, x) <==> any_has(old(self)@, x) && !(pos <= x < pos + len),
    {
        if len == 0 {
            return ;
        }
        let end: u64 = pos + len;
        let mut out: Vec<(u64, u64)> = Vec::new();
        let mut i: usize = 0;
        assert(self.ranges@.take(0) =~= seq![]);
        while i < self.ranges.len()
            invariant
                i <= self.ranges@.len(),
                apart(self.ranges@),
                pos < end,
                out@ == all_left_over(self.ranges@.take(i as int), pos, end),
            decreases self.ranges@.len() - i,
        {
            let (rp, rl) = self.ranges[i];
            assert(self.ranges@.take(i + 1).drop_last() =~= self.ranges@.take(i as int));
            let re: u64 = rp + rl;
            if end <= rp || pos >= re {
                out.push((rp, rl));
            } else {
                if pos > rp {
                    out.push((rp, pos - rp));
                }
                if end < re {
                    out.push((end, re - end));
                }
            }
            assert(out@ =~= all_left_over(self.ranges@.take(i as int), pos, end) + left_over(
                (rp, rl),
                pos,
                end,
            ));
            i = i + 1;
        }
        assert(self.ranges@.take(i as int) =~= self.ranges@);
        proof {
            lemma_all_left_over(self.ranges@, pos, end);
        }
        self.ranges = out;
    }
}

/// Two recoveries can come in either order: the same bytes are left.
pub proof fn law_removals_commute(
    rs: Seq<(u64, u64)>,
    a: u64,
    a_end: u64,
    b: u64,
    b_end: u64,
    x: int,
)
    requires
        apart(rs),
        a < a_end,
        b < b_end,
    ensures
        any_has(all_left_over(all_left_over(rs, a, a_end), b, b_end), x) == any_has(
            all_left_over(all_left_over(rs, b, b_end), a, a_end),
            x,
        ),
{
    lemma_all_left_over(rs, a, a_end);
    lemma_all_left_over(rs, b, b_end);
    lemma_all_left_over(all_left_over(rs, a, a_end), b, b_end);
    lemma_all_left_over(all_left_over(rs, b, b_end), a, a_end);
    assert(any_has(all_left_over(rs, a, a_end), x) <==> any_has(rs, x) && !(a <= x < a_end));
    assert(any_has(all_left_over(rs, b, b_end), x) <==> any_has(rs, x) && !(b <= x < b_end));
}

/// A recovery that covers a section leaves none of it bad.
pub proof fn law_covering_removal_empties(pos: u64, len: u64, at: u64, end: u64)
    requires
        len > 0,
        pos + len <= u64::MAX,
        at <= pos,
        pos + len <= end,
    ensures
        all_left_over(seq![(pos, len)], at, end).len() == 0,
{
    let rs = seq![(pos, len)];
    assert(rs.drop_last().len() == 0);
    assert(all_left_over(rs.drop_last(), at, end).len() == 0);
}

/// What ranges hold: each its bytes from its first on, as many as its length.
pub proof fn law_what_ranges_hold(rs: Seq<(u64, u64)>, r: (u64, u64), x: int)
    ensures
        any_has(rs.push(r), x) <==> any_has(rs, x) || r.0 <= x < r.0 + r.1,
        !any_has(Seq::<(u64, u64)>::empty(), x),
        sum_len(rs.push(r)) == sum_len(rs) + r.1,
        sum_len(Seq::<(u64, u64)>::empty()) == 0,
{
    let all = rs.push(r);
    assert(all.drop_last() =~= rs);
    if any_has(all, x) {
        let i = choose|i: int| 0 <= i < all.len() && range_has(#[trigger] all[i], x);
        if i < rs.len() {
            assert(range_has(rs[i], x));
        }
    }
    if any_has(rs, x) {
        let i = choose|i: int| 0 <= i < rs.len() && range_has(#[trigger] rs[i], x);
        assert(range_has(all[i], x));
    }
    if r.0 <= x < r.0 + r.1 {
        assert(range_has(all[rs.len() as int], x));
    }
}

/// Taking a span out of ranges leaves exactly the bytes outside it.
pub proof fn law_what_taking_a_span_out_leaves(rs: Seq<(u64, u64)>, pos: u64, end: u64, x: int)
    requires
        apart(rs),
        pos < end,
    ensures
        any_has(all_left_over(rs, pos, end), x) <==> any_has(rs, x) && !(pos <= x < end),
        apart(all_left_over(rs, pos, end)),
{
    lemma_all_left_over(rs, pos, end);
}

/// The first of some ranges hold no more than all.
pub proof fn lemma_sum_len_grows(rs: Seq<(u64, u64)>, k: int)
    requires
        0 <= k <= rs.len(),
    ensures
        sum_len(rs.take(k)) <= sum_len(rs),
    decreases rs.len() - k,
{
    if k == rs.len() {
        assert(rs.take(k) =~= rs);
    } else {
        assert(rs.take(k + 1).drop_last() =~= rs.take(k));
        lemma_sum_len_grows(rs, k + 1);
    }
}

/// What is left of some ranges once some spans have been taken out.
pub open spec fn after_removals(rs: Seq<(u64, u64)>, spans: Seq<(u64, u64)>) -> Seq<(u64, u64)>
    decreases spans.len(),
{
    if spans.len() == 0 {
        rs
    } else {
        let before = after_removals(rs, spans.drop_last());
        let s = spans.last();
        if s.1 == 0 {
            before
        } else {
            all_left_over(before, s.0, range_end(s) as u64)
        }
    }
}

/// What is left at the end is exactly what was bad and has not been recovered,
/// in whatever order and however often.
pub proof fn law_residue_is_what_was_not_recovered(
    rs: Seq<(u64, u64)>,
    spans: Seq<(u64, u64)>,
    x: int,
)
    requires
        apart(rs),
        forall|i: int| 0 <= i < spans.len() ==> range_end(#[trigger] spans[i]) <= u64::MAX,
    ensures
        apart(after_removals(rs, spans)),
        any_has(after_removals(rs, spans), x) <==> any_has(rs, x) && !any_has(spans, x),
    decreases spans.len(),
{
    if spans.len() > 0 {
        let init = spans.drop_last();
        let s = spans.last();
        assert forall|i: int| 0 <= i < init.len() implies range_end(#[trigger] init[i])
            <= u64::MAX by {
            assert(init[i] == spans[i]);
        }
        assert(s == spans[spans.len() - 1]);
        law_residue_is_what_was_not_recovered(rs, init, x);
        lemma_any_has_concat(init, seq![s], x);
        assert(init + seq![s] =~= spans);
        assert(any_has(seq![s], x) <==> range_has(s, x)) by {
            if range_has(s, x) {
                assert(range_has(seq![s][0], x));
            }
        }
        if s.1 > 0 {
            lemma_all_left_over(after_removals(rs, init), s.0, range_end(s) as u64);
        }
    } else {
        assert(!any_has(spans, x));
    }
}

} // verus!
