//! Line/column regions of a source file, and the merging of overlapping regions.

use vstd::prelude::*;

verus! {

/// A region of a source file, from a start position to an end position.
/// Lines and columns are counted from 1.
#[derive(Debug, Clone, Copy, PartialEq, Eq, Structural)]
pub struct Span {
    pub start_line: usize,
    pub start_col: usize,
    pub end_line: usize,
    pub end_col: usize,
}

/// Position `(l1, c1)` comes at or before `(l2, c2)`.
pub open spec fn pos_le(l1: int, c1: int, l2: int, c2: int) -> bool {
    l1 < l2 || (l1 == l2 && c1 <= c2)
}

impl Span {
    /// Every coordinate is at least 1 and the start does not come after the end.
    pub open spec fn valid(self) -> bool {
        &&& self.start_line >= 1
        &&& self.start_col >= 1
        &&& self.end_line >= 1
        &&& self.end_col >= 1
        &&& pos_le(self.start_line as int, self.start_col as int, self.end_line as int, self.end_col as int)
    }

    /// Builds a span; `None` when a coordinate is 0 or the start comes after the end.
    pub fn new(start_line: usize, start_col: usize, end_line: usize, end_col: usize) -> (r: Option<Self>)
        ensures
            r == (if (Span { start_line, start_col, end_line, end_col }).valid() {
                Some(Span { start_line, start_col, end_line, end_col })
            } else {
                None
            }),
    {
        if start_line == 0 || start_col == 0 || end_line == 0 || end_col == 0 {
            return None;
        }
        if start_line > end_line || (start_line == end_line && start_col > end_col) {
            return None;
        }
        Some(Span { start_line, start_col, end_line, end_col })
    }

    /// `self` starts at or before `other` and ends at or after it.
    pub open spec fn spec_contains(self, other: Span) -> bool {
        pos_le(self.start_line as int, self.start_col as int, other.start_line as int, other.start_col as int)
            && pos_le(other.end_line as int, other.end_col as int, self.end_line as int, self.end_col as int)
    }

    pub fn contains(&self, other: &Span) -> (r: bool)
        ensures
            r == self.spec_contains(*other),
    {
        let start_le = self.start_line < other.start_line || (self.start_line == other.start_line
            && self.start_col <= other.start_col);
        let end_ge = self.end_line > other.end_line || (self.end_line == other.end_line
            && self.end_col >= other.end_col);
        start_le && end_ge
    }
}


/// Position `(l1, c1)` comes strictly before `(l2, c2)`.
pub open spec fn pos_lt(l1: int, c1: int, l2: int, c2: int) -> bool {
    l1 < l2 || (l1 == l2 && c1 < c2)
}

/// `a` starts at or before `b` starts.
pub open spec fn start_le(a: Span, b: Span) -> bool {
    pos_le(a.start_line as int, a.start_col as int, b.start_line as int, b.start_col as int)
}

/// `next` starts at or before the end of `last`: the two regions overlap or touch.
pub open spec fn touches(last: Span, next: Span) -> bool {
    pos_le(next.start_line as int, next.start_col as int, last.end_line as int, last.end_col as int)
}

/// `a` ends strictly before `b` starts.
pub open spec fn separated(a: Span, b: Span) -> bool {
    pos_lt(a.end_line as int, a.end_col as int, b.start_line as int, b.start_col as int)
}

/// `last`, with its end pushed out to the end of `next` when `next` ends later.
pub open spec fn extend_end(last: Span, next: Span) -> Span {
    if pos_lt(last.end_line as int, last.end_col as int, next.end_line as int, next.end_col as int) {
        Span { end_line: next.end_line, end_col: next.end_col, ..last }
    } else {
        last
    }
}

/// Inserts `x` into `sorted` right after the last element that starts at or before `x`.
pub open spec fn insert_by_start(sorted: Seq<Span>, x: Span) -> Seq<Span>
    decreases sorted.len(),
{
    if sorted.len() == 0 {
        seq![x]
    } else if start_le(sorted.last(), x) {
        sorted.push(x)
    } else {
        insert_by_start(sorted.drop_last(), x).push(sorted.last())
    }
}

/// The stable sort of `s` by start position.
pub open spec fn sort_by_start(s: Seq<Span>) -> Seq<Span>
    decreases s.len(),
{
    if s.len() == 0 {
        seq![]
    } else {
        insert_by_start(sort_by_start(s.drop_last()), s.last())
    }
}

/// Left-to-right sweep: each span either extends the last result (when it touches it)
/// or starts a new one.
pub open spec fn sweep(s: Seq<Span>) -> Seq<Span>
    decreases s.len(),
{
    if s.len() == 0 {
        seq![]
    } else {
        let r = sweep(s.drop_last());
        let x = s.last();
        if r.len() == 0 {
            seq![x]
        } else if touches(r.last(), x) {
            r.drop_last().push(extend_end(r.last(), x))
        } else {
            r.push(x)
        }
    }
}

/// What `Span::merge` returns: the sweep of the spans sorted by start.
pub open spec fn spec_merge(s: Seq<Span>) -> Seq<Span> {
    sweep(sort_by_start(s))
}

/// Every span of `s` is valid.
#[verifier::opaque]
pub open spec fn all_valid(s: Seq<Span>) -> bool {
    forall|i: int| 0 <= i < s.len() ==> #[trigger] s[i].valid()
}

/// `s` is sorted by start position.
pub open spec fn sorted_by_start(s: Seq<Span>) -> bool {
    forall|i: int, j: int| 0 <= i < j < s.len() ==> start_le(#[trigger] s[i], #[trigger] s[j])
}

/// Any two spans of `s`, taken in order, are separated by a gap.
#[verifier::opaque]
pub open spec fn pairwise_separated(s: Seq<Span>) -> bool {
    forall|i: int, j: int| 0 <= i < j < s.len() ==> separated(#[trigger] s[i], #[trigger] s[j])
}

proof fn lemma_insert_by_start_props(sorted: Seq<Span>, x: Span)
    ensures
        insert_by_start(sorted, x).len() == sorted.len() + 1,
        insert_by_start(sorted, x).to_multiset() =~= sorted.to_multiset().insert(x),
        sorted_by_start(sorted) ==> sorted_by_start(insert_by_start(sorted, x)),
    decreases sorted.len(),
{
    broadcast use vstd::seq_lib::group_to_multiset_ensures;
    if sorted.len() == 0 {
        assert(seq![x] =~= Seq::<Span>::empty().push(x));
    } else if start_le(sorted.last(), x) {
    } else {
        let r = insert_by_start(sorted.drop_last(), x);
        lemma_insert_by_start_props(sorted.drop_last(), x);
        assert(sorted =~= sorted.drop_last().push(sorted.last()));
        if sorted_by_start(sorted) {
            let res = r.push(sorted.last());
            assert forall|i: int, j: int| 0 <= i < j < res.len() implies start_le(#[trigger] res[i], #[trigger] res[j]) by {
                if j == res.len() - 1 {
                    // res[i] is either x or an element of sorted.drop_last()
                    assert(r.to_multiset().count(res[i]) > 0);
                    assert(r.contains(res[i]));
                    if res[i] != x {
                        assert(sorted.drop_last().to_multiset().count(res[i]) > 0);
                        assert(sorted.drop_last().contains(res[i]));
                        let k = choose|k: int| 0 <= k < sorted.drop_last().len() && sorted.drop_last()[k] == res[i];
                        assert(sorted[k] == res[i]);
                        assert(start_le(sorted[k], sorted[sorted.len() - 1]));
                    }
                }
            }
        }
    }
}

proof fn lemma_sort_by_start_props(s: Seq<Span>)
    ensures
        sort_by_start(s).len() == s.len(),
        sort_by_start(s).to_multiset() =~= s.to_multiset(),
        sorted_by_start(sort_by_start(s)),
    decreases s.len(),
{
    broadcast use vstd::seq_lib::group_to_multiset_ensures;
    if s.len() > 0 {
        lemma_sort_by_start_props(s.drop_last());
        lemma_insert_by_start_props(sort_by_start(s.drop_last()), s.last());
        assert(s =~= s.drop_last().push(s.last()));
    }
}


proof fn lemma_sort_keeps_validity(s: Seq<Span>)
    requires
        all_valid(s),
    ensures
        all_valid(sort_by_start(s)),
        sorted_by_start(sort_by_start(s)),
        forall|k: int| 0 <= k < s.len() ==> sort_by_start(s).contains(#[trigger] s[k]),
{
    broadcast use vstd::seq_lib::group_to_multiset_ensures;
    reveal(all_valid);
    lemma_sort_by_start_props(s);
    let t = sort_by_start(s);
    assert forall|i: int| 0 <= i < t.len() implies #[trigger] t[i].valid() by {
        assert(t.contains(t[i]));
        assert(t.to_multiset().count(t[i]) > 0);
        assert(s.contains(t[i]));
    }
    assert forall|k: int| 0 <= k < s.len() implies t.contains(#[trigger] s[k]) by {
        assert(s.contains(s[k]));
        assert(s.to_multiset().count(s[k]) > 0);
    }
}

/// `x` lies inside some span of `r`.
pub open spec fn lies_in_some(r: Seq<Span>, x: Span) -> bool {
    exists|j: int| 0 <= j < r.len() && (#[trigger] r[j]).spec_contains(x)
}

/// Some span of `s` starts where `x` starts.
pub open spec fn start_of_some(s: Seq<Span>, x: Span) -> bool {
    exists|k: int| 0 <= k < s.len() && (#[trigger] s[k]).start_line == x.start_line && s[k].start_col == x.start_col
}

/// Some span of `s` ends where `x` ends.
pub open spec fn end_of_some(s: Seq<Span>, x: Span) -> bool {
    exists|k: int| 0 <= k < s.len() && (#[trigger] s[k]).end_line == x.end_line && s[k].end_col == x.end_col
}

/// Each span of `s` lies inside some span of `r`.
#[verifier::opaque]
pub open spec fn covers(r: Seq<Span>, s: Seq<Span>) -> bool {
    forall|k: int| 0 <= k < s.len() ==> #[trigger] lies_in_some(r, s[k])
}

/// Each span of `r` starts where some span of `s` starts.
#[verifier::opaque]
pub open spec fn starts_from(r: Seq<Span>, s: Seq<Span>) -> bool {
    forall|j: int| 0 <= j < r.len() ==> #[trigger] start_of_some(s, r[j])
}

/// Each span of `r` ends where some span of `s` ends.
#[verifier::opaque]
pub open spec fn ends_from(r: Seq<Span>, s: Seq<Span>) -> bool {
    forall|j: int| 0 <= j < r.len() ==> #[trigger] end_of_some(s, r[j])
}

spec fn sweep_facts(r: Seq<Span>, s: Seq<Span>) -> bool {
    &&& s.len() > 0 ==> r.len() > 0
    &&& all_valid(r)
    &&& pairwise_separated(r)
    &&& covers(r, s)
    &&& starts_from(r, s)
    &&& ends_from(r, s)
}

proof fn lemma_replace_last_valid(rp: Seq<Span>, e: Span)
    requires rp.len() > 0, all_valid(rp), e.valid(),
    ensures all_valid(rp.drop_last().push(e)),
{
    reveal(all_valid);
    let r = rp.drop_last().push(e);
    assert forall|i: int| 0 <= i < r.len() implies #[trigger] r[i].valid() by {
        if i < rp.len() - 1 { assert(r[i] == rp[i]); }
    }
}

proof fn lemma_push_valid(rp: Seq<Span>, x: Span)
    requires all_valid(rp), x.valid(),
    ensures all_valid(rp.push(x)),
{
    reveal(all_valid);
    let r = rp.push(x);
    assert forall|i: int| 0 <= i < r.len() implies #[trigger] r[i].valid() by {
        if i < rp.len() { assert(r[i] == rp[i]); }
    }
}

proof fn lemma_replace_last_separated(rp: Seq<Span>, e: Span)
    requires
        rp.len() > 0,
        pairwise_separated(rp),
        e.start_line == rp.last().start_line,
        e.start_col == rp.last().start_col,
    ensures pairwise_separated(rp.drop_last().push(e)),
{
    reveal(pairwise_separated);
    let r = rp.drop_last().push(e);
    let li = rp.len() - 1;
    assert forall|i: int, j: int| 0 <= i < j < r.len() implies separated(#[trigger] r[i], #[trigger] r[j]) by {
        assert(r[i] == rp[i]);
        if j < li { assert(r[j] == rp[j]); } else { assert(separated(rp[i], rp[li])); }
    }
}

proof fn lemma_push_separated(rp: Seq<Span>, x: Span)
    requires
        rp.len() > 0,
        pairwise_separated(rp),
        all_valid(rp),
        separated(rp.last(), x),
    ensures pairwise_separated(rp.push(x)),
{
    reveal(pairwise_separated);
    reveal(all_valid);
    let r = rp.push(x);
    let li = rp.len() - 1;
    assert(rp[li].valid());
    assert forall|i: int, j: int| 0 <= i < j < r.len() implies separated(#[trigger] r[i], #[trigger] r[j]) by {
        assert(r[i] == rp[i]);
        if j <= li { assert(r[j] == rp[j]); } else if i < li { assert(separated(rp[i], rp[li])); }
    }
}

proof fn lemma_replace_last_covers(s: Seq<Span>, rp: Seq<Span>, e: Span)
    requires
        s.len() > 0,
        rp.len() > 0,
        covers(rp, s.drop_last()),
        e.spec_contains(rp.last()),
        e.spec_contains(s.last()),
    ensures covers(rp.drop_last().push(e), s),
{
    reveal(covers);
    let sp = s.drop_last();
    let r = rp.drop_last().push(e);
    let li = rp.len() - 1;
    let n = s.len() - 1;
    assert(r[li] == e);
    assert forall|k: int| 0 <= k < s.len() implies lies_in_some(r, #[trigger] s[k]) by {
        if k == n {
            assert(r[li].spec_contains(s[k]));
        } else {
            assert(sp[k] == s[k]);
            assert(lies_in_some(rp, sp[k]));
        let j0 = choose|j: int| 0 <= j < rp.len() && (#[trigger] rp[j]).spec_contains(sp[k]);
            if j0 == li {
                assert(r[li].spec_contains(s[k]));
            } else {
                assert(r[j0] == rp[j0]);
            }
        }
    }
}

proof fn lemma_push_covers(s: Seq<Span>, rp: Seq<Span>)
    requires
        s.len() > 0,
        covers(rp, s.drop_last()),
        s.last().spec_contains(s.last()),
    ensures covers(rp.push(s.last()), s),
{
    reveal(covers);
    let sp = s.drop_last();
    let r = rp.push(s.last());
    let n = s.len() - 1;
    assert(r[rp.len() as int] == s[n]);
    assert forall|k: int| 0 <= k < s.len() implies lies_in_some(r, #[trigger] s[k]) by {
        if k == n {
            assert(r[rp.len() as int].spec_contains(s[k]));
        } else {
            assert(sp[k] == s[k]);
            assert(lies_in_some(rp, sp[k]));
        let j0 = choose|j: int| 0 <= j < rp.len() && (#[trigger] rp[j]).spec_contains(sp[k]);
            assert(r[j0] == rp[j0]);
        }
    }
}

proof fn lemma_replace_last_bounds(s: Seq<Span>, rp: Seq<Span>, e: Span)
    requires
        s.len() > 0,
        rp.len() > 0,
        starts_from(rp, s.drop_last()),
        ends_from(rp, s.drop_last()),
        e.start_line == rp.last().start_line,
        e.start_col == rp.last().start_col,
        (e.end_line == rp.last().end_line && e.end_col == rp.last().end_col)
            || (e.end_line == s.last().end_line && e.end_col == s.last().end_col),
    ensures
        starts_from(rp.drop_last().push(e), s),
        ends_from(rp.drop_last().push(e), s),
{
    reveal(starts_from);
    reveal(ends_from);
    let sp = s.drop_last();
    let r = rp.drop_last().push(e);
    let li = rp.len() - 1;
    let n = s.len() - 1;
    assert(r[li] == e);
    assert forall|j: int| 0 <= j < r.len() implies start_of_some(s, #[trigger] r[j]) by {
        assert(start_of_some(sp, rp[j]));
        let k1 = choose|k: int| 0 <= k < sp.len() && (#[trigger] sp[k]).start_line == rp[j].start_line && sp[k].start_col == rp[j].start_col;
        assert(s[k1] == sp[k1]);
        if j < li { assert(r[j] == rp[j]); }
    }
    assert forall|j: int| 0 <= j < r.len() implies end_of_some(s, #[trigger] r[j]) by {
        if j == li && !(e.end_line == rp.last().end_line && e.end_col == rp.last().end_col) {
            assert(s[n].end_line == r[j].end_line && s[n].end_col == r[j].end_col);
        } else {
            if j < li { assert(r[j] == rp[j]); }
            assert(end_of_some(sp, rp[j]));
        let k1 = choose|k: int| 0 <= k < sp.len() && (#[trigger] sp[k]).end_line == rp[j].end_line && sp[k].end_col == rp[j].end_col;
            assert(s[k1] == sp[k1]);
        }
    }
}

proof fn lemma_push_bounds(s: Seq<Span>, rp: Seq<Span>)
    requires
        s.len() > 0,
        starts_from(rp, s.drop_last()),
        ends_from(rp, s.drop_last()),
    ensures
        starts_from(rp.push(s.last()), s),
        ends_from(rp.push(s.last()), s),
{
    reveal(starts_from);
    reveal(ends_from);
    let sp = s.drop_last();
    let r = rp.push(s.last());
    let n = s.len() - 1;
    assert forall|j: int| 0 <= j < r.len() implies start_of_some(s, #[trigger] r[j]) by {
        if j == rp.len() {
            assert(s[n] == r[j]);
        } else {
            assert(r[j] == rp[j]);
            assert(start_of_some(sp, rp[j]));
        let k1 = choose|k: int| 0 <= k < sp.len() && (#[trigger] sp[k]).start_line == rp[j].start_line && sp[k].start_col == rp[j].start_col;
            assert(s[k1] == sp[k1]);
        }
    }
    assert forall|j: int| 0 <= j < r.len() implies end_of_some(s, #[trigger] r[j]) by {
        if j == rp.len() {
            assert(s[n] == r[j]);
        } else {
            assert(r[j] == rp[j]);
            assert(end_of_some(sp, rp[j]));
        let k1 = choose|k: int| 0 <= k < sp.len() && (#[trigger] sp[k]).end_line == rp[j].end_line && sp[k].end_col == rp[j].end_col;
            assert(s[k1] == sp[k1]);
        }
    }
}

proof fn lemma_drop_last_sorted_valid(s: Seq<Span>)
    requires s.len() > 0, all_valid(s), sorted_by_start(s),
    ensures
        all_valid(s.drop_last()),
        sorted_by_start(s.drop_last()),
        s.last().valid(),
        forall|i: int| 0 <= i < s.len() - 1 ==> start_le(#[trigger] s.drop_last()[i], s.last()),
{
    reveal(all_valid);
    let sp = s.drop_last();
    let n = s.len() - 1;
    assert(s[n].valid());
    assert forall|i: int| 0 <= i < sp.len() implies #[trigger] sp[i].valid() by { assert(sp[i] == s[i]); }
    assert forall|i: int, j: int| 0 <= i < j < sp.len() implies start_le(#[trigger] sp[i], #[trigger] sp[j]) by {
        assert(sp[i] == s[i] && sp[j] == s[j]);
    }
    assert forall|i: int| 0 <= i < s.len() - 1 implies start_le(#[trigger] sp[i], s.last()) by {
        assert(sp[i] == s[i] && s[n] == s.last());
    }
}

proof fn lemma_last_starts_before(sp: Seq<Span>, rp: Seq<Span>, x: Span)
    requires
        rp.len() > 0,
        starts_from(rp, sp),
        forall|i: int| 0 <= i < sp.len() ==> start_le(#[trigger] sp[i], x),
    ensures
        start_le(rp.last(), x),
{
    reveal(starts_from);
    let li = rp.len() - 1;
    assert(start_of_some(sp, rp[li]));
        let k0 = choose|k: int| 0 <= k < sp.len() && (#[trigger] sp[k]).start_line == rp[li].start_line && sp[k].start_col == rp[li].start_col;
    assert(start_le(sp[k0], x));
}

proof fn lemma_sweep_single(x: Span)
    requires x.valid(),
    ensures sweep_facts(seq![x], seq![x]),
{
    reveal(covers); reveal(starts_from); reveal(ends_from); reveal(pairwise_separated); reveal(all_valid);
    let r = seq![x];
    assert(r[0].spec_contains(r[0]));
}

/// The facts the sweep keeps along a sorted sequence of valid spans.
proof fn lemma_sweep_props(s: Seq<Span>)
    requires
        all_valid(s),
        sorted_by_start(s),
    ensures
        sweep_facts(sweep(s), s),
    decreases s.len(),
{
    if s.len() == 0 {
        reveal(covers); reveal(starts_from); reveal(ends_from); reveal(pairwise_separated); reveal(all_valid);
    } else {
        let sp = s.drop_last();
        let x = s.last();
        let rp = sweep(sp);
        lemma_drop_last_sorted_valid(s);
        lemma_sweep_props(sp);
        if rp.len() == 0 {
            assert(sp.len() == 0);
            assert(s =~= seq![x]);
            assert(sweep(s) =~= seq![x]);
            lemma_sweep_single(x);
        } else {
            lemma_last_starts_before(sp, rp, x);
            assert(rp.last().valid()) by { reveal(all_valid); assert(rp[rp.len() - 1] == rp.last()); }
            if touches(rp.last(), x) {
                let e = extend_end(rp.last(), x);
                assert(sweep(s) == rp.drop_last().push(e));
                lemma_replace_last_valid(rp, e);
                lemma_replace_last_separated(rp, e);
                lemma_replace_last_covers(s, rp, e);
                lemma_replace_last_bounds(s, rp, e);
            } else {
                assert(sweep(s) == rp.push(x));
                lemma_push_valid(rp, x);
                lemma_push_separated(rp, x);
                lemma_push_covers(s, rp);
                lemma_push_bounds(s, rp);
            }
        }
    }
}

proof fn lemma_sorted_sort_identity(s: Seq<Span>)
    requires sorted_by_start(s),
    ensures sort_by_start(s) == s,
    decreases s.len(),
{
    if s.len() > 0 {
        let sp = s.drop_last();
        assert forall|i: int, j: int| 0 <= i < j < sp.len() implies start_le(#[trigger] sp[i], #[trigger] sp[j]) by {
            assert(sp[i] == s[i] && sp[j] == s[j]);
        }
        lemma_sorted_sort_identity(sp);
        if sp.len() > 0 {
            assert(sp.last() == s[s.len() - 2]);
            assert(start_le(s[s.len() - 2], s[s.len() - 1]));
        }
        assert(s =~= sp.push(s.last()));
    }
}

proof fn lemma_separated_sweep_identity(s: Seq<Span>)
    requires pairwise_separated(s),
    ensures sweep(s) == s,
    decreases s.len(),
{
    if s.len() > 0 {
        let sp = s.drop_last();
        assert(pairwise_separated(sp)) by {
            reveal(pairwise_separated);
            assert forall|i: int, j: int| 0 <= i < j < sp.len() implies separated(#[trigger] sp[i], #[trigger] sp[j]) by {
                assert(sp[i] == s[i] && sp[j] == s[j]);
            }
        }
        lemma_separated_sweep_identity(sp);
        if sp.len() > 0 {
            reveal(pairwise_separated);
            assert(sp.last() == s[s.len() - 2]);
            assert(separated(s[s.len() - 2], s[s.len() - 1]));
            assert(!touches(sp.last(), s.last()));
        }
        assert(s =~= sp.push(s.last()));
    }
}

proof fn lemma_separated_sorted(s: Seq<Span>)
    requires all_valid(s), pairwise_separated(s),
    ensures sorted_by_start(s),
{
    reveal(all_valid);
    reveal(pairwise_separated);
    assert forall|i: int, j: int| 0 <= i < j < s.len() implies start_le(#[trigger] s[i], #[trigger] s[j]) by {
        assert(s[i].valid());
        assert(separated(s[i], s[j]));
    }
}

/// Merging valid spans yields valid spans, each ending strictly before the next one starts.
pub proof fn law_merge_separated(spans: Seq<Span>)
    requires
        all_valid(spans),
    ensures
        all_valid(spec_merge(spans)),
        pairwise_separated(spec_merge(spans)),
        sorted_by_start(spec_merge(spans)),
        spans.len() > 0 ==> spec_merge(spans).len() > 0,
{
    lemma_sort_keeps_validity(spans);
    lemma_sort_by_start_props(spans);
    lemma_sweep_props(sort_by_start(spans));
    lemma_separated_sorted(spec_merge(spans));
}

proof fn lemma_covers_perm(srt: Seq<Span>, spans: Seq<Span>, r: Seq<Span>)
    requires
        covers(r, srt),
        forall|k: int| 0 <= k < spans.len() ==> srt.contains(#[trigger] spans[k]),
    ensures
        covers(r, spans),
{
    reveal(covers);
    assert forall|k: int| 0 <= k < spans.len() implies lies_in_some(r, #[trigger] spans[k]) by {
        assert(srt.contains(spans[k]));
        let m = choose|m: int| 0 <= m < srt.len() && srt[m] == spans[k];
        assert(0 <= m < srt.len() && srt[m] == spans[k]);
        assert(lies_in_some(r, srt[m]));
        let j0 = choose|j: int| 0 <= j < r.len() && (#[trigger] r[j]).spec_contains(srt[m]);
        assert(0 <= j0 < r.len() && r[j0].spec_contains(srt[m]));
        assert(r[j0].spec_contains(spans[k]));
    }
    assert(covers(r, spans));
}

proof fn lemma_starts_perm(srt: Seq<Span>, spans: Seq<Span>, r: Seq<Span>)
    requires
        starts_from(r, srt),
        srt.to_multiset() =~= spans.to_multiset(),
    ensures
        starts_from(r, spans),
{
    reveal(starts_from);
    assert forall|j: int| 0 <= j < r.len() implies start_of_some(spans, #[trigger] r[j]) by {
        assert(start_of_some(srt, r[j]));
        let m = choose|k: int| 0 <= k < srt.len() && (#[trigger] srt[k]).start_line == r[j].start_line && srt[k].start_col == r[j].start_col;
        broadcast use vstd::seq_lib::group_to_multiset_ensures;
        assert(srt.contains(srt[m]));
        assert(srt.to_multiset().count(srt[m]) > 0);
        assert(spans.contains(srt[m]));
        let k2 = choose|k: int| 0 <= k < spans.len() && spans[k] == srt[m];
        assert(spans[k2].start_line == r[j].start_line && spans[k2].start_col == r[j].start_col);
    }
}

proof fn lemma_ends_perm(srt: Seq<Span>, spans: Seq<Span>, r: Seq<Span>)
    requires
        ends_from(r, srt),
        srt.to_multiset() =~= spans.to_multiset(),
    ensures
        ends_from(r, spans),
{
    reveal(ends_from);
    assert forall|j: int| 0 <= j < r.len() implies end_of_some(spans, #[trigger] r[j]) by {
        assert(end_of_some(srt, r[j]));
        let m = choose|k: int| 0 <= k < srt.len() && (#[trigger] srt[k]).end_line == r[j].end_line && srt[k].end_col == r[j].end_col;
        broadcast use vstd::seq_lib::group_to_multiset_ensures;
        assert(srt.contains(srt[m]));
        assert(srt.to_multiset().count(srt[m]) > 0);
        assert(spans.contains(srt[m]));
        let k2 = choose|k: int| 0 <= k < spans.len() && spans[k] == srt[m];
        assert(spans[k2].end_line == r[j].end_line && spans[k2].end_col == r[j].end_col);
    }
}

/// Merging loses no region: every input span lies inside some merged span, and every merged
/// span starts where some input span starts and ends where some input span ends.
pub proof fn law_merge_covers(spans: Seq<Span>)
    requires
        all_valid(spans),
    ensures
        covers(spec_merge(spans), spans),
        starts_from(spec_merge(spans), spans),
        ends_from(spec_merge(spans), spans),
{
    let t = sort_by_start(spans);
    let r = spec_merge(spans);
    lemma_sort_keeps_validity(spans);
    lemma_sort_by_start_props(spans);
    lemma_sweep_props(t);
    lemma_covers_perm(t, spans, r);
    lemma_starts_perm(t, spans, r);
    lemma_ends_perm(t, spans, r);
}

/// Merging an already merged list of valid spans changes nothing.
pub proof fn law_merge_idempotent(spans: Seq<Span>)
    requires
        all_valid(spans),
    ensures
        spec_merge(spec_merge(spans)) == spec_merge(spans),
{
    law_merge_separated(spans);
    let r = spec_merge(spans);
    lemma_sorted_sort_identity(r);
    lemma_separated_sweep_identity(r);
}

/// Merging a single span gives it back unchanged.
pub proof fn law_merge_single(s: Span)
    ensures
        spec_merge(seq![s]) == seq![s],
{
    reveal(pairwise_separated);
    lemma_sorted_sort_identity(seq![s]);
    lemma_separated_sweep_identity(seq![s]);
}

/// Span `s` covers the position at line `l`, column `c`.
pub open spec fn covers_point(s: Span, l: int, c: int) -> bool {
    pos_le(s.start_line as int, s.start_col as int, l, c) && pos_le(l, c, s.end_line as int, s.end_col as int)
}

/// Some span of `ss` covers the position at line `l`, column `c`.
pub open spec fn point_in_some(ss: Seq<Span>, l: int, c: int) -> bool {
    exists|i: int| 0 <= i < ss.len() && covers_point(#[trigger] ss[i], l, c)
}

proof fn lemma_sweep_point(s: Seq<Span>, j: int, l: int, c: int)
    requires
        0 <= j < sweep(s).len(),
        covers_point(sweep(s)[j], l, c),
    ensures
        point_in_some(s, l, c),
    decreases s.len(),
{
    let d = s.drop_last();
    let r = sweep(d);
    let x = s.last();
    assert(covers_point(s[s.len() - 1], l, c) ==> point_in_some(s, l, c));
    if r.len() == 0 {
        assert(sweep(s)[j] == x);
    } else if touches(r.last(), x) {
        let res = r.drop_last().push(extend_end(r.last(), x));
        assert(sweep(s) == res);
        if j < r.len() - 1 {
            assert(res[j] == r[j]);
            lemma_sweep_point(d, j, l, c);
            let i = choose|i: int| 0 <= i < d.len() && covers_point(#[trigger] d[i], l, c);
            assert(s[i] == d[i]);
        } else {
            let last = r.last();
            if pos_le(l, c, last.end_line as int, last.end_col as int) {
                assert(covers_point(r[r.len() - 1], l, c));
                lemma_sweep_point(d, r.len() - 1, l, c);
                let i = choose|i: int| 0 <= i < d.len() && covers_point(#[trigger] d[i], l, c);
                assert(s[i] == d[i]);
            } else {
                assert(covers_point(s[s.len() - 1], l, c));
            }
        }
    } else {
        let res = r.push(x);
        assert(sweep(s) == res);
        if j < r.len() {
            assert(res[j] == r[j]);
            lemma_sweep_point(d, j, l, c);
            let i = choose|i: int| 0 <= i < d.len() && covers_point(#[trigger] d[i], l, c);
            assert(s[i] == d[i]);
        } else {
            assert(covers_point(s[s.len() - 1], l, c));
        }
    }
}

/// Merging valid spans covers exactly the positions the spans cover: a position lies in some
/// merged span exactly when it lies in some input span.
pub proof fn law_merge_union(spans: Seq<Span>, l: int, c: int)
    requires
        all_valid(spans),
    ensures
        point_in_some(spec_merge(spans), l, c) <==> point_in_some(spans, l, c),
{
    broadcast use vstd::seq_lib::group_to_multiset_ensures;
    let t = sort_by_start(spans);
    let r = spec_merge(spans);
    if point_in_some(r, l, c) {
        let j = choose|j: int| 0 <= j < r.len() && covers_point(#[trigger] r[j], l, c);
        lemma_sweep_point(t, j, l, c);
        let i = choose|i: int| 0 <= i < t.len() && covers_point(#[trigger] t[i], l, c);
        lemma_sort_by_start_props(spans);
        assert(t.contains(t[i]));
        assert(t.to_multiset().count(t[i]) > 0);
        assert(spans.contains(t[i]));
        let k = choose|k: int| 0 <= k < spans.len() && spans[k] == t[i];
        assert(covers_point(spans[k], l, c));
    }
    if point_in_some(spans, l, c) {
        let k = choose|k: int| 0 <= k < spans.len() && covers_point(#[trigger] spans[k], l, c);
        law_merge_covers(spans);
        reveal(covers);
        assert(lies_in_some(r, spans[k]));
        let j = choose|j: int| 0 <= j < r.len() && (#[trigger] r[j]).spec_contains(spans[k]);
        assert(covers_point(r[j], l, c));
    }
}

/// Containment is transitive.
pub proof fn law_contains_transitive(a: Span, b: Span, c: Span)
    requires
        a.spec_contains(b),
        b.spec_contains(c),
    ensures
        a.spec_contains(c),
{
}

/// Every span contains itself.
pub proof fn law_contains_reflexive(a: Span)
    ensures
        a.spec_contains(a),
{
}

proof fn lemma_insert_at(v: Seq<Span>, x: Span, j: int)
    requires
        0 <= j <= v.len(),
        j == 0 || start_le(v[j - 1], x),
        forall|i: int| j <= i < v.len() ==> !start_le(#[trigger] v[i], x),
    ensures
        insert_by_start(v, x) == v.insert(j, x),
    decreases v.len(),
{
    if v.len() == j {
        if j == 0 {
            assert(v.insert(j, x) =~= seq![x]);
        } else {
            assert(v.last() == v[j - 1]);
            assert(v.insert(j, x) =~= v.push(x));
        }
    } else {
        let vp = v.drop_last();
        assert(!start_le(v[v.len() - 1], x));
        assert forall|i: int| j <= i < vp.len() implies !start_le(#[trigger] vp[i], x) by { assert(vp[i] == v[i]); }
        if j > 0 { assert(vp[j - 1] == v[j - 1]); }
        lemma_insert_at(vp, x, j);
        assert(v.insert(j, x) =~= vp.insert(j, x).push(v.last()));
    }
}

fn start_le_exec(a: &Span, b: &Span) -> (r: bool)
    ensures r == start_le(*a, *b),
{
    a.start_line < b.start_line || (a.start_line == b.start_line && a.start_col <= b.start_col)
}

fn insert_sorted_by_start(v: &mut Vec<Span>, x: Span)
    ensures
        final(v)@ == insert_by_start(old(v)@, x),
{
    let mut j = v.len();
    while j > 0 && !start_le_exec(&v[j - 1], &x)
        invariant
            j <= v.len(),
            v@ == old(v)@,
            forall|i: int| j <= i < v.len() ==> !start_le(#[trigger] v@[i], x),
        decreases j,
    {
        j = j - 1;
    }
    proof { lemma_insert_at(v@, x, j as int); }
    v.insert(j, x);
}

impl Span {
    /// Sorts the spans by start and folds together every span that overlaps or touches the one
    /// before it.
    pub fn merge(spans: &[Span]) -> (r: Vec<Span>)
        ensures
            r@ == spec_merge(spans@),
    {
        let mut sorted: Vec<Span> = Vec::new();
        for i in 0..spans.len()
            invariant
                sorted@ == sort_by_start(spans@.take(i as int)),
        {
            proof {
                assert(spans@.take(i + 1).drop_last() =~= spans@.take(i as int));
                assert(spans@.take(i + 1).last() == spans@[i as int]);
            }
            insert_sorted_by_start(&mut sorted, spans[i]);
        }
        proof {
            assert(spans@.take(spans@.len() as int) =~= spans@);
            lemma_sort_by_start_props(spans@);
        }
        let mut result: Vec<Span> = Vec::new();
        if sorted.len() == 0 {
            return result;
        }
        result.push(sorted[0]);
        proof {
            assert(sorted@.take(1).drop_last() =~= Seq::<Span>::empty());
            assert(sweep(Seq::<Span>::empty()) =~= Seq::<Span>::empty());
            assert(sorted@.take(1).last() == sorted@[0]);
            assert(sweep(sorted@.take(1)) =~= seq![sorted@[0]]);
            assert(result@ =~= seq![sorted@[0]]);
        }
        for i in 1..sorted.len()
            invariant
                result@ == sweep(sorted@.take(i as int)),
                result.len() > 0,
        {
            proof {
                assert(sorted@.take(i + 1).drop_last() =~= sorted@.take(i as int));
                assert(sorted@.take(i + 1).last() == sorted@[i as int]);
            }
            let x = sorted[i];
            let n = result.len() - 1;
            let last = result[n];
            if x.start_line < last.end_line || (x.start_line == last.end_line && x.start_col <= last.end_col) {
                if x.end_line > last.end_line || (x.end_line == last.end_line && x.end_col > last.end_col) {
                    result.set(n, Span { end_line: x.end_line, end_col: x.end_col, ..last });
                }
                proof { assert(result@ =~= sweep(sorted@.take(i + 1))); }
            } else {
                result.push(x);
            }
        }
        proof {
            assert(sorted@.take(sorted@.len() as int) =~= sorted@);
        }
        result
    }
}

} // verus!
