//! Unix paths as `std::path::Path` sees them: their components, equality and order.

use crate::text::{chars_eq, chars_of};
use vstd::prelude::*;

verus! {

/// A path component, as `std::path::Component` orders them: its rank (root, current directory,
/// parent directory, plain name) and, for a plain name, its text.
pub type ComponentModel = (int, Seq<char>);

/// The pieces of `s` between `'/'` characters.
pub open spec fn split_slash(s: Seq<char>) -> Seq<Seq<char>>
    decreases s.len(),
{
    if s.len() == 0 {
        seq![Seq::<char>::empty()]
    } else {
        let p = split_slash(s.drop_last());
        if s.last() == '/' {
            p.push(Seq::<char>::empty())
        } else {
            p.update(p.len() - 1, p.last().push(s.last()))
        }
    }
}

/// The component that the piece of a path between two separators stands for, if any.
/// Empty pieces and `.` vanish, except at the front: a leading `/` is the root and a
/// leading `.` the current directory.
pub open spec fn piece_component(piece: Seq<char>, first: bool, rooted: bool) -> Option<ComponentModel> {
    if piece.len() == 0 {
        if first && rooted { Some((1, Seq::<char>::empty())) } else { None }
    } else if piece == "."@ {
        if first { Some((2, Seq::<char>::empty())) } else { None }
    } else if piece == ".."@ {
        Some((3, Seq::<char>::empty()))
    } else {
        Some((4, piece))
    }
}

/// The components of the first `n` pieces.
pub open spec fn components_prefix(ps: Seq<Seq<char>>, n: int, rooted: bool) -> Seq<ComponentModel>
    decreases n,
{
    if n <= 0 {
        seq![]
    } else {
        let acc = components_prefix(ps, n - 1, rooted);
        match piece_component(ps[n - 1], n == 1, rooted) {
            Some(c) => acc.push(c),
            None => acc,
        }
    }
}

/// The components of a Unix path, as `Path::components` yields them.
pub open spec fn path_components(p: Seq<char>) -> Seq<ComponentModel> {
    let ps = split_slash(p);
    components_prefix(ps, ps.len() as int, p.len() > 0 && p[0] == '/')
}

/// Lexicographic order of two character sequences: -1, 0 or 1.
pub open spec fn order_chars(a: Seq<char>, b: Seq<char>) -> int
    decreases a.len(),
{
    if a.len() == 0 {
        if b.len() == 0 { 0 } else { -1 }
    } else if b.len() == 0 {
        1
    } else if a[0] < b[0] {
        -1
    } else if a[0] > b[0] {
        1
    } else {
        order_chars(a.drop_first(), b.drop_first())
    }
}

/// Order of two components: by rank, then by text.
pub open spec fn order_component(x: ComponentModel, y: ComponentModel) -> int {
    if x.0 < y.0 {
        -1
    } else if x.0 > y.0 {
        1
    } else {
        order_chars(x.1, y.1)
    }
}

/// Lexicographic order of two component sequences.
pub open spec fn order_components(a: Seq<ComponentModel>, b: Seq<ComponentModel>) -> int
    decreases a.len(),
{
    if a.len() == 0 {
        if b.len() == 0 { 0 } else { -1 }
    } else if b.len() == 0 {
        1
    } else if order_component(a[0], b[0]) != 0 {
        order_component(a[0], b[0])
    } else {
        order_components(a.drop_first(), b.drop_first())
    }
}

/// The order of two paths, as `Path`'s `Ord` gives it.
pub open spec fn order_paths(a: Seq<char>, b: Seq<char>) -> int {
    order_components(path_components(a), path_components(b))
}

/// Comparing two character sequences the other way round gives the opposite answer.
pub proof fn lemma_order_chars_antisym(a: Seq<char>, b: Seq<char>)
    ensures
        order_chars(b, a) == -order_chars(a, b),
        -1 <= order_chars(a, b) <= 1,
    decreases a.len(),
{
    if a.len() > 0 && b.len() > 0 && a[0] == b[0] {
        lemma_order_chars_antisym(a.drop_first(), b.drop_first());
    }
}

/// Comparing two component sequences the other way round gives the opposite answer.
pub proof fn lemma_order_components_antisym(a: Seq<ComponentModel>, b: Seq<ComponentModel>)
    ensures
        order_components(b, a) == -order_components(a, b),
        -1 <= order_components(a, b) <= 1,
    decreases a.len(),
{
    if a.len() > 0 && b.len() > 0 {
        lemma_order_chars_antisym(a[0].1, b[0].1);
        if order_component(a[0], b[0]) == 0 {
            lemma_order_components_antisym(a.drop_first(), b.drop_first());
        }
    }
}

/// A character sequence compares equal to itself.
pub proof fn lemma_order_chars_refl(a: Seq<char>)
    ensures
        order_chars(a, a) == 0,
    decreases a.len(),
{
    if a.len() > 0 {
        lemma_order_chars_refl(a.drop_first());
    }
}

/// A component sequence compares equal to itself.
pub proof fn lemma_order_components_refl(a: Seq<ComponentModel>)
    ensures
        order_components(a, a) == 0,
    decreases a.len(),
{
    if a.len() > 0 {
        lemma_order_chars_refl(a[0].1);
        lemma_order_components_refl(a.drop_first());
    }
}

/// Paths with the same components compare equal.
pub proof fn lemma_order_paths_same(a: Seq<char>, b: Seq<char>)
    requires
        path_components(a) == path_components(b),
    ensures
        order_paths(a, b) == 0,
{
    lemma_order_components_refl(path_components(a));
}

/// Comparing two paths the other way round gives the opposite answer.
pub proof fn lemma_order_paths_antisym(a: Seq<char>, b: Seq<char>)
    ensures
        order_paths(b, a) == -order_paths(a, b),
{
    lemma_order_components_antisym(path_components(a), path_components(b));
}

pub(crate) fn split_slash_exec(s: &[char]) -> (r: Vec<Vec<char>>)
    ensures
        r@.len() == split_slash(s@).len(),
        forall|i: int| 0 <= i < r@.len() ==> #[trigger] r@[i]@ == split_slash(s@)[i],
{
    let mut out: Vec<Vec<char>> = Vec::new();
    let mut cur: Vec<char> = Vec::new();
    proof { assert(s@.take(0) =~= Seq::<char>::empty()); }
    for i in 0..s.len()
        invariant
            out@.len() + 1 == split_slash(s@.take(i as int)).len(),
            forall|k: int| 0 <= k < out@.len() ==> #[trigger] out@[k]@ == split_slash(s@.take(i as int))[k],
            cur@ == split_slash(s@.take(i as int)).last(),
    {
        let ghost p = split_slash(s@.take(i as int));
        proof {
            assert(s@.take(i + 1).drop_last() =~= s@.take(i as int));
            assert(s@.take(i + 1).last() == s@[i as int]);
        }
        if s[i] == '/' {
            out.push(cur);
            cur = Vec::new();
            proof {
                let q = split_slash(s@.take(i + 1));
                assert(q == p.push(Seq::<char>::empty()));
                assert forall|k: int| 0 <= k < out@.len() implies #[trigger] out@[k]@ == q[k] by {
                    if k < out@.len() - 1 { assert(q[k] == p[k]); } else { assert(q[k] == p[p.len() - 1]); }
                }
                assert(cur@ =~= q.last());
            }
        } else {
            cur.push(s[i]);
            proof {
                let q = split_slash(s@.take(i + 1));
                assert(q == p.update(p.len() - 1, p.last().push(s@[i as int])));
                assert forall|k: int| 0 <= k < out@.len() implies #[trigger] out@[k]@ == q[k] by {
                    assert(q[k] == p[k]);
                }
            }
        }
    }
    proof { assert(s@.take(s@.len() as int) =~= s@); }
    out.push(cur);
    proof {
        let q = split_slash(s@);
        assert forall|k: int| 0 <= k < out@.len() implies #[trigger] out@[k]@ == q[k] by {
            if k < out@.len() - 1 {} else { assert(q[k] == q.last()); }
        }
    }
    out
}

pub(crate) fn components_exec(p: &str) -> (r: Vec<(u8, Vec<char>)>)
    ensures
        r@.len() == path_components(p@).len(),
        forall|i: int| 0 <= i < r@.len() ==> (#[trigger] r@[i]).0 as int == path_components(p@)[i].0
            && r@[i].1@ == path_components(p@)[i].1,
{
    let s = chars_of(p);
    let rooted = s.len() > 0 && s[0] == '/';
    let ps = split_slash_exec(s.as_slice());
    let ghost psv = split_slash(p@);
    let dot = chars_of(".");
    let dotdot = chars_of("..");
    let mut out: Vec<(u8, Vec<char>)> = Vec::new();
    for i in 0..ps.len()
        invariant
            ps@.len() == psv.len(),
            psv == split_slash(p@),
            rooted == (p@.len() > 0 && p@[0] == '/'),
            dot@ == "."@,
            dotdot@ == ".."@,
            forall|k: int| 0 <= k < ps@.len() ==> #[trigger] ps@[k]@ == psv[k],
            out@.len() == components_prefix(psv, i as int, rooted).len(),
            forall|k: int| 0 <= k < out@.len() ==> (#[trigger] out@[k]).0 as int == components_prefix(psv, i as int, rooted)[k].0
                && out@[k].1@ == components_prefix(psv, i as int, rooted)[k].1,
    {
        let piece = &ps[i];
        let first = i == 0;
        let ghost before = components_prefix(psv, i as int, rooted);
        proof { assert(piece@ == psv[i as int]); }
        let comp: Option<(u8, Vec<char>)> = if piece.len() == 0 {
            if first && rooted { Some((1u8, Vec::new())) } else { None }
        } else if chars_eq(piece.as_slice(), dot.as_slice()) {
            if first { Some((2u8, Vec::new())) } else { None }
        } else if chars_eq(piece.as_slice(), dotdot.as_slice()) {
            Some((3u8, Vec::new()))
        } else {
            Some((4u8, piece.clone()))
        };
        proof {
            assert(comp matches Some(c) ==> piece_component(psv[i as int], first, rooted) == Some::<ComponentModel>((c.0 as int, c.1@)));
            assert(comp is None ==> piece_component(psv[i as int], first, rooted) is None);
        }
        match comp {
            Some(c) => {
                out.push(c);
            },
            None => {},
        }
        proof {
            let after = components_prefix(psv, i + 1, rooted);
            assert forall|k: int| 0 <= k < out@.len() implies (#[trigger] out@[k]).0 as int == after[k].0
                && out@[k].1@ == after[k].1 by {
                if k < before.len() { assert(after[k] == before[k]); }
            }
        }
    }
    out
}

pub(crate) fn order_chars_exec(a: &[char], b: &[char]) -> (r: i8)
    ensures
        r as int == order_chars(a@, b@),
{
    let mut i: usize = 0;
    proof { assert(a@.skip(0) =~= a@); assert(b@.skip(0) =~= b@); }
    while i < a.len() && i < b.len()
        invariant
            i <= a.len(),
            i <= b.len(),
            order_chars(a@, b@) == order_chars(a@.skip(i as int), b@.skip(i as int)),
        decreases a.len() - i,
    {
        proof {
            assert(a@.skip(i as int)[0] == a@[i as int]);
            assert(b@.skip(i as int)[0] == b@[i as int]);
            assert(a@.skip(i as int).drop_first() =~= a@.skip(i + 1));
            assert(b@.skip(i as int).drop_first() =~= b@.skip(i + 1));
        }
        if a[i] < b[i] {
            return -1;
        }
        if a[i] > b[i] {
            return 1;
        }
        i = i + 1;
    }
    if i == a.len() {
        if i == b.len() { 0 } else { -1 }
    } else {
        1
    }
}

pub(crate) fn order_paths_exec(a: &str, b: &str) -> (r: i8)
    ensures
        r as int == order_paths(a@, b@),
{
    let x = components_exec(a);
    let y = components_exec(b);
    let ghost xs = path_components(a@);
    let ghost ys = path_components(b@);
    let mut i: usize = 0;
    proof { assert(xs.skip(0) =~= xs); assert(ys.skip(0) =~= ys); }
    while i < x.len() && i < y.len()
        invariant
            i <= x.len(),
            i <= y.len(),
            x@.len() == xs.len(),
            y@.len() == ys.len(),
            forall|k: int| 0 <= k < x@.len() ==> (#[trigger] x@[k]).0 as int == xs[k].0 && x@[k].1@ == xs[k].1,
            forall|k: int| 0 <= k < y@.len() ==> (#[trigger] y@[k]).0 as int == ys[k].0 && y@[k].1@ == ys[k].1,
            order_paths(a@, b@) == order_components(xs.skip(i as int), ys.skip(i as int)),
        decreases x.len() - i,
    {
        proof {
            assert(xs.skip(i as int)[0] == xs[i as int]);
            assert(ys.skip(i as int)[0] == ys[i as int]);
            assert(xs.skip(i as int).drop_first() =~= xs.skip(i + 1));
            assert(ys.skip(i as int).drop_first() =~= ys.skip(i + 1));
        }
        let (rx, tx) = (x[i].0, &x[i].1);
        let (ry, ty) = (y[i].0, &y[i].1);
        if rx < ry {
            return -1;
        }
        if rx > ry {
            return 1;
        }
        let c = order_chars_exec(tx.as_slice(), ty.as_slice());
        if c != 0 {
            return c;
        }
        i = i + 1;
    }
    if i == x.len() {
        if i == y.len() { 0 } else { -1 }
    } else {
        1
    }
}

/// Whether two paths are equal as `Path` compares them: component by component.
pub fn same_path(a: &str, b: &str) -> (r: bool)
    ensures
        r == (path_components(a@) == path_components(b@)),
{
    let x = components_exec(a);
    let y = components_exec(b);
    let ghost xs = path_components(a@);
    let ghost ys = path_components(b@);
    if x.len() != y.len() {
        proof { assert(xs.len() != ys.len()); }
        return false;
    }
    for i in 0..x.len()
        invariant
            xs == path_components(a@),
            ys == path_components(b@),
            x@.len() == xs.len(),
            y@.len() == ys.len(),
            x@.len() == y@.len(),
            forall|k: int| 0 <= k < x@.len() ==> (#[trigger] x@[k]).0 as int == xs[k].0 && x@[k].1@ == xs[k].1,
            forall|k: int| 0 <= k < y@.len() ==> (#[trigger] y@[k]).0 as int == ys[k].0 && y@[k].1@ == ys[k].1,
            forall|k: int| 0 <= k < i ==> xs[k] == ys[k],
    {
        let ghost xi = xs[i as int];
        let ghost yi = ys[i as int];
        if x[i].0 != y[i].0 || !chars_eq(x[i].1.as_slice(), y[i].1.as_slice()) {
            proof {
                assert(x@[i as int].0 as int == xi.0 && x@[i as int].1@ == xi.1);
                assert(y@[i as int].0 as int == yi.0 && y@[i as int].1@ == yi.1);
                assert(xi != yi);
                assert(xs[i as int] != ys[i as int]);
            }
            return false;
        }
        proof {
            assert(x@[i as int].1@ == xi.1 && y@[i as int].1@ == yi.1);
            assert(xi.0 == yi.0);
            assert(xi == yi);
        }
    }
    proof { assert(xs =~= ys); }
    true
}

} // verus!
