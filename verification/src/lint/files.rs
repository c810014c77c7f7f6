//! Which of the files found below the project root the linter reads, and in what order.

use crate::daemon::pipeline::extension;
use crate::paths::{lemma_order_paths_antisym, order_paths, order_paths_exec};
use vstd::prelude::*;

verus! {

/// Inserts `x` right after the last path of `sorted` that orders at or before it.
pub open spec fn insert_path(sorted: Seq<Seq<char>>, x: Seq<char>) -> Seq<Seq<char>>
    decreases sorted.len(),
{
    if sorted.len() == 0 {
        seq![x]
    } else if order_paths(sorted.last(), x) <= 0 {
        sorted.push(x)
    } else {
        insert_path(sorted.drop_last(), x).push(sorted.last())
    }
}

/// The stable sort of some paths in the order `Path` compares them: component by component.
pub open spec fn sort_paths(s: Seq<Seq<char>>) -> Seq<Seq<char>>
    decreases s.len(),
{
    if s.len() == 0 {
        seq![]
    } else {
        insert_path(sort_paths(s.drop_last()), s.last())
    }
}

/// The Rust sources among some paths.
pub open spec fn rust_paths(s: Seq<Seq<char>>) -> Seq<Seq<char>> {
    s.filter(|p: Seq<char>| extension(p) == Some("rs"@))
}

proof fn lemma_insert_path_at(v: Seq<Seq<char>>, x: Seq<char>, j: int)
    requires
        0 <= j <= v.len(),
        j == 0 || order_paths(v[j - 1], x) <= 0,
        forall|i: int| j <= i < v.len() ==> order_paths(#[trigger] v[i], x) > 0,
    ensures
        insert_path(v, x) == v.insert(j, x),
    decreases v.len(),
{
    if v.len() == j {
        if j == 0 {
            assert(v.insert(j, x) =~= seq![x]);
        } else {
            assert(v.last() == v[j - 1]);
            assert(v.insert(j, x) =~= v.push(x));
        }
    } else {
        let vp = v.drop_last();
        assert(order_paths(v[v.len() - 1], x) > 0);
        assert forall|i: int| j <= i < vp.len() implies order_paths(#[trigger] vp[i], x) > 0 by { assert(vp[i] == v[i]); }
        if j > 0 { assert(vp[j - 1] == v[j - 1]); }
        lemma_insert_path_at(vp, x, j);
        assert(v.insert(j, x) =~= vp.insert(j, x).push(v.last()));
    }
}

fn insert_path_exec(v: &mut Vec<String>, x: String)
    ensures
        final(v)@.map_values(|p: String| p@) == insert_path(old(v)@.map_values(|p: String| p@), x@),
{
    let ghost m = old(v)@.map_values(|p: String| p@);
    let mut j = v.len();
    while j > 0 && order_paths_exec(v[j - 1].as_str(), x.as_str()) > 0
        invariant
            j <= v.len(),
            v@ == old(v)@,
            m == old(v)@.map_values(|p: String| p@),
            forall|i: int| j <= i < v.len() ==> order_paths(#[trigger] m[i], x@) > 0,
        decreases j,
    {
        j = j - 1;
    }
    proof { lemma_insert_path_at(m, x@, j as int); }
    v.insert(j, x);
    proof { assert(v@.map_values(|p: String| p@) =~= m.insert(j as int, x@)); }
}

/// The Rust sources among the files found below the project root, sorted as `Path` orders
/// them.
pub fn select_rust_files(found: &[String]) -> (r: Vec<String>)
    ensures
        r@.map_values(|p: String| p@) == sort_paths(rust_paths(found@.map_values(|p: String| p@))),
        paths_sorted(r@.map_values(|p: String| p@)),
{
    let ghost f = |p: Seq<char>| extension(p) == Some("rs"@);
    let ghost v = |p: String| p@;
    let mut sorted: Vec<String> = Vec::new();
    for i in 0..found.len()
        invariant
            f == (|p: Seq<char>| extension(p) == Some("rs"@)),
            v == (|p: String| p@),
            sorted@.map_values(v) == sort_paths(found@.take(i as int).map_values(v).filter(f)),
    {
        let ghost s = found@.take(i + 1).map_values(v);
        proof {
            reveal(Seq::filter);
            assert(s.drop_last() =~= found@.take(i as int).map_values(v));
            assert(s.last() == found@[i as int]@);
        }
        if crate::daemon::pipeline::is_rust_source(found[i].as_str()) {
            proof {
                let q = found@.take(i as int).map_values(v).filter(f);
                assert(s.filter(f) == q.push(found@[i as int]@));
                assert(q.push(found@[i as int]@).drop_last() =~= q);
            }
            insert_path_exec(&mut sorted, found[i].clone());
        }
    }
    proof {
        assert(found@.take(found@.len() as int) =~= found@);
        law_sort_paths_sorts(rust_paths(found@.map_values(v)));
    }
    sorted
}

/// Adjacent paths of `s` are in `Path` order.
pub open spec fn paths_sorted(s: Seq<Seq<char>>) -> bool {
    forall|i: int| 0 <= i < s.len() - 1 ==> order_paths(#[trigger] s[i], s[i + 1]) <= 0
}

proof fn lemma_insert_path_sorted(sorted: Seq<Seq<char>>, x: Seq<char>)
    requires
        paths_sorted(sorted),
    ensures
        paths_sorted(insert_path(sorted, x)),
        insert_path(sorted, x).to_multiset() == sorted.to_multiset().insert(x),
        insert_path(sorted, x).len() == sorted.len() + 1,
        sorted.len() > 0 ==> insert_path(sorted, x).last() == x || insert_path(sorted, x).last() == sorted.last(),
    decreases sorted.len(),
{
    broadcast use vstd::seq_lib::group_to_multiset_ensures;
    if sorted.len() == 0 {
        assert(seq![x] =~= Seq::<Seq<char>>::empty().push(x));
    } else if order_paths(sorted.last(), x) <= 0 {
        let r = sorted.push(x);
        assert forall|i: int| 0 <= i < r.len() - 1 implies order_paths(#[trigger] r[i], r[i + 1]) <= 0 by {
            if i < sorted.len() - 1 { assert(r[i] == sorted[i] && r[i + 1] == sorted[i + 1]); }
        }
    } else {
        let d = sorted.drop_last();
        assert forall|i: int| 0 <= i < d.len() - 1 implies order_paths(#[trigger] d[i], d[i + 1]) <= 0 by {
            assert(d[i] == sorted[i] && d[i + 1] == sorted[i + 1]);
        }
        lemma_insert_path_sorted(d, x);
        let q = insert_path(d, x);
        let r = q.push(sorted.last());
        lemma_order_paths_antisym(sorted.last(), x);
        if d.len() > 0 {
            assert(order_paths(sorted[d.len() - 1], sorted[d.len() as int]) <= 0);
            assert(d.last() == sorted[d.len() - 1]);
        } else {
            assert(q =~= seq![x]);
        }
        assert forall|i: int| 0 <= i < r.len() - 1 implies order_paths(#[trigger] r[i], r[i + 1]) <= 0 by {
            if i < q.len() - 1 { assert(r[i] == q[i] && r[i + 1] == q[i + 1]); }
        }
        assert(sorted =~= d.push(sorted.last()));
        assert(d.to_multiset().insert(x).insert(sorted.last()) =~= sorted.to_multiset().insert(x));
    }
}

/// Sorting paths puts them in `Path` order and keeps every path, each as often as it came.
pub proof fn law_sort_paths_sorts(s: Seq<Seq<char>>)
    ensures
        paths_sorted(sort_paths(s)),
        sort_paths(s).to_multiset() == s.to_multiset(),
    decreases s.len(),
{
    broadcast use vstd::seq_lib::group_to_multiset_ensures;
    if s.len() > 0 {
        law_sort_paths_sorts(s.drop_last());
        lemma_insert_path_sorted(sort_paths(s.drop_last()), s.last());
        assert(s =~= s.drop_last().push(s.last()));
    }
}

} // verus!
