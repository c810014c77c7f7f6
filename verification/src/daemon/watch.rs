//! What the file watcher reports: the Rust sources an event names, and, after debouncing, each
//! changed path once.

use crate::daemon::pipeline::{extension, is_rust_source, relative_path};
use crate::paths::{path_components, same_path};
use vstd::prelude::*;

verus! {

/// The paths of an event that name Rust sources, in order.
pub fn rust_sources(paths: &[String]) -> (r: Vec<String>)
    ensures
        r@.map_values(|p: String| p@) == paths@.map_values(|p: String| p@).filter(|p: Seq<char>| extension(p) == Some("rs"@)),
{
    let ghost f = |p: Seq<char>| extension(p) == Some("rs"@);
    let ghost v = |p: String| p@;
    let mut r: Vec<String> = Vec::new();
    for i in 0..paths.len()
        invariant
            f == (|p: Seq<char>| extension(p) == Some("rs"@)),
            v == (|p: String| p@),
            r@.map_values(v) == paths@.take(i as int).map_values(v).filter(f),
    {
        proof {
            reveal(Seq::filter);
            assert(paths@.take(i + 1).map_values(v).drop_last() =~= paths@.take(i as int).map_values(v));
            assert(paths@.take(i + 1).map_values(v).last() == paths@[i as int]@);
        }
        if is_rust_source(paths[i].as_str()) {
            let ghost before = r@;
            r.push(paths[i].clone());
            proof { assert(r@.map_values(v) =~= before.map_values(v).push(paths@[i as int]@)); }
        }
    }
    proof { assert(paths@.take(paths@.len() as int) =~= paths@); }
    r
}

/// `ps` holds a path equal, by components, to `p`.
pub open spec fn holds_path(ps: Seq<Seq<char>>, p: Seq<char>) -> bool {
    exists|j: int| 0 <= j < ps.len() && path_components(#[trigger] ps[j]) == path_components(p)
}

/// The paths with each one kept at its first occurrence only, paths compared by components.
pub open spec fn first_occurrences(s: Seq<Seq<char>>) -> Seq<Seq<char>>
    decreases s.len(),
{
    if s.len() == 0 {
        Seq::empty()
    } else {
        let prev = first_occurrences(s.drop_last());
        if holds_path(prev, s.last()) { prev } else { prev.push(s.last()) }
    }
}

/// Whether the matcher that `GitignoreBuilder::new(root).build()` gives matches `rel`, as a
/// file. The builder is given no globs, so, as the crate's source shows, `build` gives the empty
/// matcher and `Gitignore::matched` answers `Match::None`: nothing matches.
#[verifier::external_body]
fn root_gitignore_matches(root: &str, rel: &str) -> (r: bool)
    ensures
        !r,
{
    match ignore::gitignore::GitignoreBuilder::new(root).build() {
        Ok(g) => !g.matched(rel, false).is_none(),
        Err(_) => false,
    }
}

/// The paths a debounced batch of events reports: each path once, at its first occurrence
/// (paths compared by components), leaving out those that the project root's ignore matcher
/// matches, which the matcher built here never does.
pub fn changed_files(root: &str, accumulated: &[String]) -> (r: Vec<String>)
    ensures
        r@.map_values(|p: String| p@) == first_occurrences(accumulated@.map_values(|p: String| p@)),
{
    let ghost v = |p: String| p@;
    let mut r: Vec<String> = Vec::new();
    for i in 0..accumulated.len()
        invariant
            v == (|p: String| p@),
            r@.map_values(v) == first_occurrences(accumulated@.take(i as int).map_values(v)),
    {
        let ghost s = accumulated@.take(i + 1).map_values(v);
        proof {
            assert(s.drop_last() =~= accumulated@.take(i as int).map_values(v));
            assert(s.last() == accumulated@[i as int]@);
        }
        let p = &accumulated[i];
        let mut seen = false;
        let mut j: usize = 0;
        while j < r.len()
            invariant
                j <= r@.len(),
                seen == exists|k: int| 0 <= k < j && path_components(r@[k]@) == path_components(p@),
            decreases r@.len() - j,
        {
            if same_path(r[j].as_str(), p.as_str()) {
                seen = true;
            }
            j = j + 1;
        }
        proof {
            let prev = r@.map_values(v);
            if seen {
                let k = choose|k: int| 0 <= k < r@.len() && path_components(r@[k]@) == path_components(p@);
                assert(prev[k] == r@[k]@);
            } else {
                assert forall|k: int| 0 <= k < prev.len() implies path_components(#[trigger] prev[k]) != path_components(p@) by {
                    assert(prev[k] == r@[k]@);
                }
            }
        }
        let rel = relative_path(p.as_str(), root);
        if !seen && !root_gitignore_matches(root, rel.as_str()) {
            let ghost before = r@;
            r.push(p.clone());
            proof { assert(r@.map_values(v) =~= before.map_values(v).push(p@)); }
        }
    }
    proof { assert(accumulated@.take(accumulated@.len() as int) =~= accumulated@); }
    r
}

/// Keeping first occurrences leaves no two paths equal by components, and every path of the
/// input is equal to one that is kept.
pub proof fn law_first_occurrences_distinct(s: Seq<Seq<char>>)
    ensures
        forall|i: int, j: int| 0 <= i < j < first_occurrences(s).len()
            ==> path_components(#[trigger] first_occurrences(s)[i]) != path_components(#[trigger] first_occurrences(s)[j]),
        forall|k: int| 0 <= k < s.len() ==> holds_path(first_occurrences(s), #[trigger] s[k]),
    decreases s.len(),
{
    if s.len() > 0 {
        let d = s.drop_last();
        law_first_occurrences_distinct(d);
        let prev = first_occurrences(d);
        let r = first_occurrences(s);
        if holds_path(prev, s.last()) {
            assert forall|k: int| 0 <= k < s.len() implies holds_path(r, #[trigger] s[k]) by {
                if k < s.len() - 1 { assert(s[k] == d[k]); }
            }
        } else {
            assert(r == prev.push(s.last()));
            assert forall|i: int, j: int| 0 <= i < j < r.len()
                implies path_components(#[trigger] r[i]) != path_components(#[trigger] r[j]) by {
                if j == r.len() - 1 {
                    assert(r[i] == prev[i]);
                    if path_components(r[i]) == path_components(r[j]) {
                        assert(holds_path(prev, s.last()));
                    }
                } else {
                    assert(r[i] == prev[i] && r[j] == prev[j]);
                }
            }
            assert forall|k: int| 0 <= k < s.len() implies holds_path(r, #[trigger] s[k]) by {
                if k < s.len() - 1 {
                    assert(s[k] == d[k]);
                    assert(holds_path(prev, d[k]));
                    let j = choose|j: int| 0 <= j < prev.len() && path_components(#[trigger] prev[j]) == path_components(d[k]);
                    assert(r[j] == prev[j]);
                } else {
                    assert(r[r.len() - 1] == s[k]);
                }
            }
        }
    }
}

} // verus!
