//! Which lines of which files the tests leave uncovered.

use crate::assoc::{assoc_map, keys_distinct, lemma_assoc_lookup, lemma_assoc_push, lemma_assoc_remove, lemma_assoc_update};
use crate::ctl::coverage::CoverageGap;
use crate::ctl::mutation::SurvivingMutant;
use crate::paths::{path_components, same_path, ComponentModel};
use std::collections::{HashMap, HashSet};
use vstd::prelude::*;

verus! {

broadcast use vstd::std_specs::hash::group_hash_axioms;

/// The uncovered lines of one file, and the outcome recorded for branches at lines.
#[derive(Debug)]
pub struct FileCoverage {
    pub lines: HashSet<u32>,
    pub branches: HashMap<u32, bool>,
}

/// A file's coverage as plain values: its uncovered lines and its branch outcomes by line.
pub type FileCoverageView = (Set<u32>, Map<u32, bool>);

/// A file as the matrix tells files apart: by the components of its path.
pub type PathKey = Seq<ComponentModel>;

impl View for FileCoverage {
    type V = FileCoverageView;

    open spec fn view(&self) -> FileCoverageView {
        (self.lines@, self.branches@)
    }
}

/// The coverage recorded for a file, or nothing recorded.
pub open spec fn entry_or_empty(m: Map<PathKey, FileCoverageView>, k: PathKey) -> FileCoverageView {
    if m.contains_key(k) { m[k] } else { (Set::empty(), Map::empty()) }
}

/// The matrix after recording one gap: its line is uncovered, and a branch gap also records
/// the branch at that line as not taken.
pub open spec fn record_gap(m: Map<PathKey, FileCoverageView>, g: CoverageGap) -> Map<PathKey, FileCoverageView> {
    let k = path_components(g.file_path@);
    let e = entry_or_empty(m, k);
    m.insert(k, (e.0.insert(g.line), if g.is_branch { e.1.insert(g.line, false) } else { e.1 }))
}

/// The matrix that records `gaps`, one after the other.
pub open spec fn record_gaps(gaps: Seq<CoverageGap>) -> Map<PathKey, FileCoverageView>
    decreases gaps.len(),
{
    if gaps.len() == 0 {
        Map::empty()
    } else {
        record_gap(record_gaps(gaps.drop_last()), gaps.last())
    }
}

/// A line counts as covered unless the matrix records it as uncovered for its file.
pub open spec fn covered(m: Map<PathKey, FileCoverageView>, file: Seq<char>, line: u32) -> bool {
    !entry_or_empty(m, path_components(file)).0.contains(line)
}

/// Two matrices combined: per file, the union of the uncovered lines, and the branch outcomes
/// of `b` over those of `a`.
pub open spec fn merge_views(a: Map<PathKey, FileCoverageView>, b: Map<PathKey, FileCoverageView>) -> Map<PathKey, FileCoverageView> {
    Map::new(
        |k: PathKey| a.contains_key(k) || b.contains_key(k),
        |k: PathKey| {
            let x = entry_or_empty(a, k);
            let y = entry_or_empty(b, k);
            (x.0.union(y.0), x.1.union_prefer_right(y.1))
        },
    )
}

/// `s` is in strictly increasing order.
pub open spec fn strictly_increasing(s: Seq<u32>) -> bool {
    forall|i: int, j: int| 0 <= i < j < s.len() ==> s[i] < s[j]
}

/// The pairs of the matrix as plain values.
pub open spec fn entries_model(s: Seq<(String, FileCoverage)>) -> Seq<(PathKey, FileCoverageView)> {
    s.map_values(|e: (String, FileCoverage)| (path_components(e.0@), e.1@))
}

/// For each file that has uncovered code, which lines and branches the tests leave uncovered.
/// Files are told apart by their path's components, as `Path` compares them.
pub struct CoverageMatrix {
    inner: Vec<(String, FileCoverage)>,
}

impl View for CoverageMatrix {
    type V = Map<PathKey, FileCoverageView>;

    closed spec fn view(&self) -> Map<PathKey, FileCoverageView> {
        assoc_map(entries_model(self.inner@))
    }
}

fn insert_all_lines(dst: &mut HashSet<u32>, src: &HashSet<u32>)
    ensures
        final(dst)@ == old(dst)@.union(src@),
{
    let ghost base = dst@;
    for x in it: src.iter()
        invariant
            it.seq().unref().to_set() == src@,
            dst@ == base.union(it.seq().take(it.index() as int).unref().to_set()),
            it.index() == it.seq().len() ==> dst@ == base.union(src@),
    {
        let ghost before = it.seq().take(it.index() as int).unref();
        dst.insert(*x);
        proof {
            let n = it.index() + 1;
            let after = it.seq().take(n).unref();
            assert(after =~= before.push(*x));
            assert(after.to_set() =~= before.to_set().insert(*x)) by {
                assert forall|y: u32| after.to_set().contains(y) <==> before.to_set().insert(*x).contains(y) by {
                    if after.contains(y) {
                        let j = choose|j: int| 0 <= j < after.len() && after[j] == y;
                        if j < before.len() { assert(before[j] == y); }
                    }
                    if before.contains(y) {
                        let j = choose|j: int| 0 <= j < before.len() && before[j] == y;
                        assert(after[j] == y);
                    }
                    if y == *x { assert(after[before.len() as int] == y); }
                }
            }
            assert(it.seq().take(it.seq().len() as int) =~= it.seq());
        }
    }
}

/// The keys of the first pairs of a map's iteration.
pub open spec fn pair_keys(s: Seq<(u32, bool)>) -> Set<u32> {
    s.map_values(|p: (u32, bool)| p.0).to_set()
}

fn insert_all_branches(dst: &mut HashMap<u32, bool>, src: &HashMap<u32, bool>)
    ensures
        final(dst)@ == old(dst)@.union_prefer_right(src@),
{
    let ghost base = dst@;
    for (k, v) in it: src.iter()
        invariant
            it.seq().unref().to_set() == src@.kv_pairs(),
            dst@ == base.union_prefer_right(src@.restrict(pair_keys(it.seq().take(it.index() as int).unref()))),
            it.index() == it.seq().len() ==> dst@ == base.union_prefer_right(src@),
    {
        let ghost before = it.seq().take(it.index() as int).unref();
        proof {
            assert(it.seq().unref()[it.index() as int] == (*k, *v));
            assert(it.seq().unref().to_set().contains((*k, *v)));
            assert(src@.kv_pairs().contains((*k, *v)));
        }
        dst.insert(*k, *v);
        proof {
            let n = it.index() + 1;
            let after = it.seq().take(n).unref();
            assert(after =~= before.push((*k, *v)));
            assert(pair_keys(after) =~= pair_keys(before).insert(*k)) by {
                assert(after.map_values(|p: (u32, bool)| p.0) =~= before.map_values(|p: (u32, bool)| p.0).push(*k));
                let a = after.map_values(|p: (u32, bool)| p.0);
                let b = before.map_values(|p: (u32, bool)| p.0);
                assert forall|y: u32| a.to_set().contains(y) <==> b.to_set().insert(*k).contains(y) by {
                    if a.contains(y) {
                        let j = choose|j: int| 0 <= j < a.len() && a[j] == y;
                        if j < b.len() { assert(b[j] == y); }
                    }
                    if b.contains(y) {
                        let j = choose|j: int| 0 <= j < b.len() && b[j] == y;
                        assert(a[j] == y);
                    }
                    if y == *k { assert(a[b.len() as int] == y); }
                }
            }
            assert(dst@ =~= base.union_prefer_right(src@.restrict(pair_keys(after))));
            let all = it.seq().unref();
            assert(it.seq().take(it.seq().len() as int) =~= it.seq());
            assert(src@.restrict(pair_keys(all)) =~= src@) by {
                assert forall|key: u32| src@.contains_key(key) implies pair_keys(all).contains(key) by {
                    assert(src@.kv_pairs().contains((key, src@[key])));
                    assert(all.to_set().contains((key, src@[key])));
                    let j = choose|j: int| 0 <= j < all.len() && all[j] == (key, src@[key]);
                    assert(all.map_values(|p: (u32, bool)| p.0)[j] == key);
                }
                assert forall|key: u32| pair_keys(all).contains(key) implies src@.contains_key(key) by {
                    let a = all.map_values(|p: (u32, bool)| p.0);
                    let j = choose|j: int| 0 <= j < a.len() && a[j] == key;
                    assert(all.to_set().contains(all[j]));
                }
            }
        }
    }
}

fn set_to_sorted_vec(s: &HashSet<u32>) -> (r: Vec<u32>)
    ensures
        r@.to_set() == s@,
        strictly_increasing(r@),
{
    let mut r: Vec<u32> = Vec::new();
    for x in it: s.iter()
        invariant
            it.seq().unref().to_set() == s@,
            it.seq().no_duplicates(),
            strictly_increasing(r@),
            r@.to_set() == it.seq().take(it.index() as int).unref().to_set(),
            it.index() == it.seq().len() ==> r@.to_set() == s@,
    {
        let ghost before = it.seq().take(it.index() as int).unref();
        proof {
            assert(!before.contains(*x)) by {
                if before.contains(*x) {
                    let j = choose|j: int| 0 <= j < before.len() && before[j] == *x;
                    assert(it.seq()[j] == it.seq()[it.index() as int]);
                }
            }
            assert(!r@.to_set().contains(*x));
        }
        insert_sorted(&mut r, *x);
        proof {
            let n = it.index() + 1;
            let after = it.seq().take(n).unref();
            assert(after =~= before.push(*x));
            assert(after.to_set() =~= before.to_set().insert(*x)) by {
                assert forall|y: u32| after.to_set().contains(y) <==> before.to_set().insert(*x).contains(y) by {
                    if after.contains(y) {
                        let j = choose|j: int| 0 <= j < after.len() && after[j] == y;
                        if j < before.len() { assert(before[j] == y); }
                    }
                    if before.contains(y) {
                        let j = choose|j: int| 0 <= j < before.len() && before[j] == y;
                        assert(after[j] == y);
                    }
                    if y == *x { assert(after[before.len() as int] == y); }
                }
            }
            assert(it.seq().take(it.seq().len() as int) =~= it.seq());
        }
    }
    r
}

fn insert_sorted(v: &mut Vec<u32>, x: u32)
    requires
        strictly_increasing(old(v)@),
        !old(v)@.to_set().contains(x),
    ensures
        strictly_increasing(final(v)@),
        final(v)@.to_set() == old(v)@.to_set().insert(x),
{
    let mut j = v.len();
    while j > 0 && v[j - 1] > x
        invariant
            j <= v.len(),
            v@ == old(v)@,
            forall|i: int| j <= i < v.len() ==> v@[i] > x,
        decreases j,
    {
        j = j - 1;
    }
    proof {
        if j > 0 {
            assert(v@[j - 1] != x) by { assert(v@.contains(v@[j - 1])); }
        }
    }
    let ghost before = v@;
    v.insert(j, x);
    proof {
        assert forall|a: int, b: int| 0 <= a < b < v@.len() implies v@[a] < v@[b] by {
            if a < j && b < j {
                assert(v@[a] == before[a] && v@[b] == before[b]);
            } else if a < j && b == j {
                assert(v@[a] == before[a]);
                assert(before[a] <= before[j - 1]);
            } else if a < j {
                assert(v@[a] == before[a] && v@[b] == before[b - 1]);
            } else if a == j {
                assert(v@[b] == before[b - 1]);
            } else {
                assert(v@[a] == before[a - 1] && v@[b] == before[b - 1]);
            }
        }
        assert forall|y: u32| v@.to_set().contains(y) <==> before.to_set().insert(x).contains(y) by {
            if v@.contains(y) {
                let i = choose|i: int| 0 <= i < v@.len() && v@[i] == y;
                if i < j { assert(before[i] == y); } else if i > j { assert(before[i - 1] == y); }
            }
            if before.contains(y) {
                let i = choose|i: int| 0 <= i < before.len() && before[i] == y;
                if i < j { assert(v@[i] == y); } else { assert(v@[i + 1] == y); }
            }
            if y == x { assert(v@[j as int] == y); }
        }
        assert(v@.to_set() =~= before.to_set().insert(x));
    }
}

proof fn lemma_merge_empty(a: Map<PathKey, FileCoverageView>)
    ensures
        merge_views(a, Map::empty()) == a,
{
    assert forall|k: PathKey| a.contains_key(k) implies #[trigger] merge_views(a, Map::empty())[k] == a[k] by {
        assert(a[k].0.union(Set::<u32>::empty()) =~= a[k].0);
        assert(a[k].1.union_prefer_right(Map::<u32, bool>::empty()) =~= a[k].1);
    }
    assert(merge_views(a, Map::empty()) =~= a);
}

impl CoverageMatrix {
    #[verifier::type_invariant]
    spec fn files_distinct(self) -> bool {
        keys_distinct(entries_model(self.inner@))
    }

    fn find(&self, file: &str) -> (r: Option<usize>)
        ensures
            match r {
                Some(i) => i < self.inner@.len() && entries_model(self.inner@)[i as int].0 == path_components(file@),
                None => forall|i: int| 0 <= i < self.inner@.len() ==> (#[trigger] entries_model(self.inner@)[i]).0 != path_components(file@),
            },
    {
        for i in 0..self.inner.len()
            invariant
                forall|k: int| 0 <= k < i ==> (#[trigger] entries_model(self.inner@)[k]).0 != path_components(file@),
        {
            if same_path(self.inner[i].0.as_str(), file) {
                return Some(i);
            }
        }
        None
    }

    /// Records one gap.
    fn record(&mut self, g: &CoverageGap)
        ensures
            final(self)@ == record_gap(old(self)@, *g),
    {
        proof { use_type_invariant(&*self); }
        let ghost m = entries_model(self.inner@);
        let ghost k = path_components(g.file_path@);
        proof { lemma_assoc_lookup(m, k); }
        let found = self.find(g.file_path.as_str());
        let mut inner: Vec<(String, FileCoverage)> = Vec::new();
        std::mem::swap(&mut inner, &mut self.inner);
        match found {
            Some(i) => {
                let (name, mut fc) = inner.remove(i);
                let ghost old_fc = fc@;
                proof { assert(m[i as int] == (k, old_fc)); }
                fc.lines.insert(g.line);
                if g.is_branch {
                    fc.branches.insert(g.line, false);
                }
                let ghost new_fc = fc@;
                inner.insert(i, (name, fc));
                proof {
                    lemma_assoc_update(m, i as int, new_fc);
                    assert(entries_model(inner@) =~= m.update(i as int, (m[i as int].0, new_fc)));
                    assert(new_fc == (old_fc.0.insert(g.line), if g.is_branch { old_fc.1.insert(g.line, false) } else { old_fc.1 }));
                }
                self.inner = inner;
            },
            None => {
                let mut fc = FileCoverage { lines: HashSet::new(), branches: HashMap::new() };
                fc.lines.insert(g.line);
                if g.is_branch {
                    fc.branches.insert(g.line, false);
                }
                let ghost new_fc = fc@;
                proof {
                    assert forall|j: int| 0 <= j < m.len() implies (#[trigger] m[j]).0 != k by {}
                    lemma_assoc_push(m, k, new_fc);
                    assert(new_fc == (Set::<u32>::empty().insert(g.line), if g.is_branch { Map::<u32, bool>::empty().insert(g.line, false) } else { Map::<u32, bool>::empty() }));
                }
                inner.push((g.file_path.clone(), fc));
                proof { assert(entries_model(inner@) =~= m.push((k, new_fc))); }
                self.inner = inner;
            },
        }
    }

    /// The matrix of the given gaps: each gap's line is uncovered in its file, and a branch
    /// gap records its branch as not taken.
    pub fn from_gaps(gaps: &[CoverageGap]) -> (r: Self)
        ensures
            r@ == record_gaps(gaps@),
    {
        let mut r = CoverageMatrix { inner: Vec::new() };
        proof { assert(entries_model(r.inner@) =~= Seq::<(PathKey, FileCoverageView)>::empty()); }
        for i in 0..gaps.len()
            invariant
                r@ == record_gaps(gaps@.take(i as int)),
        {
            proof { assert(gaps@.take(i + 1).drop_last() =~= gaps@.take(i as int)); }
            r.record(&gaps[i]);
        }
        proof { assert(gaps@.take(gaps@.len() as int) =~= gaps@); }
        r
    }

    /// Whether a line of a file is covered: true unless the matrix records it as uncovered,
    /// and so true for a file the matrix does not know.
    pub fn is_covered(&self, file: &str, line: u32) -> (r: bool)
        ensures
            r == covered(self@, file@, line),
    {
        proof { use_type_invariant(self); }
        let ghost m = entries_model(self.inner@);
        proof { lemma_assoc_lookup(m, path_components(file@)); }
        match self.find(file) {
            Some(i) => {
                proof { assert(m[i as int].1 == self.inner@[i as int].1@); }
                !self.inner[i].1.lines.contains(&line)
            },
            None => true,
        }
    }

    /// The uncovered lines of a file in increasing order; none for a file the matrix does not
    /// know.
    pub fn uncovered_lines(&self, file: &str) -> (r: Vec<u32>)
        ensures
            strictly_increasing(r@),
            r@.to_set() == entry_or_empty(self@, path_components(file@)).0,
    {
        proof { use_type_invariant(self); }
        let ghost m = entries_model(self.inner@);
        proof { lemma_assoc_lookup(m, path_components(file@)); }
        match self.find(file) {
            Some(i) => {
                proof { assert(m[i as int].1 == self.inner@[i as int].1@); }
                set_to_sorted_vec(&self.inner[i].1.lines)
            },
            None => {
                let r: Vec<u32> = Vec::new();
                proof { assert(r@.to_set() =~= Set::<u32>::empty()); }
                r
            },
        }
    }

    /// The mutants on covered lines, in order: a mutant on a line the tests never run
    /// cannot be killed, so it is not worth reporting.
    pub fn filter_mutant_targets(&self, mutants: &[SurvivingMutant]) -> (r: Vec<SurvivingMutant>)
        ensures
            r@ == mutants@.filter(|m: SurvivingMutant| covered(self@, m.file_path@, m.line)),
    {
        let ghost f = |m: SurvivingMutant| covered(self@, m.file_path@, m.line);
        let mut r: Vec<SurvivingMutant> = Vec::new();
        for i in 0..mutants.len()
            invariant
                f == (|m: SurvivingMutant| covered(self@, m.file_path@, m.line)),
                r@ == mutants@.take(i as int).filter(f),
        {
            proof {
                reveal(Seq::filter);
                assert(mutants@.take(i + 1).drop_last() =~= mutants@.take(i as int));
            }
            if self.is_covered(mutants[i].file_path.as_str(), mutants[i].line) {
                r.push(mutants[i].clone());
            }
        }
        proof { assert(mutants@.take(mutants@.len() as int) =~= mutants@); }
        r
    }

    /// Forgets what the matrix records for a file.
    pub fn remove_file(&mut self, file: &str)
        ensures
            final(self)@ == old(self)@.remove(path_components(file@)),
    {
        proof { use_type_invariant(&*self); }
        let ghost m = entries_model(self.inner@);
        let ghost k = path_components(file@);
        proof { lemma_assoc_lookup(m, k); }
        match self.find(file) {
            Some(i) => {
                let mut inner: Vec<(String, FileCoverage)> = Vec::new();
                std::mem::swap(&mut inner, &mut self.inner);
                let _removed = inner.remove(i);
                proof {
                    lemma_assoc_remove(m, i as int);
                    assert(entries_model(inner@) =~= m.remove(i as int));
                }
                self.inner = inner;
            },
            None => {
                proof {
                    assert forall|j: int| 0 <= j < m.len() implies (#[trigger] m[j]).0 != k by {}
                    assert(assoc_map(m).remove(k) =~= assoc_map(m));
                }
            },
        }
    }

    /// Adds the coverage of one file to what the matrix records for it.
    fn absorb(&mut self, name: String, fc: FileCoverage)
        ensures
            final(self)@ == old(self)@.insert(
                path_components(name@),
                (entry_or_empty(old(self)@, path_components(name@)).0.union(fc@.0),
                 entry_or_empty(old(self)@, path_components(name@)).1.union_prefer_right(fc@.1)),
            ),
    {
        proof { use_type_invariant(&*self); }
        let ghost m = entries_model(self.inner@);
        let ghost k = path_components(name@);
        proof { lemma_assoc_lookup(m, k); }
        let found = self.find(name.as_str());
        let mut inner: Vec<(String, FileCoverage)> = Vec::new();
        std::mem::swap(&mut inner, &mut self.inner);
        match found {
            Some(i) => {
                let (n, mut e) = inner.remove(i);
                let ghost old_e = e@;
                proof { assert(m[i as int] == (k, old_e)); }
                insert_all_lines(&mut e.lines, &fc.lines);
                insert_all_branches(&mut e.branches, &fc.branches);
                let ghost new_e = e@;
                inner.insert(i, (n, e));
                proof {
                    lemma_assoc_update(m, i as int, new_e);
                    assert(entries_model(inner@) =~= m.update(i as int, (m[i as int].0, new_e)));
                }
                self.inner = inner;
            },
            None => {
                let mut e = FileCoverage { lines: HashSet::new(), branches: HashMap::new() };
                insert_all_lines(&mut e.lines, &fc.lines);
                insert_all_branches(&mut e.branches, &fc.branches);
                let ghost new_e = e@;
                proof {
                    assert forall|j: int| 0 <= j < m.len() implies (#[trigger] m[j]).0 != k by {}
                    lemma_assoc_push(m, k, new_e);
                }
                inner.push((name, e));
                proof { assert(entries_model(inner@) =~= m.push((k, new_e))); }
                self.inner = inner;
            },
        }
    }

    /// Adds everything `other` records to this matrix: per file, the union of the uncovered
    /// lines, with `other`'s branch outcomes taking precedence.
    pub fn merge(&mut self, other: CoverageMatrix)
        ensures
            final(self)@ == merge_views(old(self)@, other@),
    {
        proof { use_type_invariant(&other); }
        let ghost a = self@;
        let ghost om = entries_model(other.inner@);
        let CoverageMatrix { inner } = other;
        let mut rest = inner;
        let ghost n = om.len();
        proof {
            assert(om.subrange(0, n as int) =~= om);
            assert(om.subrange(0, 0) =~= Seq::<(PathKey, FileCoverageView)>::empty());
            lemma_merge_empty(a);
        }
        while rest.len() > 0
            invariant
                n == om.len(),
                keys_distinct(om),
                entries_model(rest@) == om.subrange(n - rest@.len(), n as int),
                rest@.len() <= n,
                self@ == merge_views(a, assoc_map(om.subrange(0, n - rest@.len()))),
            decreases rest@.len(),
        {
            let ghost done = om.subrange(0, n - rest@.len());
            let ghost j = n - rest@.len();
            let ghost rest_before = rest@;
            let (name, fc) = rest.remove(0);
            let ghost key = path_components(name@);
            let ghost fv = fc@;
            proof {
                assert(rest_before[0] == (name, fc));
                assert(entries_model(rest_before)[0] == (key, fv));
                assert(om[j] == (key, fv)) by {
                    assert(entries_model(rest_before)[0] == om.subrange(j, n as int)[0]);
                }
                assert(entries_model(rest@) =~= om.subrange(j + 1, n as int)) by {
                    assert forall|i: int| 0 <= i < rest@.len() implies #[trigger] entries_model(rest@)[i] == om.subrange(j + 1, n as int)[i] by {
                        assert(rest@[i] == rest_before[i + 1]);
                        assert(entries_model(rest_before)[i + 1] == om.subrange(j, n as int)[i + 1]);
                    }
                }
                let next = om.subrange(0, j + 1);
                assert(next =~= done.push((key, fv)));
                assert(keys_distinct(done)) by {
                    assert forall|p: int, q: int| 0 <= p < q < done.len() implies (#[trigger] done[p]).0 != (#[trigger] done[q]).0 by {
                        assert(done[p] == om[p] && done[q] == om[q]);
                    }
                }
                lemma_assoc_lookup(done, key);
                assert forall|p: int| 0 <= p < done.len() implies (#[trigger] done[p]).0 != key by {
                    assert(done[p] == om[p]);
                }
                assert(assoc_map(next) == assoc_map(done).insert(key, fv)) by {
                    assert(next.drop_last() =~= done);
                }
            }
            self.absorb(name, fc);
            proof {
                let done_m = assoc_map(done);
                let next_m = done_m.insert(key, fv);
                assert(!done_m.contains_key(key));
                assert(self@ =~= merge_views(a, next_m)) by {
                    assert forall|x: PathKey| #[trigger] self@.contains_key(x) <==> merge_views(a, next_m).contains_key(x) by {}
                    assert forall|x: PathKey| self@.contains_key(x) implies #[trigger] self@[x] == merge_views(a, next_m)[x] by {
                        if x == key {
                            let e0 = entry_or_empty(a, key);
                            assert(entry_or_empty(merge_views(a, done_m), key) == e0) by {
                                if a.contains_key(key) {} else {
                                    assert(e0.0.union(Set::<u32>::empty()) =~= e0.0);
                                    assert(e0.1.union_prefer_right(Map::<u32, bool>::empty()) =~= e0.1);
                                }
                            }
                            if !a.contains_key(key) {
                                assert(e0.0.union(fv.0) =~= Set::<u32>::empty().union(fv.0));
                            }
                        }
                    }
                }
            }
        }
        proof { assert(om.subrange(0, n as int) =~= om); }
    }
}

/// Some gap of `gaps` lies on line `line` of the file `file`.
pub open spec fn has_gap_at(gaps: Seq<CoverageGap>, file: Seq<char>, line: u32) -> bool {
    exists|i: int| 0 <= i < gaps.len() && path_components((#[trigger] gaps[i]).file_path@) == path_components(file)
        && gaps[i].line == line
}

/// A line is uncovered in the matrix of some gaps exactly when one of the gaps lies on it.
pub proof fn law_from_gaps_uncovered(gaps: Seq<CoverageGap>, file: Seq<char>, line: u32)
    ensures
        !covered(record_gaps(gaps), file, line) <==> has_gap_at(gaps, file, line),
    decreases gaps.len(),
{
    if gaps.len() > 0 {
        let gp = gaps.drop_last();
        law_from_gaps_uncovered(gp, file, line);
        let g = gaps.last();
        if has_gap_at(gp, file, line) {
            let i = choose|i: int| 0 <= i < gp.len() && path_components((#[trigger] gp[i]).file_path@) == path_components(file)
                && gp[i].line == line;
            assert(gaps[i] == gp[i]);
        }
        if has_gap_at(gaps, file, line) {
            let i = choose|i: int| 0 <= i < gaps.len() && path_components((#[trigger] gaps[i]).file_path@) == path_components(file)
                && gaps[i].line == line;
            if i < gp.len() {
                assert(gp[i] == gaps[i]);
            }
        }
        if path_components(g.file_path@) == path_components(file) && g.line == line {
            assert(gaps[gaps.len() - 1] == g);
        }
    }
}

/// In the merge of two matrices a line is uncovered exactly when it is uncovered in either.
pub proof fn law_merge_uncovered(a: Map<PathKey, FileCoverageView>, b: Map<PathKey, FileCoverageView>, file: Seq<char>, line: u32)
    ensures
        covered(merge_views(a, b), file, line) <==> covered(a, file, line) && covered(b, file, line),
{
}

/// Merging keeps every file of both matrices and no other.
pub proof fn law_merge_files(a: Map<PathKey, FileCoverageView>, b: Map<PathKey, FileCoverageView>)
    ensures
        merge_views(a, b).dom() == a.dom().union(b.dom()),
{
    assert(merge_views(a, b).dom() =~= a.dom().union(b.dom()));
}

/// After a file is removed all its lines count as covered, and every other file is as it was.
pub proof fn law_remove_file_covered(m: Map<PathKey, FileCoverageView>, removed: Seq<char>, file: Seq<char>, line: u32)
    ensures
        path_components(file) == path_components(removed) ==> covered(m.remove(path_components(removed)), file, line),
        path_components(file) != path_components(removed) ==> covered(m.remove(path_components(removed)), file, line) == covered(m, file, line),
{
}

/// A matrix with no gaps counts every line as covered.
pub proof fn law_empty_matrix_covers_all(file: Seq<char>, line: u32)
    ensures
        covered(record_gaps(Seq::empty()), file, line),
{
}

/// The uncovered lines listed for a file are exactly the lines that do not count as covered.
pub proof fn law_uncovered_lines_agree(m: Map<PathKey, FileCoverageView>, file: Seq<char>, line: u32)
    ensures
        entry_or_empty(m, path_components(file)).0.contains(line) <==> !covered(m, file, line),
{
}

} // verus!
