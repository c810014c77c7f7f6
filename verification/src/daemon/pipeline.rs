//! The decisions of the daemon's pipeline: which changed files it looks at, which gaps and
//! mutants belong to a file, what it stores, and what it answers a client.

use crate::ctl::coverage::CoverageGap;
use crate::ctl::diagnostic::{
    coverage_to_diagnostics, gap_columns_fit, mutant_columns_fit, mutant_to_diagnostics, reports_gap, reports_mutant,
    Diagnostic, DiagnosticEntry,
};
use crate::ctl::mutation::MutationReport;
use crate::daemon::matrix::{covered, record_gaps, CoverageMatrix};
use crate::daemon::mut_parse::opt_text;
use crate::paths::{components_exec, path_components, same_path, ComponentModel};
use crate::text::{chars_contain, chars_of, contains_seq, last_index_of};
use vstd::prelude::*;

verus! {

/// The file name of a path: its last component, when that is a plain name.
pub open spec fn file_name(p: Seq<char>) -> Option<Seq<char>> {
    let cs = path_components(p);
    if cs.len() > 0 && cs.last().0 == 4 { Some(cs.last().1) } else { None }
}

/// The extension of a path, as `Path::extension` documents it: the part of the file name after
/// its last `.`, unless there is no file name, no `.`, or only a leading one.
pub open spec fn extension(p: Seq<char>) -> Option<Seq<char>> {
    match file_name(p) {
        Some(n) => {
            let k = last_index_of(n, '.');
            if k > 0 { Some(n.subrange(k + 1, n.len() as int)) } else { None }
        },
        None => None,
    }
}

/// `a` ends with the components `b`.
pub open spec fn ends_with_components(a: Seq<ComponentModel>, b: Seq<ComponentModel>) -> bool {
    b.len() <= a.len() && a.subrange(a.len() - b.len(), a.len() as int) == b
}

/// `a` starts with the components `b`.
pub open spec fn starts_with_components(a: Seq<ComponentModel>, b: Seq<ComponentModel>) -> bool {
    b.len() <= a.len() && a.take(b.len() as int) == b
}

/// What `Path::strip_prefix` gives for a path and a base, when it gives anything.
pub uninterp spec fn stripped_path(path: Seq<char>, base: Seq<char>) -> Option<Seq<char>>;

/// `Path::strip_prefix`: the rest of `path` after `base`. As its documentation says, there is
/// one exactly when `base` is a prefix of `path` by whole components; what the rest is, is
/// named by `stripped_path` and not stated further.
#[verifier::external_body]
fn strip_path_prefix(path: &str, base: &str) -> (r: Option<String>)
    ensures
        opt_text(r) == stripped_path(path@, base@),
        r is Some <==> starts_with_components(path_components(path@), path_components(base@)),
{
    std::path::Path::new(path).strip_prefix(base).ok().map(|p| p.to_string_lossy().into_owned())
}

/// A path relative to the project root: the rest after the root, or the path itself when it
/// does not lie below the root.
pub open spec fn relative_to(path: Seq<char>, root: Seq<char>) -> Seq<char> {
    match stripped_path(path, root) {
        Some(r) => r,
        None => path,
    }
}

/// A path relative to the project root: the rest after the root, or the path itself when it
/// does not lie below the root.
pub fn relative_path(path: &str, root: &str) -> (r: String)
    ensures
        r@ == relative_to(path@, root@),
{
    match strip_path_prefix(path, root) {
        Some(rest) => rest,
        None => String::from_str(path),
    }
}

/// Whether a path's extension is `rs`.
pub fn is_rust_source(path: &str) -> (r: bool)
    ensures
        r == (extension(path@) == Some("rs"@)),
{
    let cs = components_exec(path);
    let n = cs.len();
    proof { reveal_strlit("rs"); }
    if n == 0 || cs[n - 1].0 != 4 {
        return false;
    }
    let name = &cs[n - 1].1;
    proof { assert(name@ == path_components(path@).last().1); }
    proof { assert(name@.take(name@.len() as int) =~= name@); }
    match crate::text::last_index(name.as_slice(), name.len(), '.') {
        Some(k) => {
            if k == 0 {
                return false;
            }
            let m = name.len();
            let ok = m - k == 3 && name[k + 1] == 'r' && name[k + 2] == 's';
            proof {
                let ext = name@.subrange(k + 1, m as int);
                if ok { assert(ext =~= "rs"@); } else if ext.len() == 2 { assert(!(ext[0] == 'r' && ext[1] == 's')); }
            }
            ok
        },
        None => false,
    }
}

/// Whether the components of `a` end with those of `b`, as `Path::ends_with` compares.
pub fn ends_with_path(a: &str, b: &str) -> (r: bool)
    ensures
        r == ends_with_components(path_components(a@), path_components(b@)),
{
    let x = components_exec(a);
    let y = components_exec(b);
    let ghost xs = path_components(a@);
    let ghost ys = path_components(b@);
    if y.len() > x.len() {
        return false;
    }
    let off = x.len() - y.len();
    for i in 0..y.len()
        invariant
            xs == path_components(a@),
            ys == path_components(b@),
            x@.len() == xs.len(),
            y@.len() == ys.len(),
            off + y@.len() == x@.len(),
            x@.len() <= usize::MAX,
            forall|k: int| 0 <= k < x@.len() ==> (#[trigger] x@[k]).0 as int == xs[k].0 && x@[k].1@ == xs[k].1,
            forall|k: int| 0 <= k < y@.len() ==> (#[trigger] y@[k]).0 as int == ys[k].0 && y@[k].1@ == ys[k].1,
            forall|k: int| 0 <= k < i ==> xs[off + k] == ys[k],
    {
        let ghost xi = xs[off + i];
        let ghost yi = ys[i as int];
        proof {
            assert(x@[off + i].0 as int == xi.0 && x@[off + i].1@ == xi.1);
            assert(y@[i as int].0 as int == yi.0 && y@[i as int].1@ == yi.1);
        }
        proof { assert(off + i < x@.len()); }
        if x[off + i].0 != y[i].0 || !crate::text::chars_eq(x[off + i].1.as_slice(), y[i].1.as_slice()) {
            proof {
                assert(xi != yi);
                assert(xs.subrange(off as int, xs.len() as int)[i as int] == xi);
            }
            return false;
        }
        proof { assert(xi == yi); }
    }
    proof {
        assert(xs.subrange(off as int, xs.len() as int) =~= ys) by {
            assert forall|k: int| 0 <= k < ys.len() implies xs.subrange(off as int, xs.len() as int)[k] == ys[k] by {
                assert(xs[off + k] == ys[k]);
            }
        }
    }
    true
}

/// A gap lies in the changed file `file`: its path relative to the root is that file, or the
/// file's path ends with it.
pub open spec fn gap_in_file(gap_path: Seq<char>, root: Seq<char>, file: Seq<char>) -> bool {
    let rel = relative_to(gap_path, root);
    path_components(rel) == path_components(file) || ends_with_components(path_components(file), path_components(rel))
}

/// The gaps that lie in the changed file `file`, in order.
pub fn gaps_for_file(gaps: &[CoverageGap], root: &str, file: &str) -> (r: Vec<CoverageGap>)
    ensures
        r@ == gaps@.filter(|g: CoverageGap| gap_in_file(g.file_path@, root@, file@)),
{
    let ghost f = |g: CoverageGap| gap_in_file(g.file_path@, root@, file@);
    let mut r: Vec<CoverageGap> = Vec::new();
    for i in 0..gaps.len()
        invariant
            f == (|g: CoverageGap| gap_in_file(g.file_path@, root@, file@)),
            r@ == gaps@.take(i as int).filter(f),
    {
        proof {
            reveal(Seq::filter);
            assert(gaps@.take(i + 1).drop_last() =~= gaps@.take(i as int));
        }
        let rel = relative_path(gaps[i].file_path.as_str(), root);
        if same_path(rel.as_str(), file) || ends_with_path(file, rel.as_str()) {
            r.push(gaps[i].clone());
        }
    }
    proof { assert(gaps@.take(gaps@.len() as int) =~= gaps@); }
    r
}

/// The path by which the pipeline reports a changed file, when it looks at it at all: only
/// Rust sources count, named relative to the project root.
pub fn scoped_target(file: &str, root: &str) -> (r: Option<String>)
    ensures
        match r {
            Some(rel) => extension(file@) == Some("rs"@) && rel@ == relative_to(file@, root@),
            None => extension(file@) != Some("rs"@),
        },
{
    if is_rust_source(file) { Some(relative_path(file, root)) } else { None }
}

/// The file a changed file's mutation run is limited to, if the run happens at all: it runs
/// only for a Rust source and only after the coverage run succeeded, limited to the file's path
/// relative to the project root.
pub fn mutation_run_for(file: &str, root: &str, coverage_succeeded: bool) -> (r: Option<String>)
    ensures
        match r {
            Some(rel) => coverage_succeeded && extension(file@) == Some("rs"@) && rel@ == relative_to(file@, root@),
            None => !coverage_succeeded || extension(file@) != Some("rs"@),
        },
{
    if coverage_succeeded { scoped_target(file, root) } else { None }
}

/// The findings for a changed file: a warning per gap in it, then, when the mutation run
/// succeeded, a warning per surviving mutant on a covered line.
pub fn scoped_findings(file_gaps: &[CoverageGap], matrix: &CoverageMatrix, report: Option<&MutationReport>) -> (r: Vec<Diagnostic>)
    requires
        forall|i: int| 0 <= i < file_gaps@.len() ==> gap_columns_fit(#[trigger] file_gaps@[i]),
        report matches Some(rep) ==> forall|i: int| 0 <= i < rep.mutants@.len() ==> mutant_columns_fit(#[trigger] rep.mutants@[i]),
    ensures
        r@.len() >= file_gaps@.len(),
        forall|i: int| 0 <= i < file_gaps@.len() ==> reports_gap(#[trigger] file_gaps@[i], r@[i]),
        match report {
            Some(rep) => {
                let kept = rep.mutants@.filter(|m: crate::ctl::mutation::SurvivingMutant| covered(matrix@, m.file_path@, m.line));
                &&& r@.len() == file_gaps@.len() + kept.len()
                &&& forall|j: int| 0 <= j < kept.len() ==> reports_mutant(#[trigger] kept[j], r@[file_gaps@.len() + j])
            },
            None => r@.len() == file_gaps@.len(),
        },
{
    let mut r = coverage_to_diagnostics(file_gaps);
    match report {
        Some(rep) => {
            let kept = matrix.filter_mutant_targets(rep.mutants.as_slice());
            proof {
                assert forall|i: int| 0 <= i < kept@.len() implies mutant_columns_fit(#[trigger] kept@[i]) by {
                    let f = |m: crate::ctl::mutation::SurvivingMutant| covered(matrix@, m.file_path@, m.line);
                    rep.mutants@.lemma_filter_contains_rev(f, kept@[i]);
                    assert(kept@.contains(kept@[i]));
                    let k = choose|k: int| 0 <= k < rep.mutants@.len() && rep.mutants@[k] == kept@[i];
                    assert(mutant_columns_fit(rep.mutants@[k]));
                }
            }
            let mut more = mutant_to_diagnostics(kept.as_slice());
            let ghost first = r@;
            let ghost second = more@;
            r.append(&mut more);
            proof {
                assert(r@ == first + second);
                assert forall|j: int| 0 <= j < kept@.len() implies reports_mutant(#[trigger] kept@[j], r@[file_gaps@.len() + j]) by {
                    assert(r@[file_gaps@.len() + j] == second[j]);
                }
                assert forall|i: int| 0 <= i < file_gaps@.len() implies reports_gap(#[trigger] file_gaps@[i], r@[i]) by {
                    assert(r@[i] == first[i]);
                }
            }
        },
        None => {},
    }
    r
}

/// What the file-scoped pipeline does to the cache for a changed file.
#[derive(Debug)]
pub enum ScopedUpdate {
    /// Drop the file's cached entry.
    Invalidate(String),
    /// Store these findings as the file's entry.
    Store(String, Vec<Diagnostic>),
}

/// The surviving mutants of a report that lie on lines the matrix of `gaps` covers.
pub open spec fn kept_mutants(gaps: Seq<CoverageGap>, rep: MutationReport) -> Seq<crate::ctl::mutation::SurvivingMutant> {
    rep.mutants@.filter(|m: crate::ctl::mutation::SurvivingMutant| covered(record_gaps(gaps), m.file_path@, m.line))
}

/// The file-scoped pipeline's decision for a changed file, given what the coverage run gave
/// (`None` when it failed) and what the mutation run gave (`None` when it failed or did not
/// run): when coverage failed, the entry is dropped; otherwise the findings are a warning per
/// gap in the file, then one per surviving mutant on a covered line, and they are stored when
/// there are any and the entry is dropped when there are none.
pub fn file_scoped_update(file: &str, root: &str, gaps: Option<&[CoverageGap]>, report: Option<&MutationReport>) -> (r: ScopedUpdate)
    requires
        gaps matches Some(g) ==> forall|i: int| 0 <= i < g@.len() ==> gap_columns_fit(#[trigger] g@[i]),
        report matches Some(rep) ==> forall|i: int| 0 <= i < rep.mutants@.len() ==> mutant_columns_fit(#[trigger] rep.mutants@[i]),
    ensures
        match gaps {
            None => r matches ScopedUpdate::Invalidate(f) && f@ == file@,
            Some(g) => {
                let fg = g@.filter(|x: CoverageGap| gap_in_file(x.file_path@, root@, file@));
                let n_mut = match report { Some(rep) => kept_mutants(g@, *rep).len(), None => 0 };
                match r {
                    ScopedUpdate::Invalidate(f) => f@ == file@ && fg.len() + n_mut == 0,
                    ScopedUpdate::Store(f, ds) => {
                        &&& f@ == file@
                        &&& fg.len() + n_mut > 0
                        &&& ds@.len() == fg.len() + n_mut
                        &&& forall|i: int| 0 <= i < fg.len() ==> reports_gap(#[trigger] fg[i], ds@[i])
                        &&& report matches Some(rep) ==> forall|j: int| 0 <= j < n_mut
                            ==> reports_mutant(#[trigger] kept_mutants(g@, *rep)[j], ds@[fg.len() + j])
                    },
                }
            },
        },
{
    let g = match gaps {
        Some(g) => g,
        None => return ScopedUpdate::Invalidate(String::from_str(file)),
    };
    let file_gaps = gaps_for_file(g, root, file);
    proof {
        let f = |x: CoverageGap| gap_in_file(x.file_path@, root@, file@);
        assert forall|i: int| 0 <= i < file_gaps@.len() implies gap_columns_fit(#[trigger] file_gaps@[i]) by {
            g@.lemma_filter_contains_rev(f, file_gaps@[i]);
            assert(file_gaps@.contains(file_gaps@[i]));
        }
    }
    let matrix = CoverageMatrix::from_gaps(g);
    let findings = scoped_findings(file_gaps.as_slice(), &matrix, report);
    if findings.len() == 0 {
        ScopedUpdate::Invalidate(String::from_str(file))
    } else {
        ScopedUpdate::Store(String::from_str(file), findings)
    }
}

/// The findings of a full sweep: a warning per coverage gap, in order, then a warning per
/// surviving mutant on a line that the gaps leave covered, in order.
pub fn sweep_findings(gaps: &[CoverageGap], report: &MutationReport) -> (r: Vec<Diagnostic>)
    requires
        forall|i: int| 0 <= i < gaps@.len() ==> gap_columns_fit(#[trigger] gaps@[i]),
        forall|i: int| 0 <= i < report.mutants@.len() ==> mutant_columns_fit(#[trigger] report.mutants@[i]),
    ensures
        r@.len() == gaps@.len() + kept_mutants(gaps@, *report).len(),
        forall|i: int| 0 <= i < gaps@.len() ==> reports_gap(#[trigger] gaps@[i], r@[i]),
        forall|j: int| 0 <= j < kept_mutants(gaps@, *report).len()
            ==> reports_mutant(#[trigger] kept_mutants(gaps@, *report)[j], r@[gaps@.len() + j]),
{
    let matrix = CoverageMatrix::from_gaps(gaps);
    scoped_findings(gaps, &matrix, Some(report))
}

/// The entries that answer a client: those whose path contains the requested text, or all of
/// them when the client names no file.
pub open spec fn answers_request(e: DiagnosticEntry, file: Option<Seq<char>>) -> bool {
    match file {
        Some(f) => contains_seq(e.file_path@, f),
        None => true,
    }
}

/// The text a client asks for.
pub open spec fn wanted(file: Option<&str>) -> Option<Seq<char>> {
    match file {
        Some(f) => Some(f@),
        None => None,
    }
}

/// The cached entries that answer a client's request for `file`, in order.
pub fn entries_for_request(entries: &[DiagnosticEntry], file: Option<&str>) -> (r: Vec<DiagnosticEntry>)
    ensures
        r@ == entries@.filter(|e: DiagnosticEntry| answers_request(e, wanted(file))),
{
    let ghost want = wanted(file);
    let ghost p = |e: DiagnosticEntry| answers_request(e, wanted(file));
    let needle: Vec<char> = match file { Some(f) => chars_of(f), None => Vec::new() };
    let mut r: Vec<DiagnosticEntry> = Vec::new();
    for i in 0..entries.len()
        invariant
            want == wanted(file),
            p == (|e: DiagnosticEntry| answers_request(e, wanted(file))),
            file is Some ==> needle@ == want->Some_0,
            r@ == entries@.take(i as int).filter(p),
    {
        proof {
            reveal(Seq::filter);
            assert(entries@.take(i + 1).drop_last() =~= entries@.take(i as int));
        }
        let keep = match file {
            Some(_) => {
                let path = chars_of(entries[i].file_path.as_str());
                chars_contain(path.as_slice(), needle.as_slice())
            },
            None => true,
        };
        if keep {
            r.push(entries[i].clone());
        }
    }
    proof { assert(entries@.take(entries@.len() as int) =~= entries@); }
    r
}

/// The (file, finding) pairs of some findings: for each finding in order, each of its spans'
/// files.
pub open spec fn span_files(ds: Seq<Diagnostic>) -> Seq<(Seq<char>, int)>
    decreases ds.len(),
{
    if ds.len() == 0 {
        Seq::empty()
    } else {
        span_files(ds.drop_last()) + ds.last().spans@.map_values(|s: crate::ctl::diagnostic::DiagnosticSpan| (s.file_name@, (ds.len() - 1) as int))
    }
}

/// The index of the group for a file, by path components, or `-1`.
pub open spec fn group_index(gs: Seq<(Seq<char>, Seq<int>)>, name: Seq<char>) -> int
    decreases gs.len(),
{
    if gs.len() == 0 {
        -1
    } else if group_index(gs.drop_last(), name) >= 0 {
        group_index(gs.drop_last(), name)
    } else if path_components(gs.last().0) == path_components(name) {
        gs.len() - 1
    } else {
        -1
    }
}

/// The groups after one more pair: the finding joins its file's group, or starts a new one.
pub open spec fn group_step(gs: Seq<(Seq<char>, Seq<int>)>, p: (Seq<char>, int)) -> Seq<(Seq<char>, Seq<int>)> {
    let k = group_index(gs, p.0);
    if k >= 0 { gs.update(k, (gs[k].0, gs[k].1.push(p.1))) } else { gs.push((p.0, seq![p.1])) }
}

/// The findings grouped by file, files in the order they first come.
pub open spec fn groups_of(ps: Seq<(Seq<char>, int)>) -> Seq<(Seq<char>, Seq<int>)>
    decreases ps.len(),
{
    if ps.len() == 0 {
        Seq::empty()
    } else {
        group_step(groups_of(ps.drop_last()), ps.last())
    }
}

proof fn lemma_group_index(gs: Seq<(Seq<char>, Seq<int>)>, name: Seq<char>)
    ensures
        -1 <= group_index(gs, name) < gs.len(),
        group_index(gs, name) >= 0 ==> path_components(gs[group_index(gs, name)].0) == path_components(name)
            && forall|i: int| 0 <= i < group_index(gs, name) ==> path_components((#[trigger] gs[i]).0) != path_components(name),
        group_index(gs, name) < 0 ==> forall|i: int| 0 <= i < gs.len() ==> path_components((#[trigger] gs[i]).0) != path_components(name),
    decreases gs.len(),
{
    if gs.len() > 0 {
        let gp = gs.drop_last();
        lemma_group_index(gp, name);
        assert forall|i: int| 0 <= i < gp.len() implies gs[i] == #[trigger] gp[i] by {}
        if group_index(gs, name) < 0 {
            assert forall|i: int| 0 <= i < gs.len() implies path_components((#[trigger] gs[i]).0) != path_components(name) by {
                if i < gp.len() { assert(gs[i] == gp[i]); }
            }
        } else if group_index(gp, name) < 0 {
            assert forall|i: int| 0 <= i < group_index(gs, name) implies path_components((#[trigger] gs[i]).0) != path_components(name) by {
                assert(gs[i] == gp[i]);
            }
        } else {
            assert forall|i: int| 0 <= i < group_index(gs, name) implies path_components((#[trigger] gs[i]).0) != path_components(name) by {
                assert(gs[i] == gp[i]);
            }
        }
    }
}

proof fn lemma_group_index_first(gs: Seq<(Seq<char>, Seq<int>)>, name: Seq<char>, k: int)
    requires
        0 <= k < gs.len(),
        path_components(gs[k].0) == path_components(name),
        forall|i: int| 0 <= i < k ==> path_components((#[trigger] gs[i]).0) != path_components(name),
    ensures
        group_index(gs, name) == k,
    decreases gs.len(),
{
    lemma_group_index(gs, name);
    let g = group_index(gs, name);
    if g < 0 {
        assert(path_components(gs[k].0) != path_components(name));
    } else if g < k {
        assert(path_components(gs[g].0) != path_components(name));
    } else if g > k {
        assert(path_components(gs[k].0) != path_components(name));
    }
}

/// The files of some groups, as path components, in order.
pub open spec fn group_keys(gs: Seq<(Seq<char>, Seq<int>)>) -> Seq<Seq<ComponentModel>> {
    gs.map_values(|g: (Seq<char>, Seq<int>)| path_components(g.0))
}

/// The files of some (file, finding) pairs, as path components, in order.
pub open spec fn pair_keys(ps: Seq<(Seq<char>, int)>) -> Seq<Seq<ComponentModel>> {
    ps.map_values(|p: (Seq<char>, int)| path_components(p.0))
}

/// Grouping findings by file gives one group per file: no two groups are for the same file (by
/// path components), and the groups' files are exactly the files of the pairs.
pub proof fn law_groups_one_per_file(ps: Seq<(Seq<char>, int)>)
    ensures
        group_keys(groups_of(ps)).no_duplicates(),
        group_keys(groups_of(ps)).to_set() == pair_keys(ps).to_set(),
    decreases ps.len(),
{
    if ps.len() == 0 {
        assert(group_keys(groups_of(ps)) =~= Seq::<Seq<ComponentModel>>::empty());
        assert(pair_keys(ps) =~= Seq::<Seq<ComponentModel>>::empty());
    } else {
        let d = ps.drop_last();
        let p = ps.last();
        let key = path_components(p.0);
        law_groups_one_per_file(d);
        let prev = groups_of(d);
        let kp = group_keys(prev);
        lemma_group_index(prev, p.0);
        assert(pair_keys(ps) =~= pair_keys(d).push(key));
        pair_keys(d).lemma_push_to_set_commute(key);
        let ix = group_index(prev, p.0);
        if ix >= 0 {
            assert(group_keys(groups_of(ps)) =~= kp);
            assert(kp[ix] == key);
            assert(kp.to_set().contains(key));
            assert(kp.to_set().insert(key) =~= kp.to_set());
        } else {
            assert(group_keys(groups_of(ps)) =~= kp.push(key));
            assert forall|i: int| 0 <= i < kp.len() implies kp[i] != key by {
                assert(kp[i] == path_components(prev[i].0));
            }
            kp.lemma_push_to_set_commute(key);
            let q = kp.push(key);
            assert forall|i: int, j: int| 0 <= i < q.len() && 0 <= j < q.len() && i != j implies q[i] != q[j] by {
                if i < kp.len() && j < kp.len() {
                    assert(q[i] == kp[i] && q[j] == kp[j]);
                } else if i < kp.len() {
                    assert(q[i] == kp[i]);
                } else {
                    assert(q[j] == kp[j]);
                }
            }
        }
    }
}

/// The groups as plain values.
pub open spec fn groups_model(v: Seq<(String, Vec<usize>)>) -> Seq<(Seq<char>, Seq<int>)> {
    v.map_values(|g: (String, Vec<usize>)| (g.0@, g.1@.map_values(|i: usize| i as int)))
}

fn add_to_group(groups: &mut Vec<(String, Vec<usize>)>, name: &String, i: usize)
    ensures
        groups_model(final(groups)@) == group_step(groups_model(old(groups)@), (name@, i as int)),
{
    let ghost gm = groups_model(groups@);
    proof { lemma_group_index(gm, name@); }
    let mut k: usize = 0;
    while k < groups.len()
        invariant
            k <= groups@.len(),
            gm == groups_model(groups@),
            groups@ == old(groups)@,
            forall|j: int| 0 <= j < k ==> path_components((#[trigger] gm[j]).0) != path_components(name@),
        decreases groups@.len() - k,
    {
        if same_path(groups[k].0.as_str(), name.as_str()) {
            proof {
                assert(gm[k as int].0 == groups@[k as int].0@);
                lemma_group_index_first(gm, name@, k as int);
            }
            let ghost before = groups@;
            let (n, mut members) = groups.remove(k);
            members.push(i);
            groups.insert(k, (n, members));
            proof {
                assert(groups_model(groups@) =~= gm.update(k as int, (gm[k as int].0, gm[k as int].1.push(i as int)))) by {
                    assert forall|j: int| 0 <= j < groups@.len() implies #[trigger] groups_model(groups@)[j] == gm.update(k as int, (gm[k as int].0, gm[k as int].1.push(i as int)))[j] by {
                        if j == k {
                            assert(groups@[j].1@ == before[j].1@.push(i));
                            assert(groups@[j].1@.map_values(|x: usize| x as int) =~= gm[k as int].1.push(i as int));
                        } else {
                            assert(groups@[j] == before[j]);
                        }
                    }
                }
            }
            return;
        }
        proof { assert(gm[k as int].0 == groups@[k as int].0@); }
        k = k + 1;
    }
    proof { assert(group_index(gm, name@) < 0); }
    let mut members: Vec<usize> = Vec::new();
    members.push(i);
    groups.push((name.clone(), members));
    proof {
        assert(groups_model(groups@) =~= gm.push((name@, seq![i as int]))) by {
            assert(groups_model(groups@)[gm.len() as int].1 =~= seq![i as int]);
        }
    }
}

/// The findings of a full sweep grouped by the files of their spans: each file once (paths
/// compared by components), in the order the files first come, with the positions of its
/// findings, a finding once per span in the file.
pub fn group_by_file(diags: &[Diagnostic]) -> (r: Vec<(String, Vec<usize>)>)
    ensures
        groups_model(r@) == groups_of(span_files(diags@)),
{
    let mut groups: Vec<(String, Vec<usize>)> = Vec::new();
    proof { assert(groups_model(groups@) =~= Seq::<(Seq<char>, Seq<int>)>::empty()); }
    for i in 0..diags.len()
        invariant
            groups_model(groups@) == groups_of(span_files(diags@.take(i as int))),
    {
        let ghost before = span_files(diags@.take(i as int));
        let spans = &diags[i].spans;
        for j in 0..spans.len()
            invariant
                spans@ == diags@[i as int].spans@,
                groups_model(groups@) == groups_of(before + spans@.take(j as int).map_values(|s: crate::ctl::diagnostic::DiagnosticSpan| (s.file_name@, i as int))),
        {
            let ghost ps = before + spans@.take(j as int).map_values(|s: crate::ctl::diagnostic::DiagnosticSpan| (s.file_name@, i as int));
            let ghost ps2 = before + spans@.take(j + 1).map_values(|s: crate::ctl::diagnostic::DiagnosticSpan| (s.file_name@, i as int));
            proof {
                assert(ps2.drop_last() =~= ps);
                assert(ps2.last() == (spans@[j as int].file_name@, i as int));
            }
            add_to_group(&mut groups, &spans[j].file_name, i);
        }
        proof {
            assert(spans@.take(spans@.len() as int) =~= spans@);
            assert(diags@.take(i + 1).drop_last() =~= diags@.take(i as int));
            assert(diags@.take(i + 1).last() == diags@[i as int]);
            assert(diags@.take(i + 1).len() - 1 == i);
        }
    }
    proof { assert(diags@.take(diags@.len() as int) =~= diags@); }
    groups
}

} // verus!
