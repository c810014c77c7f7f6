//! The diagnostics cache: where it lives, which entries a write keeps, and how entries are
//! framed as one JSON record per line.

use crate::ctl::diagnostic::DiagnosticEntry;
use crate::paths::{path_components, same_path};
use crate::text::{chars_of, is_ws, lines, lines_of, push_all, push_str, split_nl, strip_cr, string_from_chars, trim, trim_bounds, trim_end, trim_start};
use vstd::prelude::*;

verus! {

/// `base` joined with the relative path `p`, as `Path::join` does it: a `'/'` goes between
/// them unless `base` is empty or already ends in one.
pub open spec fn join_rel(base: Seq<char>, p: Seq<char>) -> Seq<char> {
    if base.len() == 0 || base.last() == '/' { base + p } else { base + seq!['/'] + p }
}

fn push_join(out: &mut Vec<char>, p: &str)
    ensures
        final(out)@ == join_rel(old(out)@, p@),
{
    let n = out.len();
    if n > 0 && out[n - 1] != '/' {
        out.push('/');
    }
    push_str(out, p);
}

/// Where a project's diagnostics are cached, below its `target` directory.
#[derive(Debug, Clone)]
pub struct Cache {
    cache_dir: String,
}

/// Some entry of `es` is for the file `p`, paths being compared by their components.
pub open spec fn names_file(es: Seq<DiagnosticEntry>, p: Seq<char>) -> bool {
    exists|i: int| 0 <= i < es.len() && path_components((#[trigger] es[i]).file_path@) == path_components(p)
}

/// Some path of `files` is the path `p`, compared by components.
pub open spec fn lists_file(files: Seq<String>, p: Seq<char>) -> bool {
    exists|i: int| 0 <= i < files.len() && path_components((#[trigger] files[i])@) == path_components(p)
}

/// The entries that a write of `new_entries` keeps: those for other files, in order, then the
/// new ones.
pub open spec fn upserted(existing: Seq<DiagnosticEntry>, new_entries: Seq<DiagnosticEntry>) -> Seq<DiagnosticEntry> {
    existing.filter(|e: DiagnosticEntry| !names_file(new_entries, e.file_path@)) + new_entries
}

/// The entries that remain when the files `files` are invalidated.
pub open spec fn invalidated(entries: Seq<DiagnosticEntry>, files: Seq<String>) -> Seq<DiagnosticEntry> {
    entries.filter(|e: DiagnosticEntry| !lists_file(files, e.file_path@))
}

/// The records of a file of one record per line: its lines, trimmed, without the blank ones.
pub open spec fn records_of(text: Seq<char>) -> Seq<Seq<char>> {
    lines(text).map_values(|l: Seq<char>| trim(l)).filter(|l: Seq<char>| l.len() > 0)
}

/// The text that holds `records`, each on a line of its own.
pub open spec fn framed(records: Seq<Seq<char>>) -> Seq<char>
    decreases records.len(),
{
    if records.len() == 0 {
        Seq::empty()
    } else {
        framed(records.drop_last()) + records.last() + seq!['\n']
    }
}

fn entry_in(es: &[DiagnosticEntry], p: &str) -> (r: bool)
    ensures
        r == names_file(es@, p@),
{
    for i in 0..es.len()
        invariant
            forall|k: int| 0 <= k < i ==> path_components((#[trigger] es@[k]).file_path@) != path_components(p@),
    {
        if same_path(es[i].file_path.as_str(), p) {
            return true;
        }
    }
    false
}

fn file_in(files: &[String], p: &str) -> (r: bool)
    ensures
        r == lists_file(files@, p@),
{
    for i in 0..files.len()
        invariant
            forall|k: int| 0 <= k < i ==> path_components((#[trigger] files@[k])@) != path_components(p@),
    {
        if same_path(files[i].as_str(), p) {
            return true;
        }
    }
    false
}

impl Cache {
    /// The cache directory.
    pub closed spec fn spec_dir(&self) -> Seq<char> {
        self.cache_dir@
    }

    /// The cache of the project at `project_root`: its `target/ctl-cache` directory.
    pub fn new(project_root: &str) -> (r: Self)
        ensures
            r.spec_dir() == join_rel(join_rel(project_root@, "target"@), "ctl-cache"@),
    {
        let mut dir = chars_of(project_root);
        push_join(&mut dir, "target");
        push_join(&mut dir, "ctl-cache");
        Cache { cache_dir: string_from_chars(dir.as_slice()) }
    }

    /// The cache directory.
    pub fn cache_dir(&self) -> (r: &str)
        ensures
            r@ == self.spec_dir(),
    {
        self.cache_dir.as_str()
    }

    /// The file that holds the cached entries.
    pub fn entries_file(&self) -> (r: String)
        ensures
            r@ == join_rel(self.spec_dir(), "diagnostics.ndjson"@),
    {
        let mut p = chars_of(self.cache_dir.as_str());
        push_join(&mut p, "diagnostics.ndjson");
        string_from_chars(p.as_slice())
    }

    /// The file that a write fills before it replaces the entries file with it.
    pub fn staging_file(&self) -> (r: String)
        ensures
            r@ == join_rel(self.spec_dir(), "diagnostics.ndjson.tmp"@),
    {
        let mut p = chars_of(self.cache_dir.as_str());
        push_join(&mut p, "diagnostics.ndjson.tmp");
        string_from_chars(p.as_slice())
    }

    /// The entries to write when `new_entries` are stored: an entry for a file that
    /// `new_entries` also has is replaced, the others stay in order, and the new ones follow.
    pub fn upsert_entries(existing: &[DiagnosticEntry], new_entries: &[DiagnosticEntry]) -> (r: Vec<DiagnosticEntry>)
        ensures
            r@ == upserted(existing@, new_entries@),
    {
        let ghost f = |e: DiagnosticEntry| !names_file(new_entries@, e.file_path@);
        let mut r: Vec<DiagnosticEntry> = Vec::new();
        for i in 0..existing.len()
            invariant
                f == (|e: DiagnosticEntry| !names_file(new_entries@, e.file_path@)),
                r@ == existing@.take(i as int).filter(f),
        {
            proof {
                reveal(Seq::filter);
                assert(existing@.take(i + 1).drop_last() =~= existing@.take(i as int));
            }
            if !entry_in(new_entries, existing[i].file_path.as_str()) {
                r.push(existing[i].clone());
            }
        }
        proof { assert(existing@.take(existing@.len() as int) =~= existing@); }
        let ghost kept = r@;
        for j in 0..new_entries.len()
            invariant
                r@ == kept + new_entries@.take(j as int),
        {
            r.push(new_entries[j].clone());
            proof { assert(new_entries@.take(j + 1) =~= new_entries@.take(j as int).push(new_entries@[j as int])); }
        }
        proof { assert(new_entries@.take(new_entries@.len() as int) =~= new_entries@); }
        r
    }

    /// The entries left when the files `files` are invalidated, or nothing when no entry is
    /// for one of them and the cache need not be written.
    pub fn invalidate(entries: &[DiagnosticEntry], files: &[String]) -> (r: Option<Vec<DiagnosticEntry>>)
        ensures
            match r {
                Some(kept) => kept@ == invalidated(entries@, files@) && kept@.len() < entries@.len(),
                None => invalidated(entries@, files@) == entries@,
            },
    {
        let ghost f = |e: DiagnosticEntry| !lists_file(files@, e.file_path@);
        let mut kept: Vec<DiagnosticEntry> = Vec::new();
        let mut dropped = false;
        for i in 0..entries.len()
            invariant
                f == (|e: DiagnosticEntry| !lists_file(files@, e.file_path@)),
                kept@ == entries@.take(i as int).filter(f),
                !dropped ==> kept@ == entries@.take(i as int),
                dropped ==> kept@.len() < i,
                kept@.len() <= i,
        {
            proof {
                reveal(Seq::filter);
                assert(entries@.take(i + 1).drop_last() =~= entries@.take(i as int));
            }
            if !file_in(files, entries[i].file_path.as_str()) {
                kept.push(entries[i].clone());
                proof {
                    if !dropped { assert(kept@ =~= entries@.take(i + 1)); }
                }
            } else {
                dropped = true;
            }
        }
        proof { assert(entries@.take(entries@.len() as int) =~= entries@); }
        if dropped { Some(kept) } else { None }
    }

    /// The records of the cache file's text: its lines, trimmed, without the blank ones.
    pub fn read_records(text: &str) -> (r: Vec<String>)
        ensures
            r@.map_values(|s: String| s@) == records_of(text@),
    {
        let chars = chars_of(text);
        let ls = lines_of(chars.as_slice());
        let ghost trimmed = lines(text@).map_values(|l: Seq<char>| trim(l));
        let ghost keep = |l: Seq<char>| l.len() > 0;
        let mut r: Vec<String> = Vec::new();
        for i in 0..ls.len()
            invariant
                ls@.len() == lines(text@).len(),
                forall|k: int| 0 <= k < ls@.len() ==> #[trigger] ls@[k]@ == lines(text@)[k],
                trimmed == lines(text@).map_values(|l: Seq<char>| trim(l)),
                keep == (|l: Seq<char>| l.len() > 0),
                r@.map_values(|s: String| s@) == trimmed.take(i as int).filter(keep),
        {
            proof {
                reveal(Seq::filter);
                assert(trimmed.take(i + 1).drop_last() =~= trimmed.take(i as int));
            }
            let line = &ls[i];
            let (a, b) = trim_bounds(line.as_slice(), 0, line.len());
            proof {
                assert(line@.subrange(0, line@.len() as int) =~= line@);
                assert(trimmed[i as int] == trim(line@));
            }
            let ghost before = r@;
            if a < b {
                let mut t: Vec<char> = Vec::new();
                push_all(&mut t, &line.as_slice()[a..b]);
                proof { assert(t@ =~= line@.subrange(a as int, b as int)); }
                r.push(string_from_chars(t.as_slice()));
                proof {
                    assert(r@.map_values(|s: String| s@) =~= before.map_values(|s: String| s@).push(trim(line@)));
                }
            }
        }
        proof { assert(trimmed.take(trimmed.len() as int) =~= trimmed); }
        r
    }

    /// The text of a cache file that holds `records`, each on a line of its own.
    pub fn frame_records(records: &[String]) -> (r: String)
        ensures
            r@ == framed(records@.map_values(|s: String| s@)),
    {
        let ghost rs = records@.map_values(|s: String| s@);
        let mut out: Vec<char> = Vec::new();
        for i in 0..records.len()
            invariant
                rs == records@.map_values(|s: String| s@),
                out@ == framed(rs.take(i as int)),
        {
            proof { assert(rs.take(i + 1).drop_last() =~= rs.take(i as int)); }
            push_str(&mut out, records[i].as_str());
            out.push('\n');
        }
        proof { assert(rs.take(rs.len() as int) =~= rs); }
        string_from_chars(out.as_slice())
    }
}

/// A record that can stand on a line of its own: not blank, without surrounding whitespace,
/// and without a line break.
pub open spec fn line_record(r: Seq<char>) -> bool {
    r.len() > 0 && trim(r) == r && !r.contains('\n')
}

proof fn lemma_split_nl_append(t: Seq<char>, r: Seq<char>)
    requires
        !r.contains('\n'),
    ensures
        split_nl(t + r) == split_nl(t).update(split_nl(t).len() - 1, split_nl(t).last() + r),
    decreases r.len(),
{
    crate::text::lemma_split_nl_len(t);
    if r.len() == 0 {
        assert(t + r =~= t);
        assert(split_nl(t).last() + r =~= split_nl(t).last());
        assert(split_nl(t).update(split_nl(t).len() - 1, split_nl(t).last()) =~= split_nl(t));
    } else {
        let rp = r.drop_last();
        assert(!rp.contains('\n')) by {
            if rp.contains('\n') {
                let j = choose|j: int| 0 <= j < rp.len() && rp[j] == '\n';
                assert(r[j] == '\n');
            }
        }
        lemma_split_nl_append(t, rp);
        assert((t + r).drop_last() =~= t + rp);
        assert((t + r).last() == r.last());
        assert(r.last() != '\n') by { assert(r[r.len() - 1] == r.last()); }
        let p = split_nl(t);
        assert(split_nl(t + r) =~= p.update(p.len() - 1, p.last() + r)) by {
            assert(p.last() + rp + seq![r.last()] =~= p.last() + r);
            assert((p.last() + rp).push(r.last()) =~= p.last() + r);
        }
    }
}

proof fn lemma_split_framed(rs: Seq<Seq<char>>)
    requires
        forall|i: int| 0 <= i < rs.len() ==> !(#[trigger] rs[i]).contains('\n'),
    ensures
        split_nl(framed(rs)) == rs.push(Seq::<char>::empty()),
    decreases rs.len(),
{
    if rs.len() == 0 {
        assert(split_nl(Seq::<char>::empty()) =~= seq![Seq::<char>::empty()]);
        assert(rs.push(Seq::<char>::empty()) =~= seq![Seq::<char>::empty()]);
    } else {
        let rp = rs.drop_last();
        assert forall|i: int| 0 <= i < rp.len() implies !(#[trigger] rp[i]).contains('\n') by { assert(rp[i] == rs[i]); }
        lemma_split_framed(rp);
        let r = rs.last();
        assert(!r.contains('\n')) by { assert(rs[rs.len() - 1] == r); }
        let t = framed(rp);
        lemma_split_nl_append(t, r);
        let p = rp.push(Seq::<char>::empty());
        assert(Seq::<char>::empty() + r =~= r);
        assert(p.update(p.len() - 1, p.last() + r) =~= rp.push(r));
        assert(rp.push(r) =~= rs);
        let x = t + r;
        assert((x + seq!['\n']).drop_last() =~= x);
        assert((x + seq!['\n']).last() == '\n');
        assert(framed(rs) == x + seq!['\n']);
    }
}

proof fn lemma_trim_lengths(s: Seq<char>)
    ensures
        trim_start(s).len() <= s.len(),
        trim_end(s).len() <= s.len(),
    decreases s.len(),
{
    if s.len() > 0 {
        lemma_trim_lengths(s.drop_first());
        lemma_trim_lengths(s.drop_last());
    }
}

proof fn lemma_trimmed_last(r: Seq<char>)
    requires
        r.len() > 0,
        trim(r) == r,
    ensures
        !is_ws(r.last()),
{
    lemma_trim_lengths(r);
    lemma_trim_lengths(trim_start(r));
    assert(trim_start(r).len() == r.len());
    assert(trim_start(r) =~= r) by {
        if trim_start(r) != r {
            assert(is_ws(r[0]));
            lemma_trim_lengths(r.drop_first());
        }
    }
    if is_ws(r.last()) {
        lemma_trim_lengths(r.drop_last());
        assert(trim_end(r).len() < r.len());
    }
}

proof fn lemma_filter_all<A>(s: Seq<A>, f: spec_fn(A) -> bool)
    requires
        forall|i: int| 0 <= i < s.len() ==> f(#[trigger] s[i]),
    ensures
        s.filter(f) == s,
    decreases s.len(),
{
    reveal(Seq::filter);
    if s.len() > 0 {
        let sp = s.drop_last();
        assert forall|i: int| 0 <= i < sp.len() implies f(#[trigger] sp[i]) by { assert(sp[i] == s[i]); }
        lemma_filter_all(sp, f);
        assert(f(s[s.len() - 1]));
        assert(sp.push(s.last()) =~= s);
    }
}

/// Reading back the framed text of records that can stand on lines of their own gives the
/// same records: what a write stores, a read returns.
pub proof fn law_records_roundtrip(rs: Seq<Seq<char>>)
    requires
        forall|i: int| 0 <= i < rs.len() ==> line_record(#[trigger] rs[i]),
    ensures
        records_of(framed(rs)) == rs,
{
    assert forall|i: int| 0 <= i < rs.len() implies !(#[trigger] rs[i]).contains('\n') by {
        assert(line_record(rs[i]));
    }
    lemma_split_framed(rs);
    let p = split_nl(framed(rs));
    assert(p.last().len() == 0);
    assert(p.take(p.len() - 1) =~= rs);
    let ls = lines(framed(rs));
    assert(ls =~= rs.map_values(|l: Seq<char>| strip_cr(l)));
    assert forall|i: int| 0 <= i < rs.len() implies strip_cr(#[trigger] rs[i]) == rs[i] by {
        assert(line_record(rs[i]));
        lemma_trimmed_last(rs[i]);
    }
    let tl = ls.map_values(|l: Seq<char>| trim(l));
    assert(tl =~= rs) by {
        assert forall|i: int| 0 <= i < rs.len() implies #[trigger] tl[i] == rs[i] by {
            assert(line_record(rs[i]));
            assert(strip_cr(rs[i]) == rs[i]);
        }
    }
    lemma_filter_all(rs, |l: Seq<char>| l.len() > 0);
}

/// Storing entries keeps every entry of another file and drops every older entry of a file
/// that is stored anew; the new entries are all there.
pub proof fn law_upsert_replaces(existing: Seq<DiagnosticEntry>, new_entries: Seq<DiagnosticEntry>, e: DiagnosticEntry)
    ensures
        existing.contains(e) && !names_file(new_entries, e.file_path@) ==> upserted(existing, new_entries).contains(e),
        new_entries.contains(e) ==> upserted(existing, new_entries).contains(e),
        upserted(existing, new_entries).contains(e) && names_file(new_entries, e.file_path@) ==> new_entries.contains(e),
{
    let f = |x: DiagnosticEntry| !names_file(new_entries, x.file_path@);
    let kept = existing.filter(f);
    let r = kept + new_entries;
    if existing.contains(e) && !names_file(new_entries, e.file_path@) {
        let i = choose|i: int| 0 <= i < existing.len() && existing[i] == e;
        existing.lemma_filter_contains(f, i);
        let j = choose|j: int| 0 <= j < kept.len() && kept[j] == e;
        assert(r[j] == e);
    }
    if new_entries.contains(e) {
        let i = choose|i: int| 0 <= i < new_entries.len() && new_entries[i] == e;
        assert(r[kept.len() + i] == e);
    }
    if r.contains(e) && names_file(new_entries, e.file_path@) {
        let j = choose|j: int| 0 <= j < r.len() && r[j] == e;
        if j < kept.len() {
            existing.lemma_filter_pred(f, j);
            assert(false);
        } else {
            assert(new_entries[j - kept.len()] == e);
        }
    }
}

/// Invalidating files removes every entry of them and keeps every other entry.
pub proof fn law_invalidate_removes(entries: Seq<DiagnosticEntry>, files: Seq<String>, e: DiagnosticEntry)
    ensures
        invalidated(entries, files).contains(e) <==> entries.contains(e) && !lists_file(files, e.file_path@),
{
    let f = |x: DiagnosticEntry| !lists_file(files, x.file_path@);
    let r = entries.filter(f);
    if r.contains(e) {
        entries.lemma_filter_contains_rev(f, e);
        let j = choose|j: int| 0 <= j < r.len() && r[j] == e;
        entries.lemma_filter_pred(f, j);
    }
    if entries.contains(e) && !lists_file(files, e.file_path@) {
        let i = choose|i: int| 0 <= i < entries.len() && entries[i] == e;
        entries.lemma_filter_contains(f, i);
    }
}

} // verus!
