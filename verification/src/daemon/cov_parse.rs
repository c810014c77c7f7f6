//! What the daemon reads from an `llvm-cov` JSON export: the uncovered segments, and the line
//! totals of each file.

use crate::ctl::coverage::CoverageGap;
use crate::text::str_eq;
use vstd::prelude::*;

verus! {

/// A coverage segment: a position, its execution count, and what kind of region starts there.
#[derive(Debug, Clone, Copy)]
pub struct LlvmCovSegment {
    pub line: u64,
    pub col: u64,
    pub count: u64,
    pub has_count: bool,
    pub is_region_entry: bool,
    pub is_gap: bool,
}

/// A count of lines (or regions, branches, functions) and how many of them were covered.
#[derive(Debug, Clone, Copy)]
pub struct LlvmCovCount {
    pub count: u64,
    pub covered: u64,
    pub notcovered: Option<u64>,
}

/// The summary of a file; only its line count is read.
#[derive(Debug, Clone, Copy)]
pub struct LlvmCovFileSummary {
    pub lines: Option<LlvmCovCount>,
}

/// The coverage of one file.
#[derive(Debug)]
pub struct LlvmCovFileEntry {
    pub filename: String,
    pub segments: Vec<LlvmCovSegment>,
    pub summary: Option<LlvmCovFileSummary>,
}

/// One data entry of an export.
#[derive(Debug)]
pub struct LlvmCovData {
    pub files: Vec<LlvmCovFileEntry>,
}

/// An `llvm-cov export` document.
#[derive(Debug)]
pub struct LlvmCovExport {
    pub data: Vec<LlvmCovData>,
}

/// A scalar of a JSON segment record, as far as decoding reads it: an unsigned integer, a
/// boolean, another kind of value, or nothing at that place.
#[derive(Debug, Clone, Copy, PartialEq, Eq)]
pub enum JsonScalar {
    Unsigned(u64),
    Flag(bool),
    Other,
    Missing,
}

/// The six places of a segment record: line, column, count, whether it has a count, whether a
/// region starts there, whether it is a gap region; and whether the record was an object, whose
/// places are named by keys, rather than an array, whose places are positions.
#[derive(Debug, Clone, Copy)]
pub struct SegmentFields {
    pub keyed: bool,
    pub line: JsonScalar,
    pub col: JsonScalar,
    pub count: JsonScalar,
    pub has_count: JsonScalar,
    pub region_entry: JsonScalar,
    pub gap: JsonScalar,
}

/// An optional flag of a segment: a boolean as it is; in an object record also a number, when
/// it is not zero; otherwise false. An array record's flag counts only as the boolean `true`.
pub open spec fn flag_value(v: JsonScalar, keyed: bool) -> bool {
    match v {
        JsonScalar::Flag(b) => b,
        JsonScalar::Unsigned(n) => keyed && n != 0,
        _ => false,
    }
}

/// What decoding a segment record gives: the first required place that does not hold a value of
/// its kind is reported, by its position and name; otherwise the segment, with the optional
/// flags read by `flag_value`.
pub open spec fn spec_decode_segment(f: SegmentFields) -> Result<LlvmCovSegment, Seq<char>> {
    match (f.line, f.col, f.count, f.has_count) {
        (JsonScalar::Unsigned(line), JsonScalar::Unsigned(col), JsonScalar::Unsigned(count), JsonScalar::Flag(has_count)) =>
            Ok(LlvmCovSegment {
                line,
                col,
                count,
                has_count,
                is_region_entry: flag_value(f.region_entry, f.keyed),
                is_gap: flag_value(f.gap, f.keyed),
            }),
        _ => Err(
            if !(f.line is Unsigned) {
                "segment[0] (line) missing or not u64"@
            } else if !(f.col is Unsigned) {
                "segment[1] (col) missing or not u64"@
            } else if !(f.count is Unsigned) {
                "segment[2] (count) missing or not u64"@
            } else {
                "segment[3] (has_count) missing or not bool"@
            },
        ),
    }
}

fn flag_of(v: JsonScalar, keyed: bool) -> (r: bool)
    ensures
        r == flag_value(v, keyed),
{
    match v {
        JsonScalar::Flag(b) => b,
        JsonScalar::Unsigned(n) => keyed && n != 0,
        _ => false,
    }
}

/// Decodes one segment record.
pub fn decode_segment(f: SegmentFields) -> (r: Result<LlvmCovSegment, String>)
    ensures
        match (r, spec_decode_segment(f)) {
            (Ok(a), Ok(b)) => a == b,
            (Err(e), Err(m)) => e@ == m,
            _ => false,
        },
{
    proof {
        reveal_strlit("segment[0] (line) missing or not u64");
        reveal_strlit("segment[1] (col) missing or not u64");
        reveal_strlit("segment[2] (count) missing or not u64");
        reveal_strlit("segment[3] (has_count) missing or not bool");
    }
    let line = match f.line {
        JsonScalar::Unsigned(v) => v,
        _ => return Err(String::from_str("segment[0] (line) missing or not u64")),
    };
    let col = match f.col {
        JsonScalar::Unsigned(v) => v,
        _ => return Err(String::from_str("segment[1] (col) missing or not u64")),
    };
    let count = match f.count {
        JsonScalar::Unsigned(v) => v,
        _ => return Err(String::from_str("segment[2] (count) missing or not u64")),
    };
    let has_count = match f.has_count {
        JsonScalar::Flag(b) => b,
        _ => return Err(String::from_str("segment[3] (has_count) missing or not bool")),
    };
    Ok(LlvmCovSegment {
        line,
        col,
        count,
        has_count,
        is_region_entry: flag_of(f.region_entry, f.keyed),
        is_gap: flag_of(f.gap, f.keyed),
    })
}

/// Decodes the segment records of a file, stopping at the first that does not decode.
pub fn decode_segments(rows: &[SegmentFields]) -> (r: Result<Vec<LlvmCovSegment>, String>)
    ensures
        match r {
            Ok(v) => v@.len() == rows@.len() && forall|i: int| 0 <= i < rows@.len()
                ==> spec_decode_segment(#[trigger] rows@[i]) == Ok::<LlvmCovSegment, Seq<char>>(v@[i]),
            Err(e) => exists|i: int| 0 <= i < rows@.len() && spec_decode_segment(#[trigger] rows@[i]) == Err::<LlvmCovSegment, Seq<char>>(e@)
                && forall|j: int| 0 <= j < i ==> spec_decode_segment(#[trigger] rows@[j]) is Ok,
        },
{
    let mut out: Vec<LlvmCovSegment> = Vec::new();
    for i in 0..rows.len()
        invariant
            out@.len() == i,
            forall|j: int| 0 <= j < i ==> spec_decode_segment(#[trigger] rows@[j]) == Ok::<LlvmCovSegment, Seq<char>>(out@[j]),
    {
        match decode_segment(rows[i]) {
            Ok(s) => out.push(s),
            Err(e) => {
                proof {
                    assert(spec_decode_segment(rows@[i as int]) == Err::<LlvmCovSegment, Seq<char>>(e@));
                    assert forall|j: int| 0 <= j < i implies spec_decode_segment(#[trigger] rows@[j]) is Ok by {}
                }
                return Err(e);
            },
        }
    }
    Ok(out)
}

/// A segment with a count of zero that is not a gap region: code no test executed.
pub open spec fn is_uncovered(s: LlvmCovSegment) -> bool {
    s.has_count && s.count == 0 && !s.is_gap
}

/// The gap that an uncovered segment of file `name` stands for.
pub open spec fn segment_gap(name: String, s: LlvmCovSegment) -> CoverageGap {
    CoverageGap {
        file_path: name,
        line: s.line as u32,
        column_start: Some(s.col as u32),
        column_end: None,
        count: s.count,
        is_branch: s.is_region_entry,
    }
}

/// The gaps of one file, in segment order.
pub open spec fn file_entry_gaps(f: LlvmCovFileEntry) -> Seq<CoverageGap> {
    f.segments@.filter(|s: LlvmCovSegment| is_uncovered(s)).map_values(|s: LlvmCovSegment| segment_gap(f.filename, s))
}

/// The file entries of all data entries, in order.
pub open spec fn all_files(ds: Seq<LlvmCovData>) -> Seq<LlvmCovFileEntry>
    decreases ds.len(),
{
    if ds.len() == 0 {
        Seq::empty()
    } else {
        all_files(ds.drop_last()) + ds.last().files@
    }
}

/// The gaps of some file entries, in order.
pub open spec fn files_gaps(fs: Seq<LlvmCovFileEntry>) -> Seq<CoverageGap>
    decreases fs.len(),
{
    if fs.len() == 0 {
        Seq::empty()
    } else {
        files_gaps(fs.drop_last()) + file_entry_gaps(fs.last())
    }
}

proof fn lemma_files_gaps_append(a: Seq<LlvmCovFileEntry>, b: Seq<LlvmCovFileEntry>)
    ensures
        files_gaps(a + b) == files_gaps(a) + files_gaps(b),
    decreases b.len(),
{
    if b.len() == 0 {
        assert(a + b =~= a);
        assert(files_gaps(a) + files_gaps(b) =~= files_gaps(a));
    } else {
        lemma_files_gaps_append(a, b.drop_last());
        assert((a + b).drop_last() =~= a + b.drop_last());
        assert((a + b).last() == b.last());
        assert(files_gaps(a + b) =~= files_gaps(a) + files_gaps(b.drop_last()) + file_entry_gaps(b.last()));
    }
}

fn file_gaps_exec(f: &LlvmCovFileEntry, out: &mut Vec<CoverageGap>)
    ensures
        final(out)@ == old(out)@ + file_entry_gaps(*f),
{
    let ghost start = out@;
    let ghost p = |s: LlvmCovSegment| is_uncovered(s);
    let ghost g = |s: LlvmCovSegment| segment_gap(f.filename, s);
    for i in 0..f.segments.len()
        invariant
            p == (|s: LlvmCovSegment| is_uncovered(s)),
            g == (|s: LlvmCovSegment| segment_gap(f.filename, s)),
            out@ == start + f.segments@.take(i as int).filter(p).map_values(g),
    {
        proof {
            reveal(Seq::filter);
            assert(f.segments@.take(i + 1).drop_last() =~= f.segments@.take(i as int));
        }
        let s = f.segments[i];
        let ghost before = out@;
        if s.has_count && s.count == 0 && !s.is_gap {
            out.push(CoverageGap {
                file_path: f.filename.clone(),
                line: s.line as u32,
                column_start: Some(s.col as u32),
                column_end: None,
                count: s.count,
                is_branch: s.is_region_entry,
            });
            proof {
                let q = f.segments@.take(i as int).filter(p);
                assert(f.segments@.take(i + 1).filter(p) == q.push(s));
                assert(q.push(s).map_values(g) =~= q.map_values(g).push(g(s)));
            }
        }
    }
    proof { assert(f.segments@.take(f.segments@.len() as int) =~= f.segments@); }
}

/// The uncovered segments of every file of the export, as gaps, in the order of the export.
pub fn extract_gaps(export: &LlvmCovExport) -> (r: Vec<CoverageGap>)
    ensures
        r@ == files_gaps(all_files(export.data@)),
{
    let mut r: Vec<CoverageGap> = Vec::new();
    for d in 0..export.data.len()
        invariant
            r@ == files_gaps(all_files(export.data@.take(d as int))),
    {
        let ghost before = all_files(export.data@.take(d as int));
        let files = &export.data[d].files;
        for k in 0..files.len()
            invariant
                files == &export.data@[d as int].files,
                r@ == files_gaps(before + files@.take(k as int)),
        {
            proof {
                assert((before + files@.take(k + 1)).drop_last() =~= before + files@.take(k as int));
                assert((before + files@.take(k + 1)).last() == files@[k as int]);
            }
            file_gaps_exec(&files[k], &mut r);
        }
        proof {
            assert(files@.take(files@.len() as int) =~= files@);
            assert(export.data@.take(d + 1).drop_last() =~= export.data@.take(d as int));
            assert(export.data@.take(d + 1).last() == export.data@[d as int]);
        }
    }
    proof { assert(export.data@.take(export.data@.len() as int) =~= export.data@); }
    r
}

/// The line totals of one file, summed over the entries for it; `percent_basis` holds the
/// covered and total lines as they stood after the last entry that counted any lines.
#[derive(Debug)]
pub struct FileTotals {
    pub path: String,
    pub lines: u64,
    pub covered: u64,
    pub not_covered: u64,
    pub percent_basis: Option<(u64, u64)>,
}

/// Line totals as unbounded numbers.
pub struct TotalsModel {
    pub path: Seq<char>,
    pub lines: int,
    pub covered: int,
    pub not_covered: int,
    pub basis: Option<(int, int)>,
}

/// The lines that a count leaves uncovered: its own figure, or the lines less the covered ones
/// (none when more are covered than counted).
pub open spec fn missed_lines(c: LlvmCovCount) -> int {
    match c.notcovered {
        Some(n) => n as int,
        None => if c.count >= c.covered { c.count - c.covered } else { 0 },
    }
}

/// The index of the totals for `path`, or `-1`.
pub open spec fn totals_index(acc: Seq<TotalsModel>, path: Seq<char>) -> int
    decreases acc.len(),
{
    if acc.len() == 0 {
        -1
    } else if totals_index(acc.drop_last(), path) >= 0 {
        totals_index(acc.drop_last(), path)
    } else if acc.last().path == path {
        acc.len() - 1
    } else {
        -1
    }
}

/// Totals after counting one more entry of their file.
pub open spec fn add_entry(t: TotalsModel, f: LlvmCovFileEntry) -> TotalsModel {
    match f.summary {
        Some(su) => match su.lines {
            Some(c) => {
                let lines = t.lines + c.count;
                let covered = t.covered + c.covered;
                TotalsModel {
                    path: t.path,
                    lines,
                    covered,
                    not_covered: t.not_covered + missed_lines(c),
                    basis: if c.count > 0 { Some((covered, lines)) } else { t.basis },
                }
            },
            None => t,
        },
        None => t,
    }
}

/// The totals after one more file entry: its file's totals grow, or a new file starts at zero.
pub open spec fn accumulate(acc: Seq<TotalsModel>, f: LlvmCovFileEntry) -> Seq<TotalsModel> {
    let k = totals_index(acc, f.filename@);
    if k >= 0 {
        acc.update(k, add_entry(acc[k], f))
    } else {
        acc.push(add_entry(TotalsModel { path: f.filename@, lines: 0, covered: 0, not_covered: 0, basis: None }, f))
    }
}

/// The totals of all files, in the order their first entries come.
pub open spec fn totals_of(fs: Seq<LlvmCovFileEntry>) -> Seq<TotalsModel>
    decreases fs.len(),
{
    if fs.len() == 0 {
        Seq::empty()
    } else {
        accumulate(totals_of(fs.drop_last()), fs.last())
    }
}

/// The totals fit in `u64`.
pub open spec fn totals_fit(ts: Seq<TotalsModel>) -> bool {
    forall|i: int| 0 <= i < ts.len() ==> (#[trigger] ts[i]).lines <= u64::MAX && ts[i].covered <= u64::MAX
        && ts[i].not_covered <= u64::MAX
}

/// `a` is an earlier state of `b`: the same files at the same places, with totals no larger.
pub open spec fn grows_into(a: Seq<TotalsModel>, b: Seq<TotalsModel>) -> bool {
    &&& a.len() <= b.len()
    &&& forall|i: int| 0 <= i < a.len() ==> (#[trigger] a[i]).path == b[i].path && 0 <= a[i].lines <= b[i].lines
        && 0 <= a[i].covered <= b[i].covered && 0 <= a[i].not_covered <= b[i].not_covered
}

proof fn lemma_totals_index(acc: Seq<TotalsModel>, path: Seq<char>)
    ensures
        -1 <= totals_index(acc, path) < acc.len(),
        totals_index(acc, path) >= 0 ==> acc[totals_index(acc, path)].path == path,
        totals_index(acc, path) < 0 ==> forall|i: int| 0 <= i < acc.len() ==> (#[trigger] acc[i]).path != path,
    decreases acc.len(),
{
    if acc.len() > 0 {
        lemma_totals_index(acc.drop_last(), path);
        assert forall|i: int| 0 <= i < acc.len() - 1 implies acc[i] == #[trigger] acc.drop_last()[i] by {}
        if totals_index(acc, path) < 0 {
            assert forall|i: int| 0 <= i < acc.len() implies (#[trigger] acc[i]).path != path by {
                if i < acc.len() - 1 { assert(acc[i] == acc.drop_last()[i]); }
            }
        }
    }
}

proof fn lemma_totals_nonneg(fs: Seq<LlvmCovFileEntry>)
    ensures
        grows_into(totals_of(fs), totals_of(fs)),
    decreases fs.len(),
{
    if fs.len() > 0 {
        let prev = totals_of(fs.drop_last());
        lemma_totals_nonneg(fs.drop_last());
        lemma_totals_index(prev, fs.last().filename@);
    }
}

proof fn lemma_totals_grow(fs: Seq<LlvmCovFileEntry>, j: int)
    requires
        0 <= j <= fs.len(),
    ensures
        grows_into(totals_of(fs.take(j)), totals_of(fs)),
    decreases fs.len() - j,
{
    if j == fs.len() {
        assert(fs.take(j) =~= fs);
        lemma_totals_nonneg(fs);
    } else {
        lemma_totals_grow(fs, j + 1);
        let a = totals_of(fs.take(j));
        let b = totals_of(fs.take(j + 1));
        assert(fs.take(j + 1).drop_last() =~= fs.take(j));
        assert(fs.take(j + 1).last() == fs[j]);
        lemma_totals_nonneg(fs.take(j));
        lemma_totals_index(a, fs[j].filename@);
        assert(grows_into(a, b));
    }
}

fn find_totals(acc: &Vec<FileTotals>, name: &str) -> (r: Option<usize>)
    ensures
        match r {
            Some(i) => i < acc@.len() && acc@[i as int].path@ == name@
                && forall|k: int| 0 <= k < i ==> (#[trigger] acc@[k]).path@ != name@,
            None => forall|k: int| 0 <= k < acc@.len() ==> (#[trigger] acc@[k]).path@ != name@,
        },
{
    for i in 0..acc.len()
        invariant
            forall|k: int| 0 <= k < i ==> (#[trigger] acc@[k]).path@ != name@,
    {
        if str_eq(acc[i].path.as_str(), name) {
            return Some(i);
        }
    }
    None
}

/// The totals as unbounded numbers.
pub open spec fn totals_model(t: FileTotals) -> TotalsModel {
    TotalsModel {
        path: t.path@,
        lines: t.lines as int,
        covered: t.covered as int,
        not_covered: t.not_covered as int,
        basis: match t.percent_basis {
            Some(b) => Some((b.0 as int, b.1 as int)),
            None => None,
        },
    }
}

/// A list of totals as unbounded numbers.
pub open spec fn models(v: Seq<FileTotals>) -> Seq<TotalsModel> {
    v.map_values(|t: FileTotals| totals_model(t))
}

proof fn lemma_index_first(acc: Seq<TotalsModel>, path: Seq<char>, i: int)
    requires
        0 <= i < acc.len(),
        acc[i].path == path,
        forall|k: int| 0 <= k < i ==> (#[trigger] acc[k]).path != path,
    ensures
        totals_index(acc, path) == i,
    decreases acc.len(),
{
    if i < acc.len() - 1 {
        assert forall|k: int| 0 <= k < i implies (#[trigger] acc.drop_last()[k]).path != path by {
            assert(acc.drop_last()[k] == acc[k]);
        }
        lemma_index_first(acc.drop_last(), path, i);
    } else {
        lemma_totals_index(acc.drop_last(), path);
        if totals_index(acc.drop_last(), path) >= 0 {
            let t = totals_index(acc.drop_last(), path);
            assert(acc.drop_last()[t] == acc[t]);
        }
    }
}

/// The line totals of every file of the export, one per file name, in the order in which the
/// names first come.
pub fn coverage_totals(export: &LlvmCovExport) -> (r: Vec<FileTotals>)
    requires
        totals_fit(totals_of(all_files(export.data@))),
    ensures
        models(r@) == totals_of(all_files(export.data@)),
{
    let ghost fs = all_files(export.data@);
    let mut acc: Vec<FileTotals> = Vec::new();
    let ghost mut seen: int = 0;
    for d in 0..export.data.len()
        invariant
            fs == all_files(export.data@),
            totals_fit(totals_of(fs)),
            seen == all_files(export.data@.take(d as int)).len(),
            fs.take(seen) == all_files(export.data@.take(d as int)),
            seen <= fs.len(),
            models(acc@) == totals_of(fs.take(seen)),
    {
        proof {
            assert(export.data@.take(d + 1).drop_last() =~= export.data@.take(d as int));
            assert(export.data@.take(d + 1).last() == export.data@[d as int]);
            let upto = all_files(export.data@.take(d + 1));
            assert(upto == all_files(export.data@.take(d as int)) + export.data@[d as int].files@);
            lemma_all_files_prefix(export.data@, d + 1);
            assert(export.data@[d as int].files@.take(0) =~= Seq::<LlvmCovFileEntry>::empty());
            assert(all_files(export.data@.take(d as int)) + export.data@[d as int].files@.take(0) =~= all_files(export.data@.take(d as int)));
        }
        let files = &export.data[d].files;
        let ghost base = seen;
        for k in 0..files.len()
            invariant
                fs == all_files(export.data@),
                totals_fit(totals_of(fs)),
                files == &export.data@[d as int].files,
                base == all_files(export.data@.take(d as int)).len(),
                base + files@.len() <= fs.len(),
                fs.take(base + files@.len()) == all_files(export.data@.take(d as int)) + files@,
                fs.take(seen) == all_files(export.data@.take(d as int)) + files@.take(k as int),
                seen == base + k,
                models(acc@) == totals_of(fs.take(seen)),
        {
            let f = &files[k];
            let ghost prev = totals_of(fs.take(seen));
            proof {
                let pre = all_files(export.data@.take(d as int));
                assert(fs.take(seen + 1) =~= fs.take(base + files@.len()).take(seen + 1));
                assert(fs.take(seen + 1) =~= pre + files@.take(k + 1)) by {
                    assert((pre + files@).take(seen + 1) =~= pre + files@.take(k + 1));
                }
                assert(fs.take(seen + 1).drop_last() =~= fs.take(seen));
                assert(fs.take(seen + 1).last() == *f);
                lemma_totals_grow(fs, seen + 1);
                lemma_totals_index(prev, f.filename@);
            }
            let ghost next = totals_of(fs.take(seen + 1));
            match find_totals(&acc, f.filename.as_str()) {
                Some(i) => {
                    proof {
                        assert forall|q: int| 0 <= q < i implies (#[trigger] prev[q]).path != f.filename@ by {
                            assert(prev[q] == totals_model(acc@[q]));
                        }
                        assert(prev[i as int] == totals_model(acc@[i as int]));
                        lemma_index_first(prev, f.filename@, i as int);
                        assert(next == prev.update(i as int, add_entry(prev[i as int], *f)));
                        assert(next[i as int] == add_entry(prev[i as int], *f));
                        assert(totals_fit(next)) by {
                            assert(grows_into(next, totals_of(fs)));
                            assert(totals_of(fs)[i as int].lines <= u64::MAX);
                        }
                    }
                    let mut t = acc.remove(i);
                    match f.summary {
                        Some(su) => match su.lines {
                            Some(c) => {
                                proof { assert(next[i as int].lines <= u64::MAX && next[i as int].covered <= u64::MAX && next[i as int].not_covered <= u64::MAX); }
                                t.lines = t.lines + c.count;
                                t.covered = t.covered + c.covered;
                                let missed: u64 = match c.notcovered {
                                    Some(n) => n,
                                    None => if c.count >= c.covered { c.count - c.covered } else { 0 },
                                };
                                t.not_covered = t.not_covered + missed;
                                if c.count > 0 {
                                    t.percent_basis = Some((t.covered, t.lines));
                                }
                            },
                            None => {},
                        },
                        None => {},
                    }
                    proof { assert(totals_model(t) == next[i as int]); }
                    let ghost before_insert = acc@;
                    acc.insert(i, t);
                    proof {
                        assert(models(acc@) =~= next) by {
                            assert forall|q: int| 0 <= q < acc@.len() implies #[trigger] models(acc@)[q] == next[q] by {
                                if q < i { assert(acc@[q] == before_insert[q]); }
                                else if q > i { assert(acc@[q] == before_insert[q - 1]); }
                            }
                        }
                    }
                },
                None => {
                    proof {
                        assert forall|q: int| 0 <= q < prev.len() implies (#[trigger] prev[q]).path != f.filename@ by {
                            assert(prev[q] == totals_model(acc@[q]));
                        }
                        lemma_totals_index(prev, f.filename@);
                        assert(totals_index(prev, f.filename@) < 0);
                        let last = prev.len() as int;
                        assert(next[last] == add_entry(TotalsModel { path: f.filename@, lines: 0, covered: 0, not_covered: 0, basis: None }, *f));
                        assert(grows_into(next, totals_of(fs)));
                        assert(totals_of(fs)[last].lines <= u64::MAX);
                    }
                    let mut t = FileTotals { path: f.filename.clone(), lines: 0, covered: 0, not_covered: 0, percent_basis: None };
                    match f.summary {
                        Some(su) => match su.lines {
                            Some(c) => {
                                t.lines = c.count;
                                t.covered = c.covered;
                                t.not_covered = match c.notcovered {
                                    Some(n) => n,
                                    None => if c.count >= c.covered { c.count - c.covered } else { 0 },
                                };
                                if c.count > 0 {
                                    t.percent_basis = Some((t.covered, t.lines));
                                }
                            },
                            None => {},
                        },
                        None => {},
                    }
                    proof { assert(totals_model(t) == next[prev.len() as int]); }
                    acc.push(t);
                    proof {
                        assert(models(acc@) =~= next);
                    }
                },
            }
            proof { seen = seen + 1; }
        }
        proof {
            assert(files@.take(files@.len() as int) =~= files@);
        }
    }
    proof {
        assert(export.data@.take(export.data@.len() as int) =~= export.data@);
        assert(fs.take(seen) =~= fs);
    }
    acc
}

proof fn lemma_all_files_prefix(ds: Seq<LlvmCovData>, d: int)
    requires
        0 <= d <= ds.len(),
    ensures
        all_files(ds.take(d)).len() <= all_files(ds).len(),
        all_files(ds).take(all_files(ds.take(d)).len() as int) == all_files(ds.take(d)),
    decreases ds.len() - d,
{
    if d == ds.len() {
        assert(ds.take(d) =~= ds);
        assert(all_files(ds).take(all_files(ds).len() as int) =~= all_files(ds));
    } else {
        lemma_all_files_prefix(ds, d + 1);
        assert(ds.take(d + 1).drop_last() =~= ds.take(d));
        let a = all_files(ds.take(d));
        let b = all_files(ds.take(d + 1));
        assert(b == a + ds[d].files@);
        assert(all_files(ds).take(a.len() as int) =~= b.take(a.len() as int));
        assert(b.take(a.len() as int) =~= a);
    }
}

/// The paths of some totals, in order.
pub open spec fn totals_paths(ts: Seq<TotalsModel>) -> Seq<Seq<char>> {
    ts.map_values(|t: TotalsModel| t.path)
}

/// The names of some file entries, in order.
pub open spec fn file_names(fs: Seq<LlvmCovFileEntry>) -> Seq<Seq<char>> {
    fs.map_values(|f: LlvmCovFileEntry| f.filename@)
}

proof fn lemma_accumulate_paths(prev: Seq<TotalsModel>, f: LlvmCovFileEntry)
    ensures
        totals_paths(accumulate(prev, f)) == if totals_index(prev, f.filename@) >= 0 {
            totals_paths(prev)
        } else {
            totals_paths(prev).push(f.filename@)
        },
{
    lemma_totals_index(prev, f.filename@);
    let k = totals_index(prev, f.filename@);
    let cur = accumulate(prev, f);
    if k >= 0 {
        assert(totals_paths(cur) =~= totals_paths(prev));
    } else {
        assert(totals_paths(cur) =~= totals_paths(prev).push(f.filename@));
    }
}

/// The totals have one entry per distinct file name: no two entries share a path, and the
/// paths are exactly the names of the file entries.
pub proof fn law_totals_one_per_file(fs: Seq<LlvmCovFileEntry>)
    ensures
        totals_paths(totals_of(fs)).no_duplicates(),
        totals_paths(totals_of(fs)).to_set() == file_names(fs).to_set(),
    decreases fs.len(),
{
    if fs.len() == 0 {
        assert(totals_paths(totals_of(fs)) =~= Seq::<Seq<char>>::empty());
        assert(file_names(fs) =~= Seq::<Seq<char>>::empty());
    } else {
        let d = fs.drop_last();
        let f = fs.last();
        let name = f.filename@;
        law_totals_one_per_file(d);
        let prev = totals_of(d);
        let pp = totals_paths(prev);
        lemma_totals_index(prev, name);
        lemma_accumulate_paths(prev, f);
        assert(file_names(fs) =~= file_names(d).push(name));
        file_names(d).lemma_push_to_set_commute(name);
        let ix = totals_index(prev, name);
        if ix >= 0 {
            assert(pp[ix] == name);
            assert(pp.to_set().contains(name));
            assert(pp.to_set().insert(name) =~= pp.to_set());
        } else {
            assert forall|i: int| 0 <= i < pp.len() implies pp[i] != name by {
                assert(pp[i] == prev[i].path);
            }
            pp.lemma_push_to_set_commute(name);
            let q = pp.push(name);
            assert forall|i: int, j: int| 0 <= i < q.len() && 0 <= j < q.len() && i != j implies q[i] != q[j] by {
                if i < pp.len() && j < pp.len() {
                    assert(q[i] == pp[i] && q[j] == pp[j]);
                } else if i < pp.len() {
                    assert(q[i] == pp[i]);
                } else {
                    assert(q[j] == pp[j]);
                }
            }
        }
    }
}

} // verus!
