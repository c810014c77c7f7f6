//! Lint findings, their severity levels, and their ordering by source position.

use crate::paths::{lemma_order_paths_antisym, lemma_order_paths_same, order_paths, order_paths_exec, path_components};
use crate::text::{chars_eq, chars_of};
use vstd::prelude::*;

verus! {

/// How a rule's findings are treated.
#[derive(Debug, Clone, Copy, PartialEq, Eq, Structural)]
pub enum DiagnosticLevel {
    Allow,
    Warn,
    Deny,
    Forbid,
}

impl DiagnosticLevel {
    /// Deny and Forbid findings are errors.
    pub open spec fn spec_is_error(self) -> bool {
        self == DiagnosticLevel::Deny || self == DiagnosticLevel::Forbid
    }

    pub fn is_error(&self) -> (r: bool)
        ensures
            r == self.spec_is_error(),
    {
        match self {
            DiagnosticLevel::Deny | DiagnosticLevel::Forbid => true,
            _ => false,
        }
    }

    /// The level's name in configuration files.
    pub open spec fn spec_name(self) -> Seq<char> {
        match self {
            DiagnosticLevel::Allow => "allow"@,
            DiagnosticLevel::Warn => "warn"@,
            DiagnosticLevel::Deny => "deny"@,
            DiagnosticLevel::Forbid => "forbid"@,
        }
    }

    pub fn as_str(&self) -> (r: &'static str)
        ensures
            r@ == self.spec_name(),
    {
        match self {
            DiagnosticLevel::Allow => "allow",
            DiagnosticLevel::Warn => "warn",
            DiagnosticLevel::Deny => "deny",
            DiagnosticLevel::Forbid => "forbid",
        }
    }
}

/// The level a name denotes: the four names, with `error` as another name for `deny`.
pub open spec fn spec_level_from_name(s: Seq<char>) -> Option<DiagnosticLevel> {
    if s == "allow"@ {
        Some(DiagnosticLevel::Allow)
    } else if s == "warn"@ {
        Some(DiagnosticLevel::Warn)
    } else if s == "deny"@ || s == "error"@ {
        Some(DiagnosticLevel::Deny)
    } else if s == "forbid"@ {
        Some(DiagnosticLevel::Forbid)
    } else {
        None
    }
}

/// Reads a level from its name; any other text gives the message `invalid level: <text>`.
pub fn parse_level(s: &str) -> (r: Result<DiagnosticLevel, String>)
    ensures
        match r {
            Ok(l) => spec_level_from_name(s@) == Some(l),
            Err(m) => spec_level_from_name(s@) is None && m@ == "invalid level: "@ + s@,
        },
{
    let c = chars_of(s);
    let allow = chars_of("allow");
    let warn = chars_of("warn");
    let deny = chars_of("deny");
    let error = chars_of("error");
    let forbid = chars_of("forbid");
    if chars_eq(c.as_slice(), allow.as_slice()) {
        Ok(DiagnosticLevel::Allow)
    } else if chars_eq(c.as_slice(), warn.as_slice()) {
        Ok(DiagnosticLevel::Warn)
    } else if chars_eq(c.as_slice(), deny.as_slice()) || chars_eq(c.as_slice(), error.as_slice()) {
        Ok(DiagnosticLevel::Deny)
    } else if chars_eq(c.as_slice(), forbid.as_slice()) {
        Ok(DiagnosticLevel::Forbid)
    } else {
        let mut out: Vec<char> = Vec::new();
        crate::text::push_str(&mut out, "invalid level: ");
        crate::text::push_all(&mut out, c.as_slice());
        Err(crate::text::string_from_chars(out.as_slice()))
    }
}

impl std::str::FromStr for DiagnosticLevel {
    type Err = String;

    fn from_str(s: &str) -> (r: Result<Self, String>)
        ensures
            match r {
                Ok(l) => spec_level_from_name(s@) == Some(l),
                Err(m) => spec_level_from_name(s@) is None && m@ == "invalid level: "@ + s@,
            },
    {
        parse_level(s)
    }
}

/// Reading back a level's name gives the level.
pub proof fn law_level_name_roundtrip(l: DiagnosticLevel)
    ensures
        spec_level_from_name(l.spec_name()) == Some(l),
{
    reveal_strlit("allow");
    reveal_strlit("warn");
    reveal_strlit("deny");
    reveal_strlit("error");
    reveal_strlit("forbid");
    assert("allow"@.len() == 5 && "warn"@.len() == 4 && "deny"@.len() == 4 && "error"@.len() == 5 && "forbid"@.len() == 6);
    assert("deny"@ != "warn"@) by { assert("deny"@[0] != "warn"@[0]); }
    assert("error"@ != "allow"@) by { assert("error"@[0] != "allow"@[0]); }
}

/// A suggested edit: replace the bytes `start_byte..end_byte` with `replacement`.
#[derive(Debug, Clone)]
pub struct Fix {
    pub description: String,
    pub replacement: String,
    pub start_byte: usize,
    pub end_byte: usize,
}

/// One finding of a rule at a place in a file. Lines and columns count from 1.
#[derive(Debug, Clone)]
pub struct Diagnostic {
    pub rule_id: String,
    pub level: DiagnosticLevel,
    pub message: String,
    pub file_path: String,
    pub line: usize,
    pub column: usize,
    pub end_line: usize,
    pub end_column: usize,
    pub suggestion: Option<Fix>,
}

/// `a` comes at or before `b`: by file path, then line, then column.
pub open spec fn position_le(a: Diagnostic, b: Diagnostic) -> bool {
    let c = order_paths(a.file_path@, b.file_path@);
    c < 0 || (c == 0 && (a.line < b.line || (a.line == b.line && a.column <= b.column)))
}

/// Inserts `x` right after the last element of `sorted` positioned at or before it.
pub open spec fn insert_by_position(sorted: Seq<Diagnostic>, x: Diagnostic) -> Seq<Diagnostic>
    decreases sorted.len(),
{
    if sorted.len() == 0 {
        seq![x]
    } else if position_le(sorted.last(), x) {
        sorted.push(x)
    } else {
        insert_by_position(sorted.drop_last(), x).push(sorted.last())
    }
}

/// The stable sort of `s` by position.
pub open spec fn sort_by_position(s: Seq<Diagnostic>) -> Seq<Diagnostic>
    decreases s.len(),
{
    if s.len() == 0 {
        seq![]
    } else {
        insert_by_position(sort_by_position(s.drop_last()), s.last())
    }
}

/// A suggested edit as plain values: description, replacement and byte range.
pub type FixView = (Seq<char>, Seq<char>, usize, usize);

/// A finding as plain values.
pub struct DiagnosticView {
    pub rule_id: Seq<char>,
    pub level: DiagnosticLevel,
    pub message: Seq<char>,
    pub file_path: Seq<char>,
    pub line: usize,
    pub column: usize,
    pub end_line: usize,
    pub end_column: usize,
    pub suggestion: Option<FixView>,
}

impl View for Diagnostic {
    type V = DiagnosticView;

    open spec fn view(&self) -> DiagnosticView {
        DiagnosticView {
            rule_id: self.rule_id@,
            level: self.level,
            message: self.message@,
            file_path: self.file_path@,
            line: self.line,
            column: self.column,
            end_line: self.end_line,
            end_column: self.end_column,
            suggestion: match self.suggestion {
                Some(f) => Some((f.description@, f.replacement@, f.start_byte, f.end_byte)),
                None => None,
            },
        }
    }
}

/// The findings as plain values.
pub open spec fn views(ds: Seq<Diagnostic>) -> Seq<DiagnosticView> {
    ds.map_values(|d: Diagnostic| d@)
}

/// Some finding of `ds` is an error.
pub open spec fn any_error(ds: Seq<Diagnostic>) -> bool {
    exists|i: int| 0 <= i < ds.len() && (#[trigger] ds[i]).level.spec_is_error()
}

impl Diagnostic {
    /// Whether any of the findings is an error.
    pub fn has_errors(diagnostics: &[Self]) -> (r: bool)
        ensures
            r == any_error(diagnostics@),
    {
        for i in 0..diagnostics.len()
            invariant
                forall|k: int| 0 <= k < i ==> !(#[trigger] diagnostics@[k]).level.spec_is_error(),
        {
            if diagnostics[i].level.is_error() {
                return true;
            }
        }
        false
    }

    /// Sorts the findings by file path, line and column, keeping the order of findings at the
    /// same position.
    pub fn sort_by_position(diagnostics: &mut Vec<Self>)
        ensures
            final(diagnostics)@ == sort_by_position(old(diagnostics)@),
    {
        let mut input: Vec<Self> = Vec::new();
        std::mem::swap(&mut input, diagnostics);
        let ghost orig = input@;
        proof { assert(orig.subrange(0, orig.len() as int) =~= orig); }
        let mut sorted: Vec<Self> = Vec::new();
        let mut k: usize = 0;
        let n = input.len();
        while k < n
            invariant
                n == orig.len(),
                k <= n,
                input@ == orig.subrange(k as int, n as int),
                sorted@ == sort_by_position(orig.take(k as int)),
            decreases n - k,
        {
            let x = input.remove(0);
            proof {
                assert(x == orig[k as int]);
                assert(orig.take(k + 1).drop_last() =~= orig.take(k as int));
                assert(orig.take(k + 1).last() == x);
                assert(input@ =~= orig.subrange(k + 1, n as int));
            }
            insert_by_position_exec(&mut sorted, x);
            k = k + 1;
        }
        proof { assert(orig.take(n as int) =~= orig); }
        *diagnostics = sorted;
    }
}

fn position_le_exec(a: &Diagnostic, b: &Diagnostic) -> (r: bool)
    ensures
        r == position_le(*a, *b),
{
    let c = order_paths_exec(a.file_path.as_str(), b.file_path.as_str());
    c < 0 || (c == 0 && (a.line < b.line || (a.line == b.line && a.column <= b.column)))
}

proof fn lemma_insert_position_at(v: Seq<Diagnostic>, x: Diagnostic, j: int)
    requires
        0 <= j <= v.len(),
        j == 0 || position_le(v[j - 1], x),
        forall|i: int| j <= i < v.len() ==> !position_le(#[trigger] v[i], x),
    ensures
        insert_by_position(v, x) == v.insert(j, x),
    decreases v.len(),
{
    if v.len() == j {
        if j == 0 {
            assert(v.insert(j, x) =~= seq![x]);
        } else {
            assert(v.last() == v[j - 1]);
            assert(v.insert(j, x) =~= v.push(x));
        }
    } else {
        let vp = v.drop_last();
        assert(!position_le(v[v.len() - 1], x));
        assert forall|i: int| j <= i < vp.len() implies !position_le(#[trigger] vp[i], x) by { assert(vp[i] == v[i]); }
        if j > 0 { assert(vp[j - 1] == v[j - 1]); }
        lemma_insert_position_at(vp, x, j);
        assert(v.insert(j, x) =~= vp.insert(j, x).push(v.last()));
    }
}

fn insert_by_position_exec(v: &mut Vec<Diagnostic>, x: Diagnostic)
    ensures
        final(v)@ == insert_by_position(old(v)@, x),
{
    let mut j = v.len();
    while j > 0 && !position_le_exec(&v[j - 1], &x)
        invariant
            j <= v.len(),
            v@ == old(v)@,
            forall|i: int| j <= i < v.len() ==> !position_le(#[trigger] v@[i], x),
        decreases j,
    {
        j = j - 1;
    }
    proof { lemma_insert_position_at(v@, x, j as int); }
    v.insert(j, x);
}

/// `a` comes at or before `b`: by file path, then line, then column.
pub open spec fn view_position_le(a: DiagnosticView, b: DiagnosticView) -> bool {
    let c = order_paths(a.file_path, b.file_path);
    c < 0 || (c == 0 && (a.line < b.line || (a.line == b.line && a.column <= b.column)))
}

/// Inserts `x` right after the last element of `sorted` positioned at or before it.
pub open spec fn insert_view_by_position(sorted: Seq<DiagnosticView>, x: DiagnosticView) -> Seq<DiagnosticView>
    decreases sorted.len(),
{
    if sorted.len() == 0 {
        seq![x]
    } else if view_position_le(sorted.last(), x) {
        sorted.push(x)
    } else {
        insert_view_by_position(sorted.drop_last(), x).push(sorted.last())
    }
}

/// The stable sort of findings by position.
pub open spec fn sort_views_by_position(s: Seq<DiagnosticView>) -> Seq<DiagnosticView>
    decreases s.len(),
{
    if s.len() == 0 {
        seq![]
    } else {
        insert_view_by_position(sort_views_by_position(s.drop_last()), s.last())
    }
}

proof fn lemma_insert_views(sorted: Seq<Diagnostic>, x: Diagnostic)
    ensures
        views(insert_by_position(sorted, x)) == insert_view_by_position(views(sorted), x@),
    decreases sorted.len(),
{
    if sorted.len() == 0 {
        assert(views(seq![x]) =~= seq![x@]);
    } else {
        assert(views(sorted).last() == sorted.last()@);
        assert(views(sorted).drop_last() =~= views(sorted.drop_last()));
        if position_le(sorted.last(), x) {
            assert(views(sorted.push(x)) =~= views(sorted).push(x@));
        } else {
            lemma_insert_views(sorted.drop_last(), x);
            assert(views(insert_by_position(sorted.drop_last(), x).push(sorted.last()))
                =~= views(insert_by_position(sorted.drop_last(), x)).push(sorted.last()@));
        }
    }
}

/// Sorting findings and then taking their plain values is sorting their plain values.
pub proof fn lemma_sort_views(ds: Seq<Diagnostic>)
    ensures
        views(sort_by_position(ds)) == sort_views_by_position(views(ds)),
    decreases ds.len(),
{
    if ds.len() == 0 {
        assert(views(Seq::<Diagnostic>::empty()) =~= Seq::<DiagnosticView>::empty());
    } else {
        lemma_sort_views(ds.drop_last());
        assert(views(ds).drop_last() =~= views(ds.drop_last()));
        assert(views(ds).last() == ds.last()@);
        lemma_insert_views(sort_by_position(ds.drop_last()), ds.last());
    }
}

proof fn lemma_insert_view_multiset(sorted: Seq<DiagnosticView>, x: DiagnosticView)
    ensures
        insert_view_by_position(sorted, x).to_multiset() == sorted.to_multiset().insert(x),
    decreases sorted.len(),
{
    broadcast use vstd::seq_lib::group_to_multiset_ensures;
    if sorted.len() == 0 {
        assert(seq![x] =~= Seq::<DiagnosticView>::empty().push(x));
    } else if !view_position_le(sorted.last(), x) {
        lemma_insert_view_multiset(sorted.drop_last(), x);
        assert(sorted =~= sorted.drop_last().push(sorted.last()));
        assert(sorted.drop_last().to_multiset().insert(x).insert(sorted.last()) =~= sorted.to_multiset().insert(x));
    }
}

/// Sorting findings by position keeps every finding, each as often as it came.
pub proof fn law_sort_views_keeps(s: Seq<DiagnosticView>)
    ensures
        sort_views_by_position(s).to_multiset() == s.to_multiset(),
    decreases s.len(),
{
    broadcast use vstd::seq_lib::group_to_multiset_ensures;
    if s.len() > 0 {
        law_sort_views_keeps(s.drop_last());
        lemma_insert_view_multiset(sort_views_by_position(s.drop_last()), s.last());
        assert(s =~= s.drop_last().push(s.last()));
    }
}

/// Any two findings are ordered one way or the other.
proof fn lemma_position_total(a: Diagnostic, b: Diagnostic)
    ensures
        position_le(a, b) || position_le(b, a),
{
    lemma_order_paths_antisym(a.file_path@, b.file_path@);
}

/// Adjacent findings of `s` are in position order.
pub open spec fn positions_sorted(s: Seq<Diagnostic>) -> bool {
    forall|i: int| 0 <= i < s.len() - 1 ==> position_le(#[trigger] s[i], s[i + 1])
}

proof fn lemma_insert_sorted(sorted: Seq<Diagnostic>, x: Diagnostic)
    requires
        positions_sorted(sorted),
    ensures
        positions_sorted(insert_by_position(sorted, x)),
        insert_by_position(sorted, x).to_multiset() == sorted.to_multiset().insert(x),
        insert_by_position(sorted, x).len() == sorted.len() + 1,
        sorted.len() > 0 ==> insert_by_position(sorted, x).last() == x || insert_by_position(sorted, x).last() == sorted.last(),
    decreases sorted.len(),
{
    broadcast use vstd::seq_lib::group_to_multiset_ensures;
    if sorted.len() == 0 {
        assert(seq![x] =~= Seq::<Diagnostic>::empty().push(x));
    } else if position_le(sorted.last(), x) {
        let r = sorted.push(x);
        assert forall|i: int| 0 <= i < r.len() - 1 implies position_le(#[trigger] r[i], r[i + 1]) by {
            if i < sorted.len() - 1 { assert(r[i] == sorted[i] && r[i + 1] == sorted[i + 1]); }
        }
    } else {
        let d = sorted.drop_last();
        assert forall|i: int| 0 <= i < d.len() - 1 implies position_le(#[trigger] d[i], d[i + 1]) by {
            assert(d[i] == sorted[i] && d[i + 1] == sorted[i + 1]);
        }
        lemma_insert_sorted(d, x);
        let q = insert_by_position(d, x);
        let r = q.push(sorted.last());
        lemma_position_total(sorted.last(), x);
        if d.len() > 0 {
            assert(position_le(sorted[d.len() - 1], sorted[d.len() as int]));
            assert(d.last() == sorted[d.len() - 1]);
        } else {
            assert(q =~= seq![x]);
        }
        assert forall|i: int| 0 <= i < r.len() - 1 implies position_le(#[trigger] r[i], r[i + 1]) by {
            if i < q.len() - 1 { assert(r[i] == q[i] && r[i + 1] == q[i + 1]); }
        }
        assert(sorted =~= d.push(sorted.last()));
        assert(d.to_multiset().insert(x).insert(sorted.last()) =~= sorted.to_multiset().insert(x));
    }
}

/// Sorting by position puts the findings in position order and keeps every finding, each as
/// often as it came.
pub proof fn law_sort_by_position_sorts(ds: Seq<Diagnostic>)
    ensures
        positions_sorted(sort_by_position(ds)),
        sort_by_position(ds).to_multiset() == ds.to_multiset(),
    decreases ds.len(),
{
    broadcast use vstd::seq_lib::group_to_multiset_ensures;
    if ds.len() > 0 {
        law_sort_by_position_sorts(ds.drop_last());
        lemma_insert_sorted(sort_by_position(ds.drop_last()), ds.last());
        assert(ds =~= ds.drop_last().push(ds.last()));
    }
}

/// Two findings stand at the same position: the same file (by path components), line and
/// column.
pub open spec fn same_position(a: Diagnostic, b: Diagnostic) -> bool {
    path_components(a.file_path@) == path_components(b.file_path@) && a.line == b.line && a.column == b.column
}

proof fn lemma_same_position_le(a: Diagnostic, b: Diagnostic, k: Diagnostic)
    requires
        same_position(a, k),
        same_position(b, k),
    ensures
        position_le(a, b),
{
    lemma_order_paths_same(a.file_path@, b.file_path@);
}

proof fn lemma_insert_stable(sorted: Seq<Diagnostic>, x: Diagnostic, k: Diagnostic)
    ensures
        insert_by_position(sorted, x).filter(|y: Diagnostic| same_position(y, k))
            == if same_position(x, k) {
                sorted.filter(|y: Diagnostic| same_position(y, k)).push(x)
            } else {
                sorted.filter(|y: Diagnostic| same_position(y, k))
            },
    decreases sorted.len(),
{
    reveal(Seq::filter);
    let p = |y: Diagnostic| same_position(y, k);
    if sorted.len() == 0 {
        let one = seq![x];
        assert(one.drop_last() =~= Seq::<Diagnostic>::empty());
        assert(one.last() == x);
        assert(Seq::<Diagnostic>::empty().filter(p) =~= Seq::<Diagnostic>::empty());
        assert(sorted =~= Seq::<Diagnostic>::empty());
        if p(x) {
            assert(one.filter(p) =~= Seq::<Diagnostic>::empty().push(x));
        } else {
            assert(one.filter(p) =~= Seq::<Diagnostic>::empty());
        }
    } else if position_le(sorted.last(), x) {
        let r = sorted.push(x);
        assert(r.drop_last() =~= sorted);
        assert(r.last() == x);
    } else {
        let d = sorted.drop_last();
        lemma_insert_stable(d, x, k);
        let q = insert_by_position(d, x);
        let r = q.push(sorted.last());
        assert(r.drop_last() =~= q);
        assert(r.last() == sorted.last());
        assert(insert_by_position(sorted, x) == r);
        if same_position(x, k) && same_position(sorted.last(), k) {
            lemma_same_position_le(sorted.last(), x, k);
        }
        assert(sorted.filter(p) == if p(sorted.last()) { d.filter(p).push(sorted.last()) } else { d.filter(p) });
        assert(r.filter(p) == if p(sorted.last()) { q.filter(p).push(sorted.last()) } else { q.filter(p) });
    }
}

/// Sorting by position keeps findings at the same position in the order they came: taking the
/// findings at any one position from the sorted list gives them as they stood in the input.
pub proof fn law_sort_by_position_stable(ds: Seq<Diagnostic>, k: Diagnostic)
    ensures
        sort_by_position(ds).filter(|y: Diagnostic| same_position(y, k)) == ds.filter(|y: Diagnostic| same_position(y, k)),
    decreases ds.len(),
{
    reveal(Seq::filter);
    if ds.len() > 0 {
        law_sort_by_position_stable(ds.drop_last(), k);
        lemma_insert_stable(sort_by_position(ds.drop_last()), ds.last(), k);
    }
}

} // verus!
