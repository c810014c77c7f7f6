//! Compiler-style diagnostics made from coverage gaps and surviving mutants, and the byte
//! offsets of their spans.

use crate::ctl::coverage::CoverageGap;
use crate::ctl::mutation::{MutationKind, MutationKindView, SurvivingMutant};
use crate::ctl::span::{compute_line_offsets, lemma_line_offsets_bounds, line_offsets, line_offset_or};
use crate::text::{dec, push_all, push_str, str_eq, string_from_chars, u64_to_dec};
use vstd::prelude::*;
use vstd::string::StringSliceAdditionalSpecFns;

verus! {

/// The serialized findings for one file, with the time they were made.
#[derive(Debug)]
pub struct DiagnosticEntry {
    pub file_path: String,
    pub diagnostics_json: String,
    pub timestamp: u64,
}

impl Clone for DiagnosticEntry {
    fn clone(&self) -> (r: Self)
        ensures
            r == *self,
    {
        DiagnosticEntry {
            file_path: self.file_path.clone(),
            diagnostics_json: self.diagnostics_json.clone(),
            timestamp: self.timestamp,
        }
    }
}

/// A finding in the shape of a compiler diagnostic.
#[derive(Debug)]
pub struct Diagnostic {
    pub message: String,
    pub code: Option<DiagnosticCode>,
    pub level: DiagnosticLevel,
    pub spans: Vec<DiagnosticSpan>,
    pub children: Vec<Diagnostic>,
}

/// The code of a diagnostic and what it means.
#[derive(Debug, Clone)]
pub struct DiagnosticCode {
    pub code: String,
    pub explanation: Option<String>,
}

/// How serious a diagnostic is.
#[derive(Debug, Clone, Copy, PartialEq, Eq, Structural)]
pub enum DiagnosticLevel {
    Error,
    Warning,
    Note,
}

/// A region of a file that a diagnostic points at.
#[derive(Debug, Clone)]
pub struct DiagnosticSpan {
    pub file_name: String,
    pub byte_start: usize,
    pub byte_end: usize,
    pub line_start: usize,
    pub line_end: usize,
    pub column_start: usize,
    pub column_end: usize,
    pub is_primary: bool,
    pub label: Option<String>,
    pub suggested_replacement: Option<String>,
    pub suggestion_applicability: Option<String>,
    pub expansion: Option<String>,
}

/// `o` holds a string whose text is `t`.
pub open spec fn text_is(o: Option<String>, t: Seq<char>) -> bool {
    o matches Some(s) && s@ == t
}

/// `c` is the code `code` with the explanation `explanation`.
pub open spec fn code_is(c: Option<DiagnosticCode>, code: Seq<char>, explanation: Seq<char>) -> bool {
    c matches Some(dc) && dc.code@ == code && text_is(dc.explanation, explanation)
}

/// `s` points at line `line`, columns `cs..ce`, of `file`, with no byte offsets yet, no
/// suggested replacement and no macro expansion.
pub open spec fn span_at(s: DiagnosticSpan, file: Seq<char>, line: int, cs: int, ce: int) -> bool {
    &&& s.file_name@ == file
    &&& s.byte_start == 0
    &&& s.byte_end == 0
    &&& s.line_start == line
    &&& s.line_end == line
    &&& s.column_start == cs
    &&& s.column_end == ce
    &&& s.suggested_replacement is None
    &&& s.expansion is None
}

/// `"line"` or `"branch"`.
pub open spec fn gap_kind(g: CoverageGap) -> Seq<char> {
    if g.is_branch { "branch"@ } else { "line"@ }
}

/// The first column of a gap: its start column, or 1.
pub open spec fn gap_col_start(g: CoverageGap) -> int {
    match g.column_start { Some(c) => c as int, None => 1 }
}

/// The column after a gap: its end column, or the one after its start.
pub open spec fn gap_col_end(g: CoverageGap) -> int {
    match g.column_end { Some(c) => c as int, None => gap_col_start(g) + 1 }
}

/// `d` is the warning that reports the gap `g`.
pub open spec fn reports_gap(g: CoverageGap, d: Diagnostic) -> bool {
    &&& d.message@ == "uncovered "@ + gap_kind(g) + " at line "@ + dec(g.line as nat) + " (executed "@
        + dec(g.count as nat) + " times)"@
    &&& code_is(d.code, "CTL_COVERAGE"@, "code not covered by tests"@)
    &&& d.level == DiagnosticLevel::Warning
    &&& d.spans@.len() == 1
    &&& span_at(d.spans@[0], g.file_path@, g.line as int, gap_col_start(g), gap_col_end(g))
    &&& d.spans@[0].is_primary
    &&& text_is(d.spans@[0].label, "uncovered "@ + gap_kind(g))
    &&& d.spans@[0].suggestion_applicability is None
    &&& d.children@.len() == 0
}

fn push_dec(out: &mut Vec<char>, n: u64)
    ensures
        final(out)@ == old(out)@ + dec(n as nat),
{
    let v = u64_to_dec(n);
    push_all(out, v.as_slice());
}

fn text_of(parts: &Vec<char>) -> (r: String)
    ensures
        r@ == parts@,
{
    string_from_chars(parts.as_slice())
}

fn some_text(s: &str) -> (r: Option<String>)
    ensures
        text_is(r, s@),
{
    Some(String::from_str(s))
}

/// The columns of a gap fit in `usize`.
pub open spec fn gap_columns_fit(g: CoverageGap) -> bool {
    gap_col_start(g) + 1 <= usize::MAX
}

fn gap_diagnostic(g: &CoverageGap) -> (d: Diagnostic)
    requires
        gap_columns_fit(*g),
    ensures
        reports_gap(*g, d),
{
    let mut kind: Vec<char> = Vec::new();
    if g.is_branch { push_str(&mut kind, "branch"); } else { push_str(&mut kind, "line"); }
    let col_start: usize = match g.column_start { Some(c) => c as usize, None => 1 };
    let col_end: usize = match g.column_end { Some(c) => c as usize, None => col_start + 1 };
    let mut msg: Vec<char> = Vec::new();
    push_str(&mut msg, "uncovered ");
    push_all(&mut msg, kind.as_slice());
    push_str(&mut msg, " at line ");
    push_dec(&mut msg, g.line as u64);
    push_str(&mut msg, " (executed ");
    push_dec(&mut msg, g.count);
    push_str(&mut msg, " times)");
    let mut label: Vec<char> = Vec::new();
    push_str(&mut label, "uncovered ");
    push_all(&mut label, kind.as_slice());
    let mut spans: Vec<DiagnosticSpan> = Vec::new();
    spans.push(DiagnosticSpan {
        file_name: g.file_path.clone(),
        byte_start: 0,
        byte_end: 0,
        line_start: g.line as usize,
        line_end: g.line as usize,
        column_start: col_start,
        column_end: col_end,
        is_primary: true,
        label: Some(text_of(&label)),
        suggested_replacement: None,
        suggestion_applicability: None,
        expansion: None,
    });
    let d = Diagnostic {
        message: text_of(&msg),
        code: Some(DiagnosticCode {
            code: String::from_str("CTL_COVERAGE"),
            explanation: some_text("code not covered by tests"),
        }),
        level: DiagnosticLevel::Warning,
        spans,
        children: Vec::new(),
    };
    proof {
        assert(kind@ == gap_kind(*g));
        assert(d.message@ =~= "uncovered "@ + gap_kind(*g) + " at line "@ + dec(g.line as nat) + " (executed "@
            + dec(g.count as nat) + " times)"@);
    }
    d
}

/// One warning per coverage gap, in order.
pub fn coverage_to_diagnostics(gaps: &[CoverageGap]) -> (r: Vec<Diagnostic>)
    requires
        forall|i: int| 0 <= i < gaps@.len() ==> gap_columns_fit(#[trigger] gaps@[i]),
    ensures
        r@.len() == gaps@.len(),
        forall|i: int| 0 <= i < gaps@.len() ==> reports_gap(#[trigger] gaps@[i], r@[i]),
{
    let mut r: Vec<Diagnostic> = Vec::new();
    for i in 0..gaps.len()
        invariant
            r@.len() == i,
            forall|k: int| 0 <= k < gaps@.len() ==> gap_columns_fit(#[trigger] gaps@[k]),
            forall|k: int| 0 <= k < i ==> reports_gap(#[trigger] gaps@[k], r@[k]),
    {
        let d = gap_diagnostic(&gaps[i]);
        r.push(d);
    }
    r
}

/// The text that `{:?}` gives for a string: quoted, with special characters escaped.
pub uninterp spec fn debug_str(s: Seq<char>) -> Seq<char>;

/// Formats `s` with `{:?}` (`<str as Debug>::fmt`): the result is the string in double quotes
/// with its special characters escaped, as `debug_str` names it; that it is quoted is all that
/// is stated of its characters.
#[verifier::external_body]
fn debug_quoted(s: &str) -> (r: String)
    ensures
        r@ == debug_str(s@),
        r@.len() >= 2,
        r@[0] == '"',
        r@.last() == '"',
{
    format!("{:?}", s)
}

/// How `{:?}` prints a mutation kind: the variant's name, and for `Other` its text in quotes.
pub open spec fn kind_debug(k: MutationKindView) -> Seq<char> {
    match k {
        MutationKindView::Arithmetic => "Arithmetic"@,
        MutationKindView::Boundary => "Boundary"@,
        MutationKindView::NegateCondition => "NegateCondition"@,
        MutationKindView::VoidReturnValue => "VoidReturnValue"@,
        MutationKindView::ReplaceWithDefault => "ReplaceWithDefault"@,
        MutationKindView::ReplaceWithLiteral => "ReplaceWithLiteral"@,
        MutationKindView::ReplaceOperator => "ReplaceOperator"@,
        MutationKindView::RemoveStmt => "RemoveStmt"@,
        MutationKindView::UnwrapToExpect => "UnwrapToExpect"@,
        MutationKindView::Other(s) => "Other("@ + debug_str(s) + ")"@,
    }
}

fn push_kind_debug(out: &mut Vec<char>, k: &MutationKind)
    ensures
        final(out)@ == old(out)@ + kind_debug(k@),
{
    match k {
        MutationKind::Arithmetic => push_str(out, "Arithmetic"),
        MutationKind::Boundary => push_str(out, "Boundary"),
        MutationKind::NegateCondition => push_str(out, "NegateCondition"),
        MutationKind::VoidReturnValue => push_str(out, "VoidReturnValue"),
        MutationKind::ReplaceWithDefault => push_str(out, "ReplaceWithDefault"),
        MutationKind::ReplaceWithLiteral => push_str(out, "ReplaceWithLiteral"),
        MutationKind::ReplaceOperator => push_str(out, "ReplaceOperator"),
        MutationKind::RemoveStmt => push_str(out, "RemoveStmt"),
        MutationKind::UnwrapToExpect => push_str(out, "UnwrapToExpect"),
        MutationKind::Other(s) => {
            let ghost start = out@;
            push_str(out, "Other(");
            let q = debug_quoted(s.as_str());
            push_str(out, q.as_str());
            push_str(out, ")");
            proof { assert(out@ =~= start + kind_debug(k@)); }
        },
    }
}

/// The first column of a mutant: its start column, or 1.
pub open spec fn mutant_col_start(m: SurvivingMutant) -> int {
    match m.col_start { Some(c) => c as int, None => 1 }
}

/// The column after a mutant: its end column, or its start column moved on by the byte length
/// of the original text.
pub open spec fn mutant_col_end(m: SurvivingMutant) -> int {
    match m.col_end {
        Some(c) => c as int,
        None => mutant_col_start(m) + vstd::utf8::encode_utf8(m.original@).len(),
    }
}

/// `d` is the note that shows the diff of a mutant.
pub open spec fn diff_note(m: SurvivingMutant, hunk: Seq<char>, d: Diagnostic) -> bool {
    &&& d.message@ == hunk
    &&& d.code is None
    &&& d.level == DiagnosticLevel::Note
    &&& d.spans@.len() == 1
    &&& span_at(d.spans@[0], m.file_path@, m.line as int, mutant_col_start(m), mutant_col_end(m))
    &&& !d.spans@[0].is_primary
    &&& text_is(d.spans@[0].label, "suggested fix"@)
    &&& text_is(d.spans@[0].suggestion_applicability, "MachineApplicable"@)
    &&& d.children@.len() == 0
}

/// `d` is the warning that reports the surviving mutant `m`, with the note showing its diff
/// when it has one.
pub open spec fn reports_mutant(m: SurvivingMutant, d: Diagnostic) -> bool {
    &&& d.message@ == "surviving mutation: "@ + kind_debug(m.mutation_type@) + " — `"@ + m.original@
        + "` → `"@ + m.replacement@ + "`"@
    &&& code_is(d.code, "CTL_MUTANT"@, "mutation survived — test suite did not kill this mutant"@)
    &&& d.level == DiagnosticLevel::Warning
    &&& d.spans@.len() == 1
    &&& span_at(d.spans@[0], m.file_path@, m.line as int, mutant_col_start(m), mutant_col_end(m))
    &&& d.spans@[0].is_primary
    &&& text_is(d.spans@[0].label, "surviving mutant"@)
    &&& d.spans@[0].suggestion_applicability is None
    &&& match m.diff_hunk {
        Some(h) => d.children@.len() == 1 && diff_note(m, h@, d.children@[0]),
        None => d.children@.len() == 0,
    }
}

/// The columns of a mutant fit in `usize`.
pub open spec fn mutant_columns_fit(m: SurvivingMutant) -> bool {
    mutant_col_start(m) + vstd::utf8::encode_utf8(m.original@).len() <= usize::MAX
}

fn mutant_diagnostic(m: &SurvivingMutant) -> (d: Diagnostic)
    requires
        mutant_columns_fit(*m),
    ensures
        reports_mutant(*m, d),
{
    let col_start: usize = match m.col_start { Some(c) => c as usize, None => 1 };
    let col_end: usize = match m.col_end { Some(c) => c as usize, None => col_start + m.original.as_str().len() };
    let mut children: Vec<Diagnostic> = Vec::new();
    match &m.diff_hunk {
        Some(diff) => {
            let mut spans: Vec<DiagnosticSpan> = Vec::new();
            spans.push(DiagnosticSpan {
                file_name: m.file_path.clone(),
                byte_start: 0,
                byte_end: 0,
                line_start: m.line as usize,
                line_end: m.line as usize,
                column_start: col_start,
                column_end: col_end,
                is_primary: false,
                label: some_text("suggested fix"),
                suggested_replacement: None,
                suggestion_applicability: some_text("MachineApplicable"),
                expansion: None,
            });
            children.push(Diagnostic {
                message: diff.clone(),
                code: None,
                level: DiagnosticLevel::Note,
                spans,
                children: Vec::new(),
            });
        },
        None => {},
    }
    let mut msg: Vec<char> = Vec::new();
    push_str(&mut msg, "surviving mutation: ");
    push_kind_debug(&mut msg, &m.mutation_type);
    push_str(&mut msg, " — `");
    push_str(&mut msg, m.original.as_str());
    push_str(&mut msg, "` → `");
    push_str(&mut msg, m.replacement.as_str());
    push_str(&mut msg, "`");
    let mut spans: Vec<DiagnosticSpan> = Vec::new();
    spans.push(DiagnosticSpan {
        file_name: m.file_path.clone(),
        byte_start: 0,
        byte_end: 0,
        line_start: m.line as usize,
        line_end: m.line as usize,
        column_start: col_start,
        column_end: col_end,
        is_primary: true,
        label: some_text("surviving mutant"),
        suggested_replacement: None,
        suggestion_applicability: None,
        expansion: None,
    });
    let d = Diagnostic {
        message: text_of(&msg),
        code: Some(DiagnosticCode {
            code: String::from_str("CTL_MUTANT"),
            explanation: some_text("mutation survived — test suite did not kill this mutant"),
        }),
        level: DiagnosticLevel::Warning,
        spans,
        children,
    };
    proof {
        assert(d.message@ =~= "surviving mutation: "@ + kind_debug(m.mutation_type@) + " — `"@ + m.original@
            + "` → `"@ + m.replacement@ + "`"@);
    }
    d
}

/// One warning per surviving mutant, in order.
pub fn mutant_to_diagnostics(mutants: &[SurvivingMutant]) -> (r: Vec<Diagnostic>)
    requires
        forall|i: int| 0 <= i < mutants@.len() ==> mutant_columns_fit(#[trigger] mutants@[i]),
    ensures
        r@.len() == mutants@.len(),
        forall|i: int| 0 <= i < mutants@.len() ==> reports_mutant(#[trigger] mutants@[i], r@[i]),
{
    let mut r: Vec<Diagnostic> = Vec::new();
    for i in 0..mutants.len()
        invariant
            r@.len() == i,
            forall|k: int| 0 <= k < mutants@.len() ==> mutant_columns_fit(#[trigger] mutants@[k]),
            forall|k: int| 0 <= k < i ==> reports_mutant(#[trigger] mutants@[k], r@[k]),
    {
        let d = mutant_diagnostic(&mutants[i]);
        r.push(d);
    }
    r
}

/// The text of the first source named `name`, if any.
pub open spec fn find_source(sources: Seq<(String, String)>, name: Seq<char>) -> Option<String>
    decreases sources.len(),
{
    if sources.len() == 0 {
        None
    } else if sources[0].0@ == name {
        Some(sources[0].1)
    } else {
        find_source(sources.drop_first(), name)
    }
}

/// The byte offset of a line and column in the text with bytes `b`, counted from 1 and kept
/// within the text; 0 for a line past the end.
pub open spec fn resolved_offset(b: Seq<u8>, line: int, col: int) -> int {
    let o = line_offset_or(b, line, 0) + if col >= 1 { col - 1 } else { 0 };
    if o <= b.len() { o } else { b.len() as int }
}

/// `r` is `s` with its byte offsets taken from the first source named like its file; a span
/// of a file without a source is left as it is.
pub open spec fn span_resolved(s: DiagnosticSpan, r: DiagnosticSpan, sources: Seq<(String, String)>) -> bool {
    match find_source(sources, s.file_name@) {
        Some(text) => {
            let b = vstd::utf8::encode_utf8(text@);
            r == DiagnosticSpan {
                byte_start: resolved_offset(b, s.line_start as int, s.column_start as int) as usize,
                byte_end: resolved_offset(b, s.line_end as int, s.column_end as int) as usize,
                ..s
            }
        },
        None => r == s,
    }
}

/// `r` is `d` with the byte offsets of all its spans, and of those of its children at every
/// depth, taken from `sources`; nothing else changes.
pub open spec fn diagnostic_resolved(d: Diagnostic, r: Diagnostic, sources: Seq<(String, String)>) -> bool
    decreases d,
{
    &&& r.message == d.message
    &&& r.code == d.code
    &&& r.level == d.level
    &&& r.spans@.len() == d.spans@.len()
    &&& forall|j: int| 0 <= j < d.spans@.len() ==> span_resolved(#[trigger] d.spans@[j], r.spans@[j], sources)
    &&& r.children@.len() == d.children@.len()
    &&& forall|j: int| 0 <= j < d.children@.len() ==> diagnostic_resolved(#[trigger] d.children@[j], r.children@[j], sources)
}

/// The index of the first source named `name`.
fn lookup_source(sources: &[(String, String)], name: &String) -> (r: Option<usize>)
    ensures
        match r {
            Some(i) => i < sources@.len() && find_source(sources@, name@) == Some(sources@[i as int].1),
            None => find_source(sources@, name@) is None,
        },
{
    let ghost all = sources@;
    proof { assert(all.subrange(0, all.len() as int) =~= all); }
    for i in 0..sources.len()
        invariant
            all == sources@,
            find_source(all, name@) == find_source(all.subrange(i as int, all.len() as int), name@),
    {
        let ghost rest = all.subrange(i as int, all.len() as int);
        proof { assert(rest.drop_first() =~= all.subrange(i + 1, all.len() as int)); }
        if str_eq(sources[i].0.as_str(), name.as_str()) {
            return Some(i);
        }
    }
    None
}

/// The byte offset of a line and column in `bytes`, given the offsets of its lines.
fn resolve_offset(bytes: &[u8], offsets: &Vec<usize>, line: usize, col: usize) -> (r: usize)
    requires
        offsets@.len() == line_offsets(bytes@).len(),
        forall|i: int| 0 <= i < offsets@.len() ==> offsets@[i] as int == #[trigger] line_offsets(bytes@)[i],
        forall|i: int| 0 <= i < offsets@.len() ==> offsets@[i] <= bytes@.len(),
    ensures
        r as int == resolved_offset(bytes@, line as int, col as int),
{
    let k: usize = if line >= 1 { line - 1 } else { 0 };
    let base: usize = if k < offsets.len() { offsets[k] } else { 0 };
    proof {
        if k < offsets@.len() { assert(offsets@[k as int] as int == line_offsets(bytes@)[k as int]); }
    }
    let shift: usize = if col >= 1 { col - 1 } else { 0 };
    if shift <= bytes.len() - base { base + shift } else { bytes.len() }
}

fn resolve_span(s: DiagnosticSpan, sources: &[(String, String)]) -> (r: DiagnosticSpan)
    ensures
        span_resolved(s, r, sources@),
{
    match lookup_source(sources, &s.file_name) {
        None => s,
        Some(i) => {
            let bytes = sources[i].1.as_str().as_bytes();
            let offsets = compute_line_offsets(bytes);
            proof {
                lemma_line_offsets_bounds(bytes@);
                assert forall|j: int| 0 <= j < offsets@.len() implies offsets@[j] <= bytes@.len() by {
                    assert(offsets@[j] as int == line_offsets(bytes@)[j]);
                }
            }
            let byte_start = resolve_offset(bytes, &offsets, s.line_start, s.column_start);
            let byte_end = resolve_offset(bytes, &offsets, s.line_end, s.column_end);
            DiagnosticSpan { byte_start, byte_end, ..s }
        },
    }
}

fn resolve_diagnostic(d: Diagnostic, sources: &[(String, String)]) -> (r: Diagnostic)
    ensures
        diagnostic_resolved(d, r, sources@),
    decreases d,
{
    let ghost d0 = d;
    let Diagnostic { message, code, level, spans, children } = d;
    let mut spans = spans;
    let mut new_spans: Vec<DiagnosticSpan> = Vec::new();
    while spans.len() > 0
        invariant
            new_spans@.len() + spans@.len() == d0.spans@.len(),
            spans@ == d0.spans@.subrange(new_spans@.len() as int, d0.spans@.len() as int),
            forall|j: int| 0 <= j < new_spans@.len() ==> span_resolved(#[trigger] d0.spans@[j], new_spans@[j], sources@),
        decreases spans@.len(),
    {
        let ghost k = new_spans@.len() as int;
        let s = spans.remove(0);
        proof { assert(s == d0.spans@[k]); }
        let rs = resolve_span(s, sources);
        new_spans.push(rs);
        proof { assert(spans@ =~= d0.spans@.subrange(k + 1, d0.spans@.len() as int)); }
    }
    let mut children = children;
    let mut new_children: Vec<Diagnostic> = Vec::new();
    while children.len() > 0
        invariant
            d0 == d,
            new_children@.len() + children@.len() == d0.children@.len(),
            children@ == d0.children@.subrange(new_children@.len() as int, d0.children@.len() as int),
            forall|j: int| 0 <= j < new_children@.len() ==> diagnostic_resolved(#[trigger] d0.children@[j], new_children@[j], sources@),
        decreases children@.len(),
    {
        let ghost k = new_children@.len() as int;
        let c = children.remove(0);
        proof {
            assert(c == d0.children@[k]);
            assert(decreases_to!(d0 => d0.children));
            assert(decreases_to!(d0.children => d0.children@));
            assert(decreases_to!(d0.children@ => d0.children@[k]));
        }
        let rc = resolve_diagnostic(c, sources);
        new_children.push(rc);
        proof { assert(children@ =~= d0.children@.subrange(k + 1, d0.children@.len() as int)); }
    }
    Diagnostic { message, code, level, spans: new_spans, children: new_children }
}

/// Fills in the byte offsets of every span of `diags`, children included, from the texts of the
/// files they name; `sources` pairs a file name with its text, and the first pair with a name
/// counts. A span whose file has no text keeps the offsets it had.
pub fn resolve_byte_offsets(diags: &mut Vec<Diagnostic>, sources: &[(String, String)])
    ensures
        final(diags)@.len() == old(diags)@.len(),
        forall|i: int| 0 <= i < old(diags)@.len() ==> diagnostic_resolved(#[trigger] old(diags)@[i], final(diags)@[i], sources@),
{
    let ghost d0 = diags@;
    let mut pending: Vec<Diagnostic> = Vec::new();
    std::mem::swap(diags, &mut pending);
    while pending.len() > 0
        invariant
            diags@.len() + pending@.len() == d0.len(),
            pending@ == d0.subrange(diags@.len() as int, d0.len() as int),
            forall|j: int| 0 <= j < diags@.len() ==> diagnostic_resolved(#[trigger] d0[j], diags@[j], sources@),
        decreases pending@.len(),
    {
        let ghost k = diags@.len() as int;
        let d = pending.remove(0);
        proof { assert(d == d0[k]); }
        let rd = resolve_diagnostic(d, sources);
        diags.push(rd);
        proof { assert(pending@ =~= d0.subrange(k + 1, d0.len() as int)); }
    }
}

} // verus!
