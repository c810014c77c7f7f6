//! Presentation of findings: the choice of output format, the colored terminal report, and the
//! parts of a SARIF report that depend on the findings.

use crate::lint::diagnostics::{Diagnostic, DiagnosticLevel};
use crate::text::{chars_eq, chars_of, dec, push_all, push_str, str_eq, string_from_chars, u64_to_dec};
use vstd::prelude::*;

verus! {

/// The report formats.
#[derive(Debug, Clone, Copy, PartialEq, Eq, Structural)]
pub enum OutputFormat {
    Terminal,
    Sarif,
}

/// The format a name selects: `terminal` or `sarif`.
pub open spec fn spec_format_from_name(s: Seq<char>) -> Option<OutputFormat> {
    if s == "terminal"@ {
        Some(OutputFormat::Terminal)
    } else if s == "sarif"@ {
        Some(OutputFormat::Sarif)
    } else {
        None
    }
}

/// Reads a format from its name; any other text gives the message `unknown format: <text>`.
pub fn parse_format(s: &str) -> (r: Result<OutputFormat, String>)
    ensures
        match r {
            Ok(f) => spec_format_from_name(s@) == Some(f),
            Err(m) => spec_format_from_name(s@) is None && m@ == "unknown format: "@ + s@,
        },
{
    if str_eq(s, "terminal") {
        Ok(OutputFormat::Terminal)
    } else if str_eq(s, "sarif") {
        Ok(OutputFormat::Sarif)
    } else {
        let mut out: Vec<char> = Vec::new();
        push_str(&mut out, "unknown format: ");
        push_str(&mut out, s);
        Err(string_from_chars(out.as_slice()))
    }
}

impl std::str::FromStr for OutputFormat {
    type Err = String;

    fn from_str(s: &str) -> (r: Result<Self, String>)
        ensures
            match r {
                Ok(f) => spec_format_from_name(s@) == Some(f),
                Err(m) => spec_format_from_name(s@) is None && m@ == "unknown format: "@ + s@,
            },
    {
        parse_format(s)
    }
}

/// Renders findings as colored text for a terminal.
pub struct TerminalFormatter;

pub open spec fn reset() -> Seq<char> { "\x1b[0m"@ }
pub open spec fn bold() -> Seq<char> { "\x1b[1m"@ }
pub open spec fn dim() -> Seq<char> { "\x1b[2m"@ }
pub open spec fn red() -> Seq<char> { "\x1b[31m"@ }
pub open spec fn yellow() -> Seq<char> { "\x1b[33m"@ }

/// The label of a reported level.
pub open spec fn level_label(l: DiagnosticLevel) -> Seq<char> {
    if l == DiagnosticLevel::Warn { "warning"@ } else { "error"@ }
}

/// The color of a reported level.
pub open spec fn level_color(l: DiagnosticLevel) -> Seq<char> {
    if l == DiagnosticLevel::Warn { yellow() } else if l.spec_is_error() { red() } else { reset() }
}

/// The first line of a finding's block: level, rule id and message.
pub open spec fn head_line(d: Diagnostic) -> Seq<char> {
    level_color(d.level) + level_label(d.level) + reset() + dim() + "["@ + d.rule_id@ + "]"@ + reset()
        + ": "@ + d.message@ + "\n"@
}

/// The second line of a finding's block: `path:line:column`.
pub open spec fn location_line(d: Diagnostic) -> Seq<char> {
    "  "@ + bold() + "-->"@ + reset() + " "@ + d.file_path@ + ":"@ + dec(d.line as nat) + ":"@
        + dec(d.column as nat) + "\n"@
}

/// The line with the suggested fix, if the finding has one.
pub open spec fn help_line(d: Diagnostic) -> Seq<char> {
    match d.suggestion {
        Some(f) => "  "@ + dim() + "|"@ + reset() + " help: "@ + f.description@ + ": `"@ + f.replacement@
            + "`"@ + "\n"@,
        None => Seq::<char>::empty(),
    }
}

/// The block that reports one finding.
pub open spec fn render_diag(d: Diagnostic) -> Seq<char> {
    head_line(d) + location_line(d) + help_line(d) + "\n"@
}

/// The blocks of all findings that are not allowed, in order.
pub open spec fn render_blocks(ds: Seq<Diagnostic>) -> Seq<char>
    decreases ds.len(),
{
    if ds.len() == 0 {
        Seq::<char>::empty()
    } else if ds.last().level == DiagnosticLevel::Allow {
        render_blocks(ds.drop_last())
    } else {
        render_blocks(ds.drop_last()) + render_diag(ds.last())
    }
}

/// The number of findings of `ds` at level `Warn`.
pub open spec fn count_warnings(ds: Seq<Diagnostic>) -> nat
    decreases ds.len(),
{
    if ds.len() == 0 { 0 } else { count_warnings(ds.drop_last()) + if ds.last().level == DiagnosticLevel::Warn { 1nat } else { 0nat } }
}

/// The number of findings of `ds` at an error level.
pub open spec fn count_errors(ds: Seq<Diagnostic>) -> nat
    decreases ds.len(),
{
    if ds.len() == 0 { 0 } else { count_errors(ds.drop_last()) + if ds.last().level.spec_is_error() { 1nat } else { 0nat } }
}

/// `"<n> <noun>"`, with an `s` unless `n` is 1.
pub open spec fn counted(n: nat, noun: Seq<char>) -> Seq<char> {
    dec(n) + " "@ + noun + if n == 1 { Seq::<char>::empty() } else { "s"@ }
}

/// The closing line with the numbers of errors and warnings.
pub open spec fn summary_line(errors: nat, warnings: nat) -> Seq<char> {
    (if errors > 0 { red() } else { yellow() }) + counted(errors, "error"@) + ", "@ + counted(warnings, "warning"@)
        + reset() + "\n"@
}

/// The whole terminal report: a block per finding that is not allowed, then, if there was any,
/// the summary line.
pub open spec fn spec_render(ds: Seq<Diagnostic>) -> Seq<char> {
    let e = count_errors(ds);
    let w = count_warnings(ds);
    render_blocks(ds) + if e + w > 0 { summary_line(e, w) } else { Seq::<char>::empty() }
}

fn push_level(out: &mut Vec<char>, l: DiagnosticLevel)
    ensures
        final(out)@ == old(out)@ + level_color(l) + level_label(l),
{
    match l {
        DiagnosticLevel::Warn => {
            push_str(out, "\x1b[33m");
            push_str(out, "warning");
        },
        DiagnosticLevel::Deny | DiagnosticLevel::Forbid => {
            push_str(out, "\x1b[31m");
            push_str(out, "error");
        },
        DiagnosticLevel::Allow => {
            push_str(out, "\x1b[0m");
            push_str(out, "error");
        },
    }
    proof { assert(final(out)@ =~= old(out)@ + level_color(l) + level_label(l)); }
}

fn push_dec(out: &mut Vec<char>, n: usize)
    ensures
        final(out)@ == old(out)@ + dec(n as nat),
{
    let v = u64_to_dec(n as u64);
    push_all(out, v.as_slice());
}

fn push_counted(out: &mut Vec<char>, n: usize, noun: &str)
    ensures
        final(out)@ == old(out)@ + counted(n as nat, noun@),
{
    let ghost start = out@;
    push_dec(out, n);
    push_str(out, " ");
    push_str(out, noun);
    if n != 1 {
        push_str(out, "s");
    }
    proof { assert(out@ =~= start + counted(n as nat, noun@)); }
}

fn push_head(out: &mut Vec<char>, d: &Diagnostic)
    ensures
        final(out)@ == old(out)@ + head_line(*d),
{
    let ghost start = out@;
    push_level(out, d.level);
    push_str(out, "\x1b[0m");
    push_str(out, "\x1b[2m");
    push_str(out, "[");
    push_str(out, d.rule_id.as_str());
    push_str(out, "]");
    push_str(out, "\x1b[0m");
    push_str(out, ": ");
    push_str(out, d.message.as_str());
    push_str(out, "\n");
    proof { assert(out@ =~= start + head_line(*d)); }
}

fn push_location(out: &mut Vec<char>, d: &Diagnostic)
    ensures
        final(out)@ == old(out)@ + location_line(*d),
{
    let ghost start = out@;
    push_str(out, "  ");
    push_str(out, "\x1b[1m");
    push_str(out, "-->");
    push_str(out, "\x1b[0m");
    push_str(out, " ");
    push_str(out, d.file_path.as_str());
    push_str(out, ":");
    push_dec(out, d.line);
    push_str(out, ":");
    push_dec(out, d.column);
    push_str(out, "\n");
    proof { assert(out@ =~= start + location_line(*d)); }
}

fn push_help(out: &mut Vec<char>, d: &Diagnostic)
    ensures
        final(out)@ == old(out)@ + help_line(*d),
{
    let ghost start = out@;
    match &d.suggestion {
        Some(f) => {
            push_str(out, "  ");
            push_str(out, "\x1b[2m");
            push_str(out, "|");
            push_str(out, "\x1b[0m");
            push_str(out, " help: ");
            push_str(out, f.description.as_str());
            push_str(out, ": `");
            push_str(out, f.replacement.as_str());
            push_str(out, "`");
            push_str(out, "\n");
        },
        None => {},
    }
    proof { assert(out@ =~= start + help_line(*d)); }
}

fn render_one(out: &mut Vec<char>, d: &Diagnostic)
    ensures
        final(out)@ == old(out)@ + render_diag(*d),
{
    let ghost start = out@;
    push_head(out, d);
    push_location(out, d);
    push_help(out, d);
    push_str(out, "\n");
    proof { assert(out@ =~= start + render_diag(*d)); }
}

impl TerminalFormatter {
    /// The terminal report of `diagnostics`.
    pub fn render(&self, diagnostics: &[Diagnostic]) -> (r: String)
        ensures
            r@ == spec_render(diagnostics@),
    {
        let mut out: Vec<char> = Vec::new();
        let mut errors: usize = 0;
        let mut warnings: usize = 0;
        for i in 0..diagnostics.len()
            invariant
                out@ == render_blocks(diagnostics@.take(i as int)),
                errors == count_errors(diagnostics@.take(i as int)),
                warnings == count_warnings(diagnostics@.take(i as int)),
                errors + warnings <= i,
        {
            let d = &diagnostics[i];
            proof {
                assert(diagnostics@.take(i + 1).drop_last() =~= diagnostics@.take(i as int));
                assert(diagnostics@.take(i + 1).last() == *d);
            }
            if d.level != DiagnosticLevel::Allow {
                render_one(&mut out, d);
            }
            if d.level.is_error() {
                errors = errors + 1;
            }
            if d.level == DiagnosticLevel::Warn {
                warnings = warnings + 1;
            }
        }
        proof { assert(diagnostics@.take(diagnostics@.len() as int) =~= diagnostics@); }
        if errors + warnings > 0 {
            let ghost before = out@;
            if errors > 0 {
                push_str(&mut out, "\x1b[31m");
            } else {
                push_str(&mut out, "\x1b[33m");
            }
            push_counted(&mut out, errors, "error");
            push_str(&mut out, ", ");
            push_counted(&mut out, warnings, "warning");
            push_str(&mut out, "\x1b[0m");
            push_str(&mut out, "\n");
            proof { assert(out@ =~= before + summary_line(errors as nat, warnings as nat)); }
        } else {
            proof { assert(out@ =~= out@ + Seq::<char>::empty()); }
        }
        string_from_chars(out.as_slice())
    }
}

/// The SARIF `level` of a finding's level.
pub open spec fn spec_sarif_level(l: DiagnosticLevel) -> Seq<char> {
    match l {
        DiagnosticLevel::Allow => "none"@,
        DiagnosticLevel::Warn => "warning"@,
        _ => "error"@,
    }
}

pub fn sarif_level(l: DiagnosticLevel) -> (r: &'static str)
    ensures
        r@ == spec_sarif_level(l),
{
    match l {
        DiagnosticLevel::Allow => "none",
        DiagnosticLevel::Warn => "warning",
        _ => "error",
    }
}

/// The rule ids of `ds`, each once, in the order they first occur.
pub open spec fn distinct_ids(ds: Seq<Diagnostic>) -> Seq<Seq<char>>
    decreases ds.len(),
{
    if ds.len() == 0 {
        seq![]
    } else {
        let r = distinct_ids(ds.drop_last());
        if r.contains(ds.last().rule_id@) { r } else { r.push(ds.last().rule_id@) }
    }
}

/// The rule ids that the findings mention, each once, in order of first mention.
pub fn rule_ids(diagnostics: &[Diagnostic]) -> (r: Vec<String>)
    ensures
        r@.map_values(|s: String| s@) == distinct_ids(diagnostics@),
{
    let mut r: Vec<String> = Vec::new();
    for i in 0..diagnostics.len()
        invariant
            r@.map_values(|s: String| s@) == distinct_ids(diagnostics@.take(i as int)),
    {
        let id = &diagnostics[i].rule_id;
        proof {
            assert(diagnostics@.take(i + 1).drop_last() =~= diagnostics@.take(i as int));
            assert(diagnostics@.take(i + 1).last() == diagnostics@[i as int]);
        }
        let ghost prev = r@.map_values(|s: String| s@);
        let mut found = false;
        for j in 0..r.len()
            invariant
                prev == r@.map_values(|s: String| s@),
                found ==> prev.contains(id@),
                !found ==> forall|k: int| 0 <= k < j ==> prev[k] != id@,
        {
            if !found && str_eq(r[j].as_str(), id.as_str()) {
                found = true;
                proof { assert(prev[j as int] == id@); }
            }
        }
        if !found {
            r.push(id.clone());
            proof { assert(r@.map_values(|s: String| s@) =~= prev.push(id@)); }
        }
    }
    proof { assert(diagnostics@.take(diagnostics@.len() as int) =~= diagnostics@); }
    r
}

/// Whether a run fails: some finding is an error, or warnings are denied and there is any
/// finding at all.
pub fn run_fails(diagnostics: &[Diagnostic], deny_warnings: bool) -> (r: bool)
    ensures
        r == (crate::lint::diagnostics::any_error(diagnostics@) || (deny_warnings && diagnostics@.len() > 0)),
{
    Diagnostic::has_errors(diagnostics) || (deny_warnings && diagnostics.len() > 0)
}

/// The length of the byte range a suggested edit replaces, as a SARIF replacement's
/// `byteLength` gives it.
pub fn fix_byte_length(fix: &crate::lint::diagnostics::Fix) -> (r: usize)
    requires
        fix.start_byte <= fix.end_byte,
    ensures
        r == fix.end_byte - fix.start_byte,
{
    fix.end_byte - fix.start_byte
}

} // verus!
