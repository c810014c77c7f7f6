//! What the daemon reads from a `cargo mutants` outcomes file: the mutants that survived.

use crate::ctl::mutation::{MutationKind, MutationKindView, MutationReport, SurvivingMutant};
use crate::daemon::cache::join_rel;
use crate::text::{push_str, string_from_chars};
use vstd::prelude::*;

verus! {

/// A line and column of a source file.
#[derive(Debug, Clone, Copy)]
pub struct LineCol {
    pub line: u32,
    pub column: u32,
}

/// Where a mutant or function starts and ends.
#[derive(Debug, Clone, Copy)]
pub struct SpanInfo {
    pub start: LineCol,
    pub end: LineCol,
}

/// The function a mutant lies in.
#[derive(Debug)]
pub struct FunctionInfo {
    pub function_name: String,
}

/// The kind of code a mutant changes.
#[derive(Debug, Clone, Copy, PartialEq, Eq, Structural)]
pub enum GenreInfo {
    FnValue,
    BinaryOperator,
    UnaryOperator,
    MatchArm,
    MatchArmGuard,
    StructField,
}

/// A mutant as `cargo mutants` describes it.
#[derive(Debug)]
pub struct MutantInfo {
    pub name: String,
    pub file: String,
    pub function: Option<FunctionInfo>,
    pub span: SpanInfo,
    pub replacement: String,
    pub genre: GenreInfo,
}

/// What a scenario tested: the unmutated tree, or one mutant.
#[derive(Debug)]
pub enum Scenario {
    Baseline,
    Mutant(MutantInfo),
}

/// How a scenario ended.
#[derive(Debug, Clone, Copy, PartialEq, Eq, Structural)]
pub enum SummaryOutcome {
    Success,
    CaughtMutant,
    MissedMutant,
    Unviable,
    Failure,
    Timeout,
}

/// One scenario of a run: what it tested, how it ended, and where its diff is.
#[derive(Debug)]
pub struct ScenarioOutcome {
    pub scenario: Scenario,
    pub summary: SummaryOutcome,
    pub diff_path: Option<String>,
}

/// The outcomes of a run and its counts.
#[derive(Debug)]
pub struct LabOutcome {
    pub outcomes: Vec<ScenarioOutcome>,
    pub total_mutants: usize,
    pub missed: usize,
    pub caught: usize,
    pub timeout: usize,
}

/// The mutation kind that a genre is reported as.
pub open spec fn genre_kind(g: GenreInfo) -> MutationKindView {
    match g {
        GenreInfo::FnValue => MutationKindView::VoidReturnValue,
        GenreInfo::BinaryOperator => MutationKindView::ReplaceOperator,
        GenreInfo::UnaryOperator => MutationKindView::ReplaceOperator,
        GenreInfo::MatchArm => MutationKindView::RemoveStmt,
        GenreInfo::MatchArmGuard => MutationKindView::ReplaceWithLiteral,
        GenreInfo::StructField => MutationKindView::RemoveStmt,
    }
}

/// The mutation kind that a genre is reported as.
pub fn genre_to_mutation_kind(genre: &GenreInfo) -> (r: MutationKind)
    ensures
        r@ == genre_kind(*genre),
{
    match genre {
        GenreInfo::FnValue => MutationKind::VoidReturnValue,
        GenreInfo::BinaryOperator => MutationKind::ReplaceOperator,
        GenreInfo::UnaryOperator => MutationKind::ReplaceOperator,
        GenreInfo::MatchArm => MutationKind::RemoveStmt,
        GenreInfo::MatchArmGuard => MutationKind::ReplaceWithLiteral,
        GenreInfo::StructField => MutationKind::RemoveStmt,
    }
}

/// The code a mutant replaced, as far as it is known: for a replaced function body, the
/// function with an elided body; otherwise nothing.
pub open spec fn original_text(info: MutantInfo) -> Seq<char> {
    match info.function {
        Some(f) => if info.genre == GenreInfo::FnValue { "fn "@ + f.function_name@ + "() { ... }"@ } else { Seq::empty() },
        None => Seq::empty(),
    }
}

/// The code a mutant replaced, as far as it is known.
pub fn extract_original(info: &MutantInfo) -> (r: String)
    ensures
        r@ == original_text(*info),
{
    match &info.function {
        Some(f) => {
            if info.genre == GenreInfo::FnValue {
                let mut out: Vec<char> = Vec::new();
                push_str(&mut out, "fn ");
                push_str(&mut out, f.function_name.as_str());
                push_str(&mut out, "() { ... }");
                proof { assert(out@ =~= "fn "@ + f.function_name@ + "() { ... }"@); }
                return string_from_chars(out.as_slice());
            }
        },
        None => {},
    }
    String::new()
}

/// A mutant that the tests missed.
pub open spec fn is_survivor(o: ScenarioOutcome) -> bool {
    o.scenario is Mutant && o.summary == SummaryOutcome::MissedMutant
}

/// `p` relative to `base` as `Path::join` takes it: an absolute `p` stands alone.
pub open spec fn join_path(base: Seq<char>, p: Seq<char>) -> Seq<char> {
    if p.len() > 0 && p[0] == '/' { p } else { join_rel(base, p) }
}

/// The diff file to read for an outcome: that of a survivor that has one, in `mutants_dir`.
pub open spec fn diff_file(o: ScenarioOutcome, mutants_dir: Seq<char>) -> Option<Seq<char>> {
    if is_survivor(o) {
        match o.diff_path {
            Some(p) => Some(join_path(mutants_dir, p@)),
            None => None,
        }
    } else {
        None
    }
}

/// The diff file to read for an outcome, if any: only survivors' diffs are reported.
pub fn diff_file_for(outcome: &ScenarioOutcome, mutants_dir: &str) -> (r: Option<String>)
    ensures
        match r {
            Some(p) => diff_file(*outcome, mutants_dir@) == Some(p@),
            None => diff_file(*outcome, mutants_dir@) is None,
        },
{
    let survivor = match &outcome.scenario {
        Scenario::Mutant(_) => outcome.summary == SummaryOutcome::MissedMutant,
        Scenario::Baseline => false,
    };
    if !survivor {
        return None;
    }
    match &outcome.diff_path {
        Some(p) => {
            let pc = crate::text::chars_of(p.as_str());
            if pc.len() > 0 && pc[0] == '/' {
                Some(p.clone())
            } else {
                let mut out = crate::text::chars_of(mutants_dir);
                let n = out.len();
                if n > 0 && out[n - 1] != '/' {
                    out.push('/');
                }
                crate::text::push_all(&mut out, pc.as_slice());
                Some(string_from_chars(out.as_slice()))
            }
        },
        None => None,
    }
}

/// The text of an optional string.
pub open spec fn opt_text(o: Option<String>) -> Option<Seq<char>> {
    match o {
        Some(s) => Some(s@),
        None => None,
    }
}

/// `m` is the surviving mutant that an outcome with mutant `info` reports, with `diff` as its
/// diff.
pub open spec fn reports_survivor(info: MutantInfo, diff: Option<String>, m: SurvivingMutant) -> bool {
    &&& m.file_path@ == info.file@
    &&& m.line == info.span.start.line
    &&& m.col_start == Some(info.span.start.column)
    &&& m.col_end == Some(info.span.end.column)
    &&& m.mutation_type@ == genre_kind(info.genre)
    &&& m.replacement@ == info.replacement@
    &&& m.original@ == original_text(info)
    &&& opt_text(m.diff_hunk) == opt_text(diff)
}

/// The positions of the survivors among the first `n` outcomes, in order.
pub open spec fn survivor_positions(outs: Seq<ScenarioOutcome>, n: int) -> Seq<int>
    decreases n,
{
    if n <= 0 {
        Seq::empty()
    } else if is_survivor(outs[n - 1]) {
        survivor_positions(outs, n - 1).push(n - 1)
    } else {
        survivor_positions(outs, n - 1)
    }
}

proof fn lemma_positions_bound(outs: Seq<ScenarioOutcome>, n: int)
    ensures
        forall|j: int| 0 <= j < survivor_positions(outs, n).len() ==> 0 <= #[trigger] survivor_positions(outs, n)[j] < n,
        survivor_positions(outs, n).len() <= if n < 0 { 0 } else { n },
    decreases n,
{
    if n > 0 {
        lemma_positions_bound(outs, n - 1);
    }
}

/// `ms` are the survivors among the first `n` outcomes, in order, each with its diff.
pub open spec fn survivors_reported(outs: Seq<ScenarioOutcome>, diffs: Seq<Option<String>>, n: int, ms: Seq<SurvivingMutant>) -> bool {
    &&& ms.len() == survivor_positions(outs, n).len()
    &&& forall|j: int| 0 <= j < ms.len() ==> reports_survivor(
        outs[survivor_positions(outs, n)[j]].scenario->Mutant_0,
        diffs[survivor_positions(outs, n)[j]],
        #[trigger] ms[j],
    )
}

proof fn lemma_positions_count(outs: Seq<ScenarioOutcome>, n: int)
    requires
        0 <= n <= outs.len(),
    ensures
        survivor_positions(outs, n).len() == outs.take(n).filter(
            |o: ScenarioOutcome| o.scenario is Mutant && o.summary == SummaryOutcome::MissedMutant,
        ).len(),
    decreases n,
{
    reveal(Seq::filter);
    if n > 0 {
        lemma_positions_count(outs, n - 1);
        assert(outs.take(n).drop_last() =~= outs.take(n - 1));
        assert(outs.take(n).last() == outs[n - 1]);
    } else {
        assert(outs.take(0) =~= Seq::<ScenarioOutcome>::empty());
    }
}

/// `m` is reported from one of the outcomes `outs`, one whose mutant the tests missed.
pub open spec fn reported_from_missed(outs: Seq<ScenarioOutcome>, diffs: Seq<Option<String>>, m: SurvivingMutant) -> bool {
    exists|p: int| #![trigger outs[p]]
        0 <= p < outs.len() && outs[p].scenario is Mutant && outs[p].summary == SummaryOutcome::MissedMutant
            && reports_survivor(outs[p].scenario->Mutant_0, diffs[p], m)
}

/// A scenario yields a surviving mutant exactly when it is a mutant scenario that the tests
/// missed: a report of the survivors holds one mutant for each `MissedMutant` mutant outcome,
/// and each of its mutants is reported from such an outcome, never from a baseline run or
/// from a mutant that was caught, unviable or timed out.
pub proof fn law_survivors_are_missed_mutants(outs: Seq<ScenarioOutcome>, diffs: Seq<Option<String>>, ms: Seq<SurvivingMutant>)
    requires
        survivors_reported(outs, diffs, outs.len() as int, ms),
    ensures
        ms.len() == outs.filter(
            |o: ScenarioOutcome| o.scenario is Mutant && o.summary == SummaryOutcome::MissedMutant,
        ).len(),
        forall|j: int| 0 <= j < ms.len() ==> reported_from_missed(outs, diffs, #[trigger] ms[j]),
{
    lemma_positions_count(outs, outs.len() as int);
    assert(outs.take(outs.len() as int) =~= outs);
    lemma_positions_survivors(outs, outs.len() as int);
    assert forall|j: int| 0 <= j < ms.len() implies reported_from_missed(outs, diffs, #[trigger] ms[j]) by {
        let p = survivor_positions(outs, outs.len() as int)[j];
        assert(0 <= p < outs.len() && is_survivor(outs[p]));
        assert(reports_survivor(outs[p].scenario->Mutant_0, diffs[p], ms[j]));
    }
}

proof fn lemma_positions_survivors(outs: Seq<ScenarioOutcome>, n: int)
    requires
        0 <= n <= outs.len(),
    ensures
        forall|j: int| 0 <= j < survivor_positions(outs, n).len() ==> {
            &&& 0 <= #[trigger] survivor_positions(outs, n)[j] < n
            &&& is_survivor(outs[survivor_positions(outs, n)[j]])
        },
    decreases n,
{
    if n > 0 {
        lemma_positions_survivors(outs, n - 1);
        let prev = survivor_positions(outs, n - 1);
        let cur = survivor_positions(outs, n);
        assert forall|j: int| 0 <= j < cur.len() implies {
            &&& 0 <= #[trigger] cur[j] < n
            &&& is_survivor(outs[cur[j]])
        } by {
            if j < prev.len() {
                assert(cur[j] == prev[j]);
            }
        }
    }
}

fn survivor_from(info: &MutantInfo, diff: &Option<String>) -> (m: SurvivingMutant)
    ensures
        reports_survivor(*info, *diff, m),
{
    SurvivingMutant {
        file_path: info.file.clone(),
        line: info.span.start.line,
        col_start: Some(info.span.start.column),
        col_end: Some(info.span.end.column),
        mutation_type: genre_to_mutation_kind(&info.genre),
        replacement: info.replacement.clone(),
        original: extract_original(info),
        diff_hunk: match diff {
            Some(d) => Some(d.clone()),
            None => None,
        },
    }
}

/// The report of a run: its surviving mutants in order, each with the diff that was read for
/// it (`diffs` goes with `lab.outcomes`, one for one), and the run's own counts.
pub fn parse_outcomes(lab: &LabOutcome, diffs: &[Option<String>]) -> (r: MutationReport)
    requires
        diffs@.len() == lab.outcomes@.len(),
    ensures
        r.total == lab.total_mutants,
        r.survived == lab.missed,
        r.killed == lab.caught,
        r.timeout == lab.timeout,
        survivors_reported(lab.outcomes@, diffs@, lab.outcomes@.len() as int, r.mutants@),
        r.mutants@.len() == lab.outcomes@.filter(
            |o: ScenarioOutcome| o.scenario is Mutant && o.summary == SummaryOutcome::MissedMutant,
        ).len(),
{
    let ghost outs = lab.outcomes@;
    let mut mutants: Vec<SurvivingMutant> = Vec::new();
    for i in 0..lab.outcomes.len()
        invariant
            outs == lab.outcomes@,
            diffs@.len() == outs.len(),
            survivors_reported(outs, diffs@, i as int, mutants@),
    {
        let o = &lab.outcomes[i];
        let ghost before = mutants@;
        let ghost pos = survivor_positions(outs, i as int);
        match &o.scenario {
            Scenario::Mutant(info) => {
                if o.summary == SummaryOutcome::MissedMutant {
                    let m = survivor_from(info, &diffs[i]);
                    mutants.push(m);
                    proof {
                        let npos = survivor_positions(outs, i + 1);
                        assert(npos == pos.push(i as int));
                        assert forall|j: int| 0 <= j < mutants@.len() implies reports_survivor(
                            outs[npos[j]].scenario->Mutant_0,
                            diffs@[npos[j]],
                            #[trigger] mutants@[j],
                        ) by {
                            if j < before.len() {
                                assert(npos[j] == pos[j]);
                                assert(mutants@[j] == before[j]);
                            } else {
                                assert(npos[j] == i);
                            }
                        }
                    }
                } else {
                    proof { assert(survivor_positions(outs, i + 1) == pos); }
                }
            },
            Scenario::Baseline => {
                proof { assert(survivor_positions(outs, i + 1) == pos); }
            },
        }
    }
    proof { law_survivors_are_missed_mutants(outs, diffs@, mutants@); }
    MutationReport {
        mutants,
        total: lab.total_mutants,
        survived: lab.missed,
        killed: lab.caught,
        timeout: lab.timeout,
    }
}

} // verus!
