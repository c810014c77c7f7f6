//! Branching in tests: a test should run one path.

use crate::lint::diagnostics::{views, Diagnostic, DiagnosticLevel, DiagnosticView};
use crate::lint::rules::{finding, finding_at, text_of, Rule, RuleContext};
use crate::lint::syntax::field_child;
use crate::text::{chars_of, chars_start_with, push_str, starts_with, str_eq, string_from_chars};
use vstd::prelude::*;

verus! {

/// Flags `if`, `match` and `if let` in the body of a function whose name starts with `test`.
pub struct TestBranching;

/// The kinds of branching expressions.
pub open spec fn is_branching_kind(k: Seq<char>) -> bool {
    k == "if_expression"@ || k == "match_expression"@ || k == "if_let_expression"@
}

/// The message for a branching expression of kind `k`.
pub open spec fn branching_message(k: Seq<char>) -> Seq<char> {
    "test contains "@ + k + " — tests should be deterministic"@
}

/// The branching expressions among the first `k` children of node `i` and, below the others,
/// their descendants; a branching expression is reported without looking inside it.
pub open spec fn branching_in(ctx: RuleContext, i: int, k: int) -> Seq<DiagnosticView>
    decreases ctx.size() - i, k,
{
    if !(0 <= i < ctx.size()) || k <= 0 || k > ctx.node(i).children@.len() {
        Seq::empty()
    } else {
        let prev = branching_in(ctx, i, k - 1);
        let c = ctx.node(i).children@[k - 1] as int;
        if c <= i || c >= ctx.size() {
            prev
        } else if is_branching_kind(ctx.kind(c)) {
            prev.push(finding_at("CTL_TEST_BRANCHING"@, DiagnosticLevel::Warn, branching_message(ctx.kind(c)), ctx.file_path@, ctx.node(c)))
        } else {
            prev + branching_in(ctx, c, ctx.node(c).children@.len() as int)
        }
    }
}

/// Node `i` is a function whose name is an identifier and whose body is a block.
pub open spec fn function_with_body(ctx: RuleContext, i: int) -> Option<(int, int)> {
    if ctx.kind(i) == "function_item"@ {
        match (field_child(ctx.tree, i, "name"@), field_child(ctx.tree, i, "body"@)) {
            (Some(n), Some(b)) => if 0 <= n < ctx.size() && 0 <= b < ctx.size() && ctx.kind(n) == "identifier"@
                && ctx.kind(b) == "block"@ { Some((n, b)) } else { None },
            _ => None,
        }
    } else {
        None
    }
}

fn collect_branching(ctx: &RuleContext, i: usize, out: &mut Vec<Diagnostic>)
    requires
        ctx.wf(),
        i < ctx.tree.nodes@.len(),
    ensures
        views(final(out)@) == views(old(out)@) + branching_in(*ctx, i as int, ctx.node(i as int).children@.len() as int),
    decreases ctx.tree.nodes@.len() - i,
{
    let ghost start = views(out@);
    let n = ctx.tree.nodes[i].children.len();
    proof { assert(views(out@) =~= start + branching_in(*ctx, i as int, 0)); }
    for k in 0..n
        invariant
            ctx.wf(),
            i < ctx.tree.nodes@.len(),
            n == ctx.node(i as int).children@.len(),
            views(out@) == start + branching_in(*ctx, i as int, k as int),
    {
        let c = ctx.tree.nodes[i].children[k];
        let ghost before = views(out@);
        if c <= i || c >= ctx.tree.nodes.len() {
        } else {
            let kind = ctx.tree.nodes[c].kind.as_str();
            if str_eq(kind, "if_expression") || str_eq(kind, "match_expression") || str_eq(kind, "if_let_expression") {
                let mut msg: Vec<char> = Vec::new();
                push_str(&mut msg, "test contains ");
                push_str(&mut msg, kind);
                push_str(&mut msg, " — tests should be deterministic");
                proof { assert(msg@ =~= branching_message(ctx.kind(c as int))); }
                let d = finding(ctx, c, "CTL_TEST_BRANCHING", DiagnosticLevel::Warn, string_from_chars(msg.as_slice()));
                out.push(d);
                proof { assert(views(out@) =~= before.push(d@)); }
            } else {
                collect_branching(ctx, c, out);
                proof { assert(before + branching_in(*ctx, c as int, ctx.node(c as int).children@.len() as int) == views(out@)); }
            }
        }
        proof {
            assert(start + branching_in(*ctx, i as int, k + 1) =~= views(out@));
        }
    }
}

impl Rule for TestBranching {
    open spec fn spec_id(&self) -> Seq<char> {
        "CTL_TEST_BRANCHING"@
    }

    open spec fn spec_config_key(&self) -> Seq<char> {
        "test-branching"@
    }

    open spec fn spec_default_level(&self) -> DiagnosticLevel {
        DiagnosticLevel::Warn
    }

    open spec fn spec_findings_at(&self, ctx: RuleContext, i: int) -> Seq<DiagnosticView> {
        match function_with_body(ctx, i) {
            Some((n, b)) => if starts_with(ctx.text(n), "test"@) {
                branching_in(ctx, b, ctx.node(b).children@.len() as int)
            } else {
                Seq::empty()
            },
            None => Seq::empty(),
        }
    }

    fn id(&self) -> (r: &'static str) {
        "CTL_TEST_BRANCHING"
    }

    fn config_key(&self) -> (r: &'static str) {
        "test-branching"
    }

    open spec fn spec_description(&self) -> Seq<char> {
        "control flow in test body"@
    }

    fn description(&self) -> (r: &'static str) {
        "control flow in test body"
    }

    fn default_level(&self) -> (r: DiagnosticLevel) {
        DiagnosticLevel::Warn
    }

    fn findings_at(&self, ctx: &RuleContext, i: usize) -> (r: Vec<Diagnostic>) {
        let mut out: Vec<Diagnostic> = Vec::new();
        if !str_eq(ctx.tree.nodes[i].kind.as_str(), "function_item") {
            proof { assert(views(out@) =~= Seq::<DiagnosticView>::empty()); }
            return out;
        }
        let name = ctx.tree.child_by_field(i, "name");
        let body = ctx.tree.child_by_field(i, "body");
        match (name, body) {
            (Some(n), Some(b)) => {
                if str_eq(ctx.tree.nodes[n].kind.as_str(), "identifier") && str_eq(ctx.tree.nodes[b].kind.as_str(), "block") {
                    let t = text_of(ctx, n);
                    let tc = chars_of(t.as_str());
                    let p = chars_of("test");
                    if chars_start_with(tc.as_slice(), p.as_slice()) {
                        collect_branching(ctx, b, &mut out);
                        proof { assert(views(out@) =~= Seq::<DiagnosticView>::empty() + branching_in(*ctx, b as int, ctx.node(b as int).children@.len() as int)); }
                        return out;
                    }
                }
            },
            _ => {},
        }
        proof { assert(views(out@) =~= Seq::<DiagnosticView>::empty()); }
        out
    }
}

} // verus!
