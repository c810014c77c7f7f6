//! Needless clones in tests.

use crate::lint::diagnostics::{views, Diagnostic, DiagnosticLevel, DiagnosticView};
use crate::lint::rules::test_context::{is_in_test_function, spec_is_in_test_function};
use crate::lint::rules::{finding, finding_at, text_of, Rule, RuleContext};
use crate::lint::syntax::field_child;
use crate::text::{push_str, str_eq, string_from_chars};
use vstd::prelude::*;

verus! {

/// Flags each `x.clone()` in test code whose variable `x` is not named again later in the
/// enclosing function, so that `x` could have been moved.
pub struct UnnecessaryClone;

/// Node `i` is a call `x.clone()` with no arguments on a plain variable `x`: the node of `x`.
pub open spec fn clone_receiver(ctx: RuleContext, i: int) -> Option<int> {
    if ctx.kind(i) == "call_expression"@ {
        match (field_child(ctx.tree, i, "function"@), field_child(ctx.tree, i, "arguments"@)) {
            (Some(f), Some(a)) => if 0 <= f < ctx.size() && 0 <= a < ctx.size() && ctx.kind(f) == "field_expression"@
                && ctx.text(a) == "()"@ {
                match (field_child(ctx.tree, f, "field"@), field_child(ctx.tree, f, "value"@)) {
                    (Some(fd), Some(v)) => if 0 <= fd < ctx.size() && 0 <= v < ctx.size() && ctx.text(fd) == "clone"@
                        && ctx.kind(v) == "identifier"@ { Some(v) } else { None },
                    _ => None,
                }
            } else {
                None
            },
            _ => None,
        }
    } else {
        None
    }
}

/// The nearest function at or above node `p`.
pub open spec fn enclosing_function(ctx: RuleContext, p: Option<usize>) -> Option<int>
    decreases match p { Some(q) => q + 1, None => 0 },
{
    match p {
        None => None,
        Some(q) => if q < ctx.size() {
            if ctx.kind(q as int) == "function_item"@ {
                Some(q as int)
            } else {
                match ctx.node(q as int).parent {
                    Some(r) => if r < q { enclosing_function(ctx, Some(r)) } else { None },
                    None => None,
                }
            }
        } else {
            None
        },
    }
}

/// The identifier `name` occurs after node `i` and within node `f`.
pub open spec fn named_later(ctx: RuleContext, i: int, name: Seq<char>, f: int) -> bool {
    exists|j: int| #![trigger ctx.node(j)] 0 <= j < ctx.size() && ctx.kind(j) == "identifier"@ && ctx.text(j) == name
        && ctx.node(i).end_byte <= ctx.node(j).start_byte && ctx.node(j).end_byte <= ctx.node(f).end_byte
}

/// The message for a needless clone of `x`.
pub open spec fn clone_message(x: Seq<char>) -> Seq<char> {
    "`"@ + x + ".clone()` — `"@ + x + "` is not used afterwards; move it instead"@
}

fn clone_receiver_exec(ctx: &RuleContext, i: usize) -> (r: Option<usize>)
    requires
        ctx.wf(),
        i < ctx.tree.nodes@.len(),
    ensures
        match r {
            Some(v) => clone_receiver(*ctx, i as int) == Some(v as int) && v < ctx.tree.nodes@.len(),
            None => clone_receiver(*ctx, i as int) is None,
        },
{
    if !str_eq(ctx.tree.nodes[i].kind.as_str(), "call_expression") {
        return None;
    }
    let f = match ctx.tree.child_by_field(i, "function") { Some(f) => f, None => return None };
    let a = match ctx.tree.child_by_field(i, "arguments") { Some(a) => a, None => return None };
    if !str_eq(ctx.tree.nodes[f].kind.as_str(), "field_expression") || !str_eq(text_of(ctx, a).as_str(), "()") {
        return None;
    }
    let fd = match ctx.tree.child_by_field(f, "field") { Some(x) => x, None => return None };
    let v = match ctx.tree.child_by_field(f, "value") { Some(x) => x, None => return None };
    if str_eq(text_of(ctx, fd).as_str(), "clone") && str_eq(ctx.tree.nodes[v].kind.as_str(), "identifier") {
        Some(v)
    } else {
        None
    }
}

fn enclosing_function_exec(ctx: &RuleContext, p: Option<usize>) -> (r: Option<usize>)
    ensures
        match r {
            Some(f) => enclosing_function(*ctx, p) == Some(f as int) && f < ctx.tree.nodes@.len(),
            None => enclosing_function(*ctx, p) is None,
        },
{
    let mut current = p;
    loop
        invariant
            enclosing_function(*ctx, current) == enclosing_function(*ctx, p),
        decreases match current { Some(q) => q + 1, None => 0 },
    {
        match current {
            None => return None,
            Some(q) => {
                if q >= ctx.tree.nodes.len() {
                    return None;
                }
                if str_eq(ctx.tree.nodes[q].kind.as_str(), "function_item") {
                    return Some(q);
                }
                match ctx.tree.nodes[q].parent {
                    Some(r) => {
                        if r >= q {
                            return None;
                        }
                        current = Some(r);
                    },
                    None => return None,
                }
            },
        }
    }
}

fn named_later_exec(ctx: &RuleContext, i: usize, name: &str, f: usize) -> (r: bool)
    requires
        i < ctx.tree.nodes@.len(),
        f < ctx.tree.nodes@.len(),
    ensures
        r == named_later(*ctx, i as int, name@, f as int),
{
    let n = ctx.tree.nodes.len();
    for j in 0..n
        invariant
            i < ctx.tree.nodes@.len(),
            f < ctx.tree.nodes@.len(),
            n == ctx.size(),
            forall|k: int| #![trigger ctx.node(k)] 0 <= k < j ==> !(ctx.kind(k) == "identifier"@ && ctx.text(k) == name@
                && ctx.node(i as int).end_byte <= ctx.node(k).start_byte && ctx.node(k).end_byte <= ctx.node(f as int).end_byte),
    {
        let nj = &ctx.tree.nodes[j];
        if str_eq(nj.kind.as_str(), "identifier") && ctx.tree.nodes[i].end_byte <= nj.start_byte
            && nj.end_byte <= ctx.tree.nodes[f].end_byte && str_eq(text_of(ctx, j).as_str(), name) {
            proof { assert(ctx.node(j as int) == *nj); }
            return true;
        }
        proof { assert(ctx.node(j as int) == *nj); }
    }
    false
}

impl Rule for UnnecessaryClone {
    open spec fn spec_id(&self) -> Seq<char> {
        "CTL_UNNECESSARY_CLONE"@
    }

    open spec fn spec_config_key(&self) -> Seq<char> {
        "unnecessary-clone"@
    }

    open spec fn spec_default_level(&self) -> DiagnosticLevel {
        DiagnosticLevel::Warn
    }

    open spec fn spec_findings_at(&self, ctx: RuleContext, i: int) -> Seq<DiagnosticView> {
        match (clone_receiver(ctx, i), enclosing_function(ctx, ctx.node(i).parent)) {
            (Some(v), Some(f)) => if spec_is_in_test_function(ctx, i) && !named_later(ctx, i, ctx.text(v), f) {
                seq![finding_at("CTL_UNNECESSARY_CLONE"@, DiagnosticLevel::Warn, clone_message(ctx.text(v)), ctx.file_path@, ctx.node(i))]
            } else {
                Seq::empty()
            },
            _ => Seq::empty(),
        }
    }

    fn id(&self) -> (r: &'static str) {
        "CTL_UNNECESSARY_CLONE"
    }

    fn config_key(&self) -> (r: &'static str) {
        "unnecessary-clone"
    }

    open spec fn spec_description(&self) -> Seq<char> {
        "unnecessary .clone()"@
    }

    fn description(&self) -> (r: &'static str) {
        "unnecessary .clone()"
    }

    fn default_level(&self) -> (r: DiagnosticLevel) {
        DiagnosticLevel::Warn
    }

    fn findings_at(&self, ctx: &RuleContext, i: usize) -> (r: Vec<Diagnostic>) {
        let mut out: Vec<Diagnostic> = Vec::new();
        if let Some(v) = clone_receiver_exec(ctx, i) {
            if let Some(f) = enclosing_function_exec(ctx, ctx.tree.nodes[i].parent) {
                let x = text_of(ctx, v);
                if is_in_test_function(ctx, i) && !named_later_exec(ctx, i, x.as_str(), f) {
                    let mut msg: Vec<char> = Vec::new();
                    push_str(&mut msg, "`");
                    push_str(&mut msg, x.as_str());
                    push_str(&mut msg, ".clone()` — `");
                    push_str(&mut msg, x.as_str());
                    push_str(&mut msg, "` is not used afterwards; move it instead");
                    proof { assert(msg@ =~= clone_message(ctx.text(v as int))); }
                    let d = finding(ctx, i, "CTL_UNNECESSARY_CLONE", DiagnosticLevel::Warn, string_from_chars(msg.as_slice()));
                    out.push(d);
                    proof { assert(views(out@) =~= seq![d@]); }
                    return out;
                }
            }
        }
        proof { assert(views(out@) =~= Seq::<DiagnosticView>::empty()); }
        out
    }
}

} // verus!
