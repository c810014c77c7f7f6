//! Deeply nested type wrappers in test setup.

use crate::lint::diagnostics::{views, Diagnostic, DiagnosticLevel, DiagnosticView};
use crate::lint::rules::{finding, finding_at, Rule, RuleContext};
use crate::lint::syntax::field_child;
use crate::text::{dec, push_all, push_str, str_eq, string_from_chars, u64_to_dec};
use vstd::prelude::*;

verus! {

/// Flags a type alias whose type nests wrappers more than three deep.
pub struct DeepWrapper;

/// The kinds of types that wrap other types.
pub open spec fn is_wrapper_kind(k: Seq<char>) -> bool {
    k == "generic_type"@ || k == "tuple_type"@ || k == "reference_type"@ || k == "array_type"@
}

/// How deep wrapper types nest at node `i`, counting from `cur`: a wrapper adds one for itself
/// and for what is inside it; the deepest named child counts.
pub open spec fn generic_depth(ctx: RuleContext, i: int, cur: int) -> int
    decreases ctx.size() - i, ctx.node(i).children@.len() + 1,
{
    if !(0 <= i < ctx.size()) {
        cur
    } else {
        let w = is_wrapper_kind(ctx.kind(i));
        let next = if w { cur + 1 } else { cur };
        deepest_named(ctx, i, ctx.node(i).children@.len() as int, next, next)
    }
}

/// The largest of `acc` and the depths of the named ones among the first `k` children of node
/// `i`, each counted from `start`.
pub open spec fn deepest_named(ctx: RuleContext, i: int, k: int, start: int, acc: int) -> int
    decreases ctx.size() - i, k,
{
    if !(0 <= i < ctx.size()) || k <= 0 || k > ctx.node(i).children@.len() {
        acc
    } else {
        let m = deepest_named(ctx, i, k - 1, start, acc);
        let c = ctx.node(i).children@[k - 1] as int;
        if c <= i || c >= ctx.size() || !ctx.node(c).named {
            m
        } else {
            let d = generic_depth(ctx, c, start);
            if d > m { d } else { m }
        }
    }
}

/// The depth of wrapper types at node `i`, counting from `cur`.
pub fn count_generic_depth(ctx: &RuleContext, i: usize, cur: usize) -> (r: usize)
    requires
        ctx.wf(),
        i < ctx.tree.nodes@.len(),
        cur <= i,
    ensures
        r as int == generic_depth(*ctx, i as int, cur as int),
    decreases ctx.tree.nodes@.len() - i,
{
    let kind = ctx.tree.nodes[i].kind.as_str();
    let w = str_eq(kind, "generic_type") || str_eq(kind, "tuple_type") || str_eq(kind, "reference_type")
        || str_eq(kind, "array_type");
    let len = ctx.tree.nodes.len();
    proof { assert(cur < len); }
    let next = if w { cur + 1 } else { cur };
    let mut max_depth = next;
    let n = ctx.tree.nodes[i].children.len();
    for k in 0..n
        invariant
            ctx.wf(),
            i < ctx.tree.nodes@.len(),
            n == ctx.node(i as int).children@.len(),
            next <= i + 1,
            max_depth as int == deepest_named(*ctx, i as int, k as int, next as int, next as int),
    {
        let c = ctx.tree.nodes[i].children[k];
        if c <= i || c >= ctx.tree.nodes.len() || !ctx.tree.nodes[c].named {
        } else {
            let d = count_generic_depth(ctx, c, next);
            if d > max_depth {
                max_depth = d;
            }
        }
    }
    max_depth
}

/// The type alias at node `i`, as the rule's pattern captures it: its name node, when it has a
/// type-identifier name and a named type.
pub open spec fn type_item_name(ctx: RuleContext, i: int) -> Option<int> {
    if ctx.kind(i) == "type_item"@ {
        match (field_child(ctx.tree, i, "name"@), field_child(ctx.tree, i, "type"@)) {
            (Some(n), Some(t)) => if 0 <= n < ctx.size() && 0 <= t < ctx.size() && ctx.kind(n) == "type_identifier"@
                && ctx.node(t).named { Some(n) } else { None },
            _ => None,
        }
    } else {
        None
    }
}

/// The message for wrappers `depth` levels deep.
pub open spec fn deep_wrapper_message(depth: nat) -> Seq<char> {
    "deeply nested type wrapper ("@ + dec(depth) + " levels) — test setup is overly complex"@
}

impl Rule for DeepWrapper {
    open spec fn spec_id(&self) -> Seq<char> {
        "CTL_DEEP_WRAPPER"@
    }

    open spec fn spec_config_key(&self) -> Seq<char> {
        "deep-wrapper"@
    }

    open spec fn spec_default_level(&self) -> DiagnosticLevel {
        DiagnosticLevel::Warn
    }

    open spec fn spec_findings_at(&self, ctx: RuleContext, i: int) -> Seq<DiagnosticView> {
        match type_item_name(ctx, i) {
            Some(n) => {
                let depth = generic_depth(ctx, i, 0);
                if depth > 3 {
                    seq![finding_at("CTL_DEEP_WRAPPER"@, DiagnosticLevel::Warn, deep_wrapper_message(depth as nat), ctx.file_path@, ctx.node(n))]
                } else {
                    Seq::empty()
                }
            },
            None => Seq::empty(),
        }
    }

    fn id(&self) -> (r: &'static str) {
        "CTL_DEEP_WRAPPER"
    }

    fn config_key(&self) -> (r: &'static str) {
        "deep-wrapper"
    }

    open spec fn spec_description(&self) -> Seq<char> {
        "deeply nested type wrapper"@
    }

    fn description(&self) -> (r: &'static str) {
        "deeply nested type wrapper"
    }

    fn default_level(&self) -> (r: DiagnosticLevel) {
        DiagnosticLevel::Warn
    }

    fn findings_at(&self, ctx: &RuleContext, i: usize) -> (r: Vec<Diagnostic>) {
        let mut out: Vec<Diagnostic> = Vec::new();
        if str_eq(ctx.tree.nodes[i].kind.as_str(), "type_item") {
            match (ctx.tree.child_by_field(i, "name"), ctx.tree.child_by_field(i, "type")) {
                (Some(n), Some(t)) => {
                    if str_eq(ctx.tree.nodes[n].kind.as_str(), "type_identifier") && ctx.tree.nodes[t].named {
                        let depth = count_generic_depth(ctx, i, 0);
                        if depth > 3 {
                            let mut msg: Vec<char> = Vec::new();
                            push_str(&mut msg, "deeply nested type wrapper (");
                            let digits = u64_to_dec(depth as u64);
                            push_all(&mut msg, digits.as_slice());
                            push_str(&mut msg, " levels) — test setup is overly complex");
                            proof { assert(msg@ =~= deep_wrapper_message(depth as nat)); }
                            let d = finding(ctx, n, "CTL_DEEP_WRAPPER", DiagnosticLevel::Warn, string_from_chars(msg.as_slice()));
                            out.push(d);
                            proof { assert(views(out@) =~= seq![d@]); }
                            return out;
                        }
                    }
                },
                _ => {},
            }
        }
        proof { assert(views(out@) =~= Seq::<DiagnosticView>::empty()); }
        out
    }
}

} // verus!
