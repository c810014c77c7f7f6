//! Code that breaks when tests run in parallel processes, as nextest runs them.

use crate::lint::diagnostics::{views, Diagnostic, DiagnosticLevel, DiagnosticView};
use crate::lint::rules::{finding, finding_at, text_of, Rule, RuleContext};
use crate::lint::syntax::field_child;
use crate::text::str_eq;
use vstd::prelude::*;

verus! {

/// Flags `static mut` items.
pub struct StaticMut;

/// Flags `std::env::set_var` calls.
pub struct EnvSetVar;

/// Node `i` has a named child of kind `k`.
pub open spec fn has_named_child_kind(ctx: RuleContext, i: int, k: Seq<char>) -> bool {
    exists|j: int| 0 <= j < ctx.node(i).children@.len() && {
        let c = #[trigger] ctx.node(i).children@[j] as int;
        c < ctx.size() && ctx.node(c).named && ctx.kind(c) == k
    }
}

fn has_named_child_kind_exec(ctx: &RuleContext, i: usize, k: &str) -> (r: bool)
    requires
        i < ctx.tree.nodes@.len(),
    ensures
        r == has_named_child_kind(*ctx, i as int, k@),
{
    let cs = &ctx.tree.nodes[i].children;
    for j in 0..cs.len()
        invariant
            i < ctx.tree.nodes@.len(),
            cs@ == ctx.node(i as int).children@,
            forall|q: int| 0 <= q < j ==> !({
                let c = #[trigger] ctx.node(i as int).children@[q] as int;
                c < ctx.size() && ctx.node(c).named && ctx.kind(c) == k@
            }),
    {
        let c = cs[j];
        if c < ctx.tree.nodes.len() && ctx.tree.nodes[c].named && str_eq(ctx.tree.nodes[c].kind.as_str(), k) {
            return true;
        }
    }
    false
}

/// The message for a `static mut` item.
pub open spec fn static_mut_message() -> Seq<char> {
    "static mutable variable — incompatible with nextest parallel execution"@
}

impl Rule for StaticMut {
    open spec fn spec_id(&self) -> Seq<char> {
        "CTL_STATIC_MUT"@
    }

    open spec fn spec_config_key(&self) -> Seq<char> {
        "static-mut"@
    }

    open spec fn spec_default_level(&self) -> DiagnosticLevel {
        DiagnosticLevel::Warn
    }

    open spec fn spec_findings_at(&self, ctx: RuleContext, i: int) -> Seq<DiagnosticView> {
        if ctx.kind(i) == "static_item"@ && has_named_child_kind(ctx, i, "mutable_specifier"@) {
            seq![finding_at("CTL_STATIC_MUT"@, DiagnosticLevel::Warn, static_mut_message(), ctx.file_path@, ctx.node(i))]
        } else {
            Seq::empty()
        }
    }

    fn id(&self) -> (r: &'static str) {
        "CTL_STATIC_MUT"
    }

    fn config_key(&self) -> (r: &'static str) {
        "static-mut"
    }

    open spec fn spec_description(&self) -> Seq<char> {
        "static mutable variable"@
    }

    fn description(&self) -> (r: &'static str) {
        "static mutable variable"
    }

    fn default_level(&self) -> (r: DiagnosticLevel) {
        DiagnosticLevel::Warn
    }

    fn findings_at(&self, ctx: &RuleContext, i: usize) -> (r: Vec<Diagnostic>) {
        let mut out: Vec<Diagnostic> = Vec::new();
        if str_eq(ctx.tree.nodes[i].kind.as_str(), "static_item") && has_named_child_kind_exec(ctx, i, "mutable_specifier") {
            let d = finding(ctx, i, "CTL_STATIC_MUT", DiagnosticLevel::Warn,
                String::from_str("static mutable variable — incompatible with nextest parallel execution"));
            out.push(d);
            proof { assert(views(out@) =~= seq![d@]); }
        } else {
            proof { assert(views(out@) =~= Seq::<DiagnosticView>::empty()); }
        }
        out
    }
}

/// The `env` identifier of a call `path::env::set_var(..)` at node `i`, as the rule's pattern
/// captures it.
pub open spec fn set_var_target(ctx: RuleContext, i: int) -> Option<int> {
    if ctx.kind(i) != "call_expression"@ {
        None
    } else {
        match field_child(ctx.tree, i, "function"@) {
            Some(f) => if 0 <= f < ctx.size() && ctx.kind(f) == "scoped_identifier"@ {
                match (field_child(ctx.tree, f, "path"@), field_child(ctx.tree, f, "name"@)) {
                    (Some(p), Some(nm)) => if 0 <= p < ctx.size() && 0 <= nm < ctx.size() && ctx.kind(p) == "scoped_identifier"@
                        && ctx.kind(nm) == "identifier"@ && ctx.text(nm) == "set_var"@ {
                        match (field_child(ctx.tree, p, "path"@), field_child(ctx.tree, p, "name"@)) {
                            (Some(pp), Some(env)) => if 0 <= pp < ctx.size() && 0 <= env < ctx.size()
                                && ctx.kind(pp) == "identifier"@ && ctx.kind(env) == "identifier"@ && ctx.text(env) == "env"@ {
                                Some(env)
                            } else {
                                None
                            },
                            _ => None,
                        }
                    } else {
                        None
                    },
                    _ => None,
                }
            } else {
                None
            },
            None => None,
        }
    }
}

/// The message for a `set_var` call.
pub open spec fn set_var_message() -> Seq<char> {
    "std::env::set_var in test — unsafe with nextest parallel execution"@
}

fn kind_is(ctx: &RuleContext, i: usize, k: &str) -> (r: bool)
    requires
        i < ctx.tree.nodes@.len(),
    ensures
        r == (ctx.kind(i as int) == k@),
{
    str_eq(ctx.tree.nodes[i].kind.as_str(), k)
}

fn text_is(ctx: &RuleContext, i: usize, t: &str) -> (r: bool)
    requires
        i < ctx.tree.nodes@.len(),
    ensures
        r == (ctx.text(i as int) == t@),
{
    let s = text_of(ctx, i);
    str_eq(s.as_str(), t)
}

fn set_var_target_exec(ctx: &RuleContext, i: usize) -> (r: Option<usize>)
    requires
        i < ctx.tree.nodes@.len(),
    ensures
        match r {
            Some(e) => set_var_target(*ctx, i as int) == Some(e as int) && e < ctx.tree.nodes@.len(),
            None => set_var_target(*ctx, i as int) is None,
        },
{
    if !kind_is(ctx, i, "call_expression") {
        return None;
    }
    let f = match ctx.tree.child_by_field(i, "function") { Some(f) => f, None => return None };
    if !kind_is(ctx, f, "scoped_identifier") {
        return None;
    }
    let p = match ctx.tree.child_by_field(f, "path") { Some(p) => p, None => return None };
    let nm = match ctx.tree.child_by_field(f, "name") { Some(nm) => nm, None => return None };
    if !(kind_is(ctx, p, "scoped_identifier") && kind_is(ctx, nm, "identifier") && text_is(ctx, nm, "set_var")) {
        return None;
    }
    let pp = match ctx.tree.child_by_field(p, "path") { Some(pp) => pp, None => return None };
    let env = match ctx.tree.child_by_field(p, "name") { Some(e) => e, None => return None };
    if kind_is(ctx, pp, "identifier") && kind_is(ctx, env, "identifier") && text_is(ctx, env, "env") {
        Some(env)
    } else {
        None
    }
}

impl Rule for EnvSetVar {
    open spec fn spec_id(&self) -> Seq<char> {
        "CTL_ENV_SET_VAR"@
    }

    open spec fn spec_config_key(&self) -> Seq<char> {
        "env-set-var"@
    }

    open spec fn spec_default_level(&self) -> DiagnosticLevel {
        DiagnosticLevel::Warn
    }

    open spec fn spec_findings_at(&self, ctx: RuleContext, i: int) -> Seq<DiagnosticView> {
        match set_var_target(ctx, i) {
            Some(env) => seq![finding_at("CTL_ENV_SET_VAR"@, DiagnosticLevel::Warn, set_var_message(), ctx.file_path@, ctx.node(env))],
            None => Seq::empty(),
        }
    }

    fn id(&self) -> (r: &'static str) {
        "CTL_ENV_SET_VAR"
    }

    fn config_key(&self) -> (r: &'static str) {
        "env-set-var"
    }

    open spec fn spec_description(&self) -> Seq<char> {
        "std::env::set_var in test"@
    }

    fn description(&self) -> (r: &'static str) {
        "std::env::set_var in test"
    }

    fn default_level(&self) -> (r: DiagnosticLevel) {
        DiagnosticLevel::Warn
    }

    fn findings_at(&self, ctx: &RuleContext, i: usize) -> (r: Vec<Diagnostic>) {
        let mut out: Vec<Diagnostic> = Vec::new();
        match set_var_target_exec(ctx, i) {
            Some(env) => {
                let d = finding(ctx, env, "CTL_ENV_SET_VAR", DiagnosticLevel::Warn,
                    String::from_str("std::env::set_var in test — unsafe with nextest parallel execution"));
                out.push(d);
                proof { assert(views(out@) =~= seq![d@]); }
            },
            None => {
                proof { assert(views(out@) =~= Seq::<DiagnosticView>::empty()); }
            },
        }
        out
    }
}

} // verus!
