//! The nesting of test modules.

use crate::lint::diagnostics::{views, Diagnostic, DiagnosticLevel, DiagnosticView};
use crate::lint::rules::test_context::{has_marking_attr, has_marking_attr_exec, AttrCheck};
use crate::lint::rules::{finding, finding_at, Rule, RuleContext};
use crate::text::{dec, push_all, push_str, str_eq, string_from_chars, u64_to_dec};
use vstd::prelude::*;

verus! {

/// Flags each test module nested deeper than the configured `max-nested-mod` (0 turns the rule
/// off). A module counts as a test module when it, or a module around it, carries a `cfg`
/// attribute that mentions `test`.
pub struct NestedMod;

/// The modules on the way up from node `p` (inclusive) to the root.
pub open spec fn mod_depth(ctx: RuleContext, p: Option<usize>) -> nat
    decreases match p { Some(q) => q + 1, None => 0 },
{
    match p {
        None => 0,
        Some(q) => if q < ctx.size() {
            let here: nat = if ctx.kind(q as int) == "mod_item"@ { 1 } else { 0 };
            here + match ctx.node(q as int).parent {
                Some(r) => if r < q { mod_depth(ctx, Some(r)) } else { 0 },
                None => 0,
            }
        } else {
            0
        },
    }
}

/// Some module on the way up from node `p` (inclusive) is compiled only for tests.
pub open spec fn in_test_module(ctx: RuleContext, p: Option<usize>) -> bool
    decreases match p { Some(q) => q + 1, None => 0 },
{
    match p {
        None => false,
        Some(q) => if q < ctx.size() {
            (ctx.kind(q as int) == "mod_item"@ && has_marking_attr(ctx, q as int, AttrCheck::CfgPattern))
                || match ctx.node(q as int).parent {
                Some(r) => if r < q { in_test_module(ctx, Some(r)) } else { false },
                None => false,
            }
        } else {
            false
        },
    }
}

/// The message for a test module nested `depth` modules deep when at most `max` are allowed.
pub open spec fn nested_mod_message(depth: nat, max: nat) -> Seq<char> {
    "test module nested "@ + dec(depth) + " levels deep (max "@ + dec(max) + ") — flatten the test modules"@
}

proof fn lemma_mod_depth_bound(ctx: RuleContext, q: usize)
    ensures
        mod_depth(ctx, Some(q)) <= q + 1,
    decreases q,
{
    if q < ctx.size() {
        match ctx.node(q as int).parent {
            Some(r) => if r < q { lemma_mod_depth_bound(ctx, r); },
            None => {},
        }
    }
}

impl Rule for NestedMod {
    open spec fn spec_id(&self) -> Seq<char> {
        "CTL_NESTED_MOD"@
    }

    open spec fn spec_config_key(&self) -> Seq<char> {
        "nested-mod"@
    }

    open spec fn spec_default_level(&self) -> DiagnosticLevel {
        DiagnosticLevel::Warn
    }

    open spec fn spec_findings_at(&self, ctx: RuleContext, i: int) -> Seq<DiagnosticView> {
        let depth = mod_depth(ctx, Some(i as usize));
        let max = ctx.config.max_nested_mod;
        if ctx.kind(i) == "mod_item"@ && max > 0 && depth > max && in_test_module(ctx, Some(i as usize)) {
            seq![finding_at("CTL_NESTED_MOD"@, DiagnosticLevel::Warn, nested_mod_message(depth, max as nat), ctx.file_path@, ctx.node(i))]
        } else {
            Seq::empty()
        }
    }

    fn id(&self) -> (r: &'static str) {
        "CTL_NESTED_MOD"
    }

    fn config_key(&self) -> (r: &'static str) {
        "nested-mod"
    }

    open spec fn spec_description(&self) -> Seq<char> {
        "deeply nested test module"@
    }

    fn description(&self) -> (r: &'static str) {
        "deeply nested test module"
    }

    fn default_level(&self) -> (r: DiagnosticLevel) {
        DiagnosticLevel::Warn
    }

    fn findings_at(&self, ctx: &RuleContext, i: usize) -> (r: Vec<Diagnostic>) {
        let mut out: Vec<Diagnostic> = Vec::new();
        let max = ctx.config.max_nested_mod;
        if !str_eq(ctx.tree.nodes[i].kind.as_str(), "mod_item") || max == 0 {
            proof { assert(views(out@) =~= Seq::<DiagnosticView>::empty()); }
            return out;
        }
        let ghost total = mod_depth(*ctx, Some(i));
        let ghost marked_all = in_test_module(*ctx, Some(i));
        proof { lemma_mod_depth_bound(*ctx, i); }
        let mut current: Option<usize> = Some(i);
        let mut depth: usize = 0;
        let mut marked = false;
        loop
            invariant_except_break
                i < ctx.tree.nodes@.len(),
                total == mod_depth(*ctx, Some(i)),
                total <= i + 1,
                marked_all == in_test_module(*ctx, Some(i)),
                depth + mod_depth(*ctx, current) == total,
                (marked || in_test_module(*ctx, current)) == marked_all,
            ensures
                depth == total,
                marked == marked_all,
            decreases match current { Some(q) => q + 1, None => 0 },
        {
            match current {
                None => break,
                Some(q) => {
                    if q >= ctx.tree.nodes.len() {
                        break;
                    }
                    if str_eq(ctx.tree.nodes[q].kind.as_str(), "mod_item") {
                        depth = depth + 1;
                        if !marked && has_marking_attr_exec(ctx, q, AttrCheck::CfgPattern) {
                            marked = true;
                        }
                    }
                    match ctx.tree.nodes[q].parent {
                        Some(r) => {
                            if r >= q {
                                break;
                            }
                            current = Some(r);
                        },
                        None => break,
                    }
                },
            }
        }
        proof {
            assert(depth == total);
            assert(marked == marked_all);
        }
        if depth > max && marked {
            let mut msg: Vec<char> = Vec::new();
            push_str(&mut msg, "test module nested ");
            let dd = u64_to_dec(depth as u64);
            push_all(&mut msg, dd.as_slice());
            push_str(&mut msg, " levels deep (max ");
            let md = u64_to_dec(max as u64);
            push_all(&mut msg, md.as_slice());
            push_str(&mut msg, ") — flatten the test modules");
            proof { assert(msg@ =~= nested_mod_message(depth as nat, max as nat)); }
            let d = finding(ctx, i, "CTL_NESTED_MOD", DiagnosticLevel::Warn, string_from_chars(msg.as_slice()));
            out.push(d);
            proof { assert(views(out@) =~= seq![d@]); }
            return out;
        }
        proof { assert(views(out@) =~= Seq::<DiagnosticView>::empty()); }
        out
    }
}

} // verus!
