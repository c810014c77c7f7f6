//! Sleeping in tests.

use crate::lint::diagnostics::{views, Diagnostic, DiagnosticLevel, DiagnosticView};
use crate::lint::rules::test_context::{is_in_test_function, spec_is_in_test_function};
use crate::lint::diagnostics::sort_views_by_position;
use crate::lint::rules::{all_rules_output, finding, finding_at, law_lint_includes_each_enabled_rule, lemma_finding_in_output, text_of, Rule, RuleContext};
use crate::lint::syntax::field_child;
use crate::text::{str_eq, string_from_chars};
use vstd::prelude::*;

verus! {

/// Flags each call of `std::thread::sleep` or `thread::sleep` in test code.
pub struct SleepyTest;

/// The paths by which a test calls `std::thread::sleep`.
pub open spec fn is_sleep_path(t: Seq<char>) -> bool {
    t == "std::thread::sleep"@ || t == "thread::sleep"@
}

/// Node `i` is a call of `std::thread::sleep`.
pub open spec fn is_sleep_call(ctx: RuleContext, i: int) -> bool {
    &&& ctx.kind(i) == "call_expression"@
    &&& field_child(ctx.tree, i, "function"@) matches Some(f)
    &&& 0 <= f < ctx.size()
    &&& is_sleep_path(ctx.text(f))
}

/// The message for a sleep in a test.
pub open spec fn sleep_message() -> Seq<char> {
    "thread::sleep in test code — wait on a condition or a channel instead"@
}

impl Rule for SleepyTest {
    open spec fn spec_id(&self) -> Seq<char> {
        "CTL_SLEEP"@
    }

    open spec fn spec_config_key(&self) -> Seq<char> {
        "sleepy-test"@
    }

    open spec fn spec_default_level(&self) -> DiagnosticLevel {
        DiagnosticLevel::Forbid
    }

    open spec fn spec_findings_at(&self, ctx: RuleContext, i: int) -> Seq<DiagnosticView> {
        if is_sleep_call(ctx, i) && spec_is_in_test_function(ctx, i) {
            seq![finding_at("CTL_SLEEP"@, DiagnosticLevel::Forbid, sleep_message(), ctx.file_path@, ctx.node(i))]
        } else {
            Seq::empty()
        }
    }

    fn id(&self) -> (r: &'static str) {
        "CTL_SLEEP"
    }

    fn config_key(&self) -> (r: &'static str) {
        "sleepy-test"
    }

    open spec fn spec_description(&self) -> Seq<char> {
        "thread::sleep in test code"@
    }

    fn description(&self) -> (r: &'static str) {
        "thread::sleep in test code"
    }

    fn default_level(&self) -> (r: DiagnosticLevel) {
        DiagnosticLevel::Forbid
    }

    fn findings_at(&self, ctx: &RuleContext, i: usize) -> (r: Vec<Diagnostic>) {
        let mut out: Vec<Diagnostic> = Vec::new();
        if str_eq(ctx.tree.nodes[i].kind.as_str(), "call_expression") {
            if let Some(f) = ctx.tree.child_by_field(i, "function") {
                let t = text_of(ctx, f);
                if (str_eq(t.as_str(), "std::thread::sleep") || str_eq(t.as_str(), "thread::sleep"))
                    && is_in_test_function(ctx, i) {
                    let msg = string_from_chars(
                        crate::text::chars_of("thread::sleep in test code — wait on a condition or a channel instead").as_slice(),
                    );
                    let d = finding(ctx, i, "CTL_SLEEP", DiagnosticLevel::Forbid, msg);
                    out.push(d);
                    proof { assert(views(out@) =~= seq![d@]); }
                    return out;
                }
            }
        }
        proof { assert(views(out@) =~= Seq::<DiagnosticView>::empty()); }
        out
    }
}

/// Under the default configuration, a call of `std::thread::sleep` or `thread::sleep` in a
/// test function gives a sleepy-test finding at level `forbid` at the call, and linting the
/// whole file reports it.
pub proof fn law_sleep_in_test_forbidden(ctx: RuleContext, i: int, f: int)
    requires
        ctx.config.is_default(),
        0 <= i < ctx.size(),
        ctx.kind(i) == "call_expression"@,
        field_child(ctx.tree, i, "function"@) == Some(f),
        0 <= f < ctx.size(),
        ctx.text(f) == "std::thread::sleep"@ || ctx.text(f) == "thread::sleep"@,
        spec_is_in_test_function(ctx, i),
    ensures
        SleepyTest.spec_findings_at(ctx, i) == seq![finding_at("CTL_SLEEP"@, DiagnosticLevel::Forbid, sleep_message(), ctx.file_path@, ctx.node(i))],
        sort_views_by_position(all_rules_output(ctx)).contains(
            finding_at("CTL_SLEEP"@, DiagnosticLevel::Forbid, sleep_message(), ctx.file_path@, ctx.node(i)),
        ),
{
    let d = finding_at("CTL_SLEEP"@, DiagnosticLevel::Forbid, sleep_message(), ctx.file_path@, ctx.node(i));
    reveal_strlit("sleepy-test");
    reveal_strlit("test-branching");
    reveal_strlit("async-blocking");
    reveal_strlit("unnecessary-clone");
    reveal_strlit("deep-wrapper");
    reveal_strlit("missing-drop-guard");
    reveal_strlit("dead-test-helper");
    reveal_strlit("nextest-compatibility");
    reveal_strlit("string-literal-corpus");
    reveal_strlit("fs-io-in-test");
    assert("sleepy-test"@.len() == 11);
    assert(crate::lint::config::default_rule_levels()["sleepy-test"@] == DiagnosticLevel::Forbid);
    assert(SleepyTest.spec_findings_at(ctx, i)[0] == d);
    lemma_finding_in_output(SleepyTest, ctx, i, d);
    assert((DiagnosticView { level: DiagnosticLevel::Forbid, ..d }) == d);
    law_lint_includes_each_enabled_rule(ctx, d);
}

} // verus!
