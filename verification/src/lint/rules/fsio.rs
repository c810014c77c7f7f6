//! Filesystem I/O inside tests.

use crate::lint::diagnostics::{views, Diagnostic, DiagnosticLevel, DiagnosticView};
use crate::lint::rules::test_context::{in_test_context, test_context_from, AttrCheck};
use crate::lint::rules::{finding, finding_at, lemma_finding_in_output, rule_output, rule_run_level, text_of, Rule, RuleContext};
use crate::lint::syntax::field_child;
use crate::text::{push_str, str_eq, string_from_chars};
use vstd::prelude::*;

verus! {

/// Flags calls of `std::fs` functions inside test code.
pub struct FsIoInTest;

/// A call's function text is one of the filesystem functions, written out in full or as
/// `fs::..`.
pub open spec fn is_fs_io(t: Seq<char>) -> bool {
    ||| t == "std::fs::write"@
    ||| t == "std::fs::read"@
    ||| t == "std::fs::read_to_string"@
    ||| t == "std::fs::remove_file"@
    ||| t == "std::fs::create_dir"@
    ||| t == "std::fs::remove_dir"@
    ||| t == "std::fs::rename"@
    ||| t == "fs::write"@
    ||| t == "fs::read"@
    ||| t == "fs::read_to_string"@
}

fn is_fs_io_exec(t: &str) -> (r: bool)
    ensures
        r == is_fs_io(t@),
{
    str_eq(t, "std::fs::write") || str_eq(t, "std::fs::read") || str_eq(t, "std::fs::read_to_string")
        || str_eq(t, "std::fs::remove_file") || str_eq(t, "std::fs::create_dir") || str_eq(t, "std::fs::remove_dir")
        || str_eq(t, "std::fs::rename") || str_eq(t, "fs::write") || str_eq(t, "fs::read") || str_eq(t, "fs::read_to_string")
}

/// The message for a filesystem call `t`.
pub open spec fn fs_io_message(t: Seq<char>) -> Seq<char> {
    "filesystem I/O `"@ + t + "` inside test — use tempdir guarantees or in-memory I/O"@
}

/// Node `i` lies in test code as this rule judges it: a function with a literal test attribute
/// or a module with `#[cfg(test)]`, below the file's root.
pub open spec fn in_fs_test_context(ctx: RuleContext, i: int) -> bool {
    test_context_from(ctx, ctx.node(i).parent, AttrCheck::TestText, AttrCheck::CfgText, false)
}

impl Rule for FsIoInTest {
    open spec fn spec_id(&self) -> Seq<char> {
        "CTL_FS_IO"@
    }

    open spec fn spec_config_key(&self) -> Seq<char> {
        "fs-io-in-test"@
    }

    open spec fn spec_default_level(&self) -> DiagnosticLevel {
        DiagnosticLevel::Warn
    }

    open spec fn spec_findings_at(&self, ctx: RuleContext, i: int) -> Seq<DiagnosticView> {
        if ctx.kind(i) == "call_expression"@ {
            match field_child(ctx.tree, i, "function"@) {
                Some(f) => if 0 <= f < ctx.size() && is_fs_io(ctx.text(f)) && in_fs_test_context(ctx, i) {
                    seq![finding_at("CTL_FS_IO"@, DiagnosticLevel::Warn, fs_io_message(ctx.text(f)), ctx.file_path@, ctx.node(i))]
                } else {
                    Seq::empty()
                },
                None => Seq::empty(),
            }
        } else {
            Seq::empty()
        }
    }

    fn id(&self) -> (r: &'static str) {
        "CTL_FS_IO"
    }

    fn config_key(&self) -> (r: &'static str) {
        "fs-io-in-test"
    }

    open spec fn spec_description(&self) -> Seq<char> {
        "filesystem I/O inside test function (flakiness risk)"@
    }

    fn description(&self) -> (r: &'static str) {
        "filesystem I/O inside test function (flakiness risk)"
    }

    fn default_level(&self) -> (r: DiagnosticLevel) {
        DiagnosticLevel::Warn
    }

    fn findings_at(&self, ctx: &RuleContext, i: usize) -> (r: Vec<Diagnostic>) {
        let mut out: Vec<Diagnostic> = Vec::new();
        if str_eq(ctx.tree.nodes[i].kind.as_str(), "call_expression") {
            match ctx.tree.child_by_field(i, "function") {
                Some(f) => {
                    let t = text_of(ctx, f);
                    if is_fs_io_exec(t.as_str()) && in_test_context(ctx, i, AttrCheck::TestText, AttrCheck::CfgText, false) {
                        let mut msg: Vec<char> = Vec::new();
                        push_str(&mut msg, "filesystem I/O `");
                        push_str(&mut msg, t.as_str());
                        push_str(&mut msg, "` inside test — use tempdir guarantees or in-memory I/O");
                        proof { assert(msg@ =~= fs_io_message(ctx.text(f as int))); }
                        let d = finding(ctx, i, "CTL_FS_IO", DiagnosticLevel::Warn, string_from_chars(msg.as_slice()));
                        out.push(d);
                        proof { assert(views(out@) =~= seq![d@]); }
                        return out;
                    }
                },
                None => {},
            }
        }
        proof { assert(views(out@) =~= Seq::<DiagnosticView>::empty()); }
        out
    }
}

/// In test code, a call whose function text is `std::fs::write`, `std::fs::read`,
/// `std::fs::read_to_string`, `std::fs::remove_file`, `std::fs::create_dir`,
/// `std::fs::remove_dir`, `std::fs::rename`, `fs::write`, `fs::read` or `fs::read_to_string`
/// gives exactly one fs-io finding, at the call; running the rule over the file reports it
/// unless the rule runs at `allow`.
pub proof fn law_fs_call_in_test_flagged(ctx: RuleContext, i: int, f: int)
    requires
        0 <= i < ctx.size(),
        ctx.kind(i) == "call_expression"@,
        field_child(ctx.tree, i, "function"@) == Some(f),
        0 <= f < ctx.size(),
        ctx.text(f) == "std::fs::write"@ || ctx.text(f) == "std::fs::read"@ || ctx.text(f) == "std::fs::read_to_string"@
            || ctx.text(f) == "std::fs::remove_file"@ || ctx.text(f) == "std::fs::create_dir"@
            || ctx.text(f) == "std::fs::remove_dir"@ || ctx.text(f) == "std::fs::rename"@ || ctx.text(f) == "fs::write"@
            || ctx.text(f) == "fs::read"@ || ctx.text(f) == "fs::read_to_string"@,
        in_fs_test_context(ctx, i),
    ensures
        FsIoInTest.spec_findings_at(ctx, i) == seq![finding_at(
            "CTL_FS_IO"@,
            DiagnosticLevel::Warn,
            fs_io_message(ctx.text(f)),
            ctx.file_path@,
            ctx.node(i),
        )],
        rule_run_level(FsIoInTest, ctx) != DiagnosticLevel::Allow ==> rule_output(FsIoInTest, ctx).contains(
            DiagnosticView {
                level: rule_run_level(FsIoInTest, ctx),
                ..finding_at("CTL_FS_IO"@, DiagnosticLevel::Warn, fs_io_message(ctx.text(f)), ctx.file_path@, ctx.node(i))
            },
        ),
{
    let d = finding_at("CTL_FS_IO"@, DiagnosticLevel::Warn, fs_io_message(ctx.text(f)), ctx.file_path@, ctx.node(i));
    assert(FsIoInTest.spec_findings_at(ctx, i)[0] == d);
    if rule_run_level(FsIoInTest, ctx) != DiagnosticLevel::Allow {
        lemma_finding_in_output(FsIoInTest, ctx, i, d);
    }
}

} // verus!
