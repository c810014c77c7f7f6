//! Resources allocated in tests without a binding that drops them at the end of the scope.

use crate::lint::diagnostics::{views, Diagnostic, DiagnosticLevel, DiagnosticView};
use crate::lint::rules::{finding, finding_at, lemma_finding_in_output, rule_output, rule_run_level, text_of, Rule, RuleContext};
use crate::lint::syntax::field_child;
use crate::text::{chars_end_with, chars_of, ends_with, push_str, str_eq, string_from_chars};
use vstd::prelude::*;

verus! {

/// Flags a call that allocates a resource and is not bound by `let`.
pub struct MissingDropGuard;

/// A call's function text names allocator `alloc`: it is `alloc`, or a path ending in
/// `::alloc`.
pub open spec fn names_allocator(t: Seq<char>, alloc: Seq<char>) -> bool {
    t == alloc || ends_with(t, "::"@ + alloc)
}

/// A call's function text names one of the resource allocators.
pub open spec fn is_resource_allocator(t: Seq<char>) -> bool {
    ||| names_allocator(t, "File::create"@)
    ||| names_allocator(t, "File::open"@)
    ||| names_allocator(t, "TempDir::new"@)
    ||| names_allocator(t, "tempfile::tempdir"@)
    ||| names_allocator(t, "tempdir"@)
    ||| names_allocator(t, "tempfile::NamedTempFile::new"@)
    ||| names_allocator(t, "NamedTempFile::new"@)
    ||| names_allocator(t, "Builder::new"@)
    ||| names_allocator(t, "TcpListener::bind"@)
    ||| names_allocator(t, "UdpSocket::bind"@)
}

fn names_allocator_exec(t: &str, alloc: &str) -> (r: bool)
    ensures
        r == names_allocator(t@, alloc@),
{
    if str_eq(t, alloc) {
        return true;
    }
    let tc = chars_of(t);
    let mut suffix: Vec<char> = Vec::new();
    push_str(&mut suffix, "::");
    push_str(&mut suffix, alloc);
    chars_end_with(tc.as_slice(), suffix.as_slice())
}

fn is_resource_allocator_exec(t: &str) -> (r: bool)
    ensures
        r == is_resource_allocator(t@),
{
    names_allocator_exec(t, "File::create") || names_allocator_exec(t, "File::open")
        || names_allocator_exec(t, "TempDir::new") || names_allocator_exec(t, "tempfile::tempdir")
        || names_allocator_exec(t, "tempdir") || names_allocator_exec(t, "tempfile::NamedTempFile::new")
        || names_allocator_exec(t, "NamedTempFile::new") || names_allocator_exec(t, "Builder::new")
        || names_allocator_exec(t, "TcpListener::bind") || names_allocator_exec(t, "UdpSocket::bind")
}

/// Walking up from node `p` (inclusive), a `let` that binds to a name comes before a
/// statement, a closure, an `ERROR` node or the root.
pub open spec fn bound_by_let_from(ctx: RuleContext, p: Option<usize>) -> bool
    decreases match p { Some(q) => q + 1, None => 0 },
{
    match p {
        None => false,
        Some(q) => if q < ctx.size() {
            let k = ctx.kind(q as int);
            if k == "let_declaration"@ {
                match field_child(ctx.tree, q as int, "pattern"@) {
                    Some(pat) => !(0 <= pat < ctx.size() && (ctx.kind(pat) == "_"@ || ctx.kind(pat) == "wildcard_pattern"@)),
                    None => true,
                }
            } else if k == "expression_statement"@ || k == "closure"@ || k == "ERROR"@ {
                false
            } else {
                match ctx.node(q as int).parent {
                    Some(r) => if r < q { bound_by_let_from(ctx, Some(r)) } else { false },
                    None => false,
                }
            }
        } else {
            false
        },
    }
}

/// Whether the expression at node `i` ends up bound by a `let` that binds a name.
pub fn ancestor_is_let_declaration(ctx: &RuleContext, i: usize) -> (r: bool)
    requires
        i < ctx.tree.nodes@.len(),
    ensures
        r == bound_by_let_from(*ctx, ctx.node(i as int).parent),
{
    let mut current = ctx.tree.nodes[i].parent;
    loop
        invariant
            bound_by_let_from(*ctx, ctx.node(i as int).parent) == bound_by_let_from(*ctx, current),
        decreases match current { Some(q) => q + 1, None => 0 },
    {
        match current {
            None => return false,
            Some(q) => {
                if q >= ctx.tree.nodes.len() {
                    return false;
                }
                let k = ctx.tree.nodes[q].kind.as_str();
                if str_eq(k, "let_declaration") {
                    return match ctx.tree.child_by_field(q, "pattern") {
                        Some(pat) => {
                            let pk = ctx.tree.nodes[pat].kind.as_str();
                            !(str_eq(pk, "_") || str_eq(pk, "wildcard_pattern"))
                        },
                        None => true,
                    };
                }
                if str_eq(k, "expression_statement") || str_eq(k, "closure") || str_eq(k, "ERROR") {
                    return false;
                }
                match ctx.tree.nodes[q].parent {
                    Some(r) => {
                        if r >= q {
                            return false;
                        }
                        current = Some(r);
                    },
                    None => return false,
                }
            },
        }
    }
}

/// The message for an unbound allocation `t`.
pub open spec fn drop_guard_message(t: Seq<char>) -> Seq<char> {
    "resource allocation `"@ + t + "` without RAII guard — may leak on assertion panic"@
}

impl Rule for MissingDropGuard {
    open spec fn spec_id(&self) -> Seq<char> {
        "CTL_MISSING_DROP_GUARD"@
    }

    open spec fn spec_config_key(&self) -> Seq<char> {
        "missing-drop-guard"@
    }

    open spec fn spec_default_level(&self) -> DiagnosticLevel {
        DiagnosticLevel::Warn
    }

    open spec fn spec_findings_at(&self, ctx: RuleContext, i: int) -> Seq<DiagnosticView> {
        if ctx.kind(i) == "call_expression"@ {
            match field_child(ctx.tree, i, "function"@) {
                Some(f) => if 0 <= f < ctx.size() && is_resource_allocator(ctx.text(f))
                    && !bound_by_let_from(ctx, ctx.node(i).parent) {
                    seq![finding_at("CTL_MISSING_DROP_GUARD"@, DiagnosticLevel::Warn, drop_guard_message(ctx.text(f)), ctx.file_path@, ctx.node(i))]
                } else {
                    Seq::empty()
                },
                None => Seq::empty(),
            }
        } else {
            Seq::empty()
        }
    }

    fn id(&self) -> (r: &'static str) {
        "CTL_MISSING_DROP_GUARD"
    }

    fn config_key(&self) -> (r: &'static str) {
        "missing-drop-guard"
    }

    open spec fn spec_description(&self) -> Seq<char> {
        "resource allocation without RAII guard"@
    }

    fn description(&self) -> (r: &'static str) {
        "resource allocation without RAII guard"
    }

    fn default_level(&self) -> (r: DiagnosticLevel) {
        DiagnosticLevel::Warn
    }

    fn findings_at(&self, ctx: &RuleContext, i: usize) -> (r: Vec<Diagnostic>) {
        let mut out: Vec<Diagnostic> = Vec::new();
        if str_eq(ctx.tree.nodes[i].kind.as_str(), "call_expression") {
            match ctx.tree.child_by_field(i, "function") {
                Some(f) => {
                    let t = text_of(ctx, f);
                    if is_resource_allocator_exec(t.as_str()) && !ancestor_is_let_declaration(ctx, i) {
                        let mut msg: Vec<char> = Vec::new();
                        push_str(&mut msg, "resource allocation `");
                        push_str(&mut msg, t.as_str());
                        push_str(&mut msg, "` without RAII guard — may leak on assertion panic");
                        proof { assert(msg@ =~= drop_guard_message(ctx.text(f as int))); }
                        let d = finding(ctx, i, "CTL_MISSING_DROP_GUARD", DiagnosticLevel::Warn, string_from_chars(msg.as_slice()));
                        out.push(d);
                        proof { assert(views(out@) =~= seq![d@]); }
                        return out;
                    }
                },
                None => {},
            }
        }
        proof { assert(views(out@) =~= Seq::<DiagnosticView>::empty()); }
        out
    }
}

/// A call whose function text is `File::create`, `File::open`, `TempDir::new`,
/// `tempfile::tempdir`, `tempdir`, `tempfile::NamedTempFile::new`, `NamedTempFile::new`,
/// `Builder::new`, `TcpListener::bind` or `UdpSocket::bind`, or a path that ends in `::`
/// followed by one of them, and that no `let` binds to a name, gives exactly one
/// missing-drop-guard finding, at the call; running the rule over the file reports it unless
/// the rule runs at `allow`.
pub proof fn law_unbound_allocation_flagged(ctx: RuleContext, i: int, f: int, alloc: Seq<char>)
    requires
        alloc == "File::create"@ || alloc == "File::open"@ || alloc == "TempDir::new"@
            || alloc == "tempfile::tempdir"@ || alloc == "tempdir"@ || alloc == "tempfile::NamedTempFile::new"@
            || alloc == "NamedTempFile::new"@ || alloc == "Builder::new"@ || alloc == "TcpListener::bind"@
            || alloc == "UdpSocket::bind"@,
        0 <= i < ctx.size(),
        ctx.kind(i) == "call_expression"@,
        field_child(ctx.tree, i, "function"@) == Some(f),
        0 <= f < ctx.size(),
        ctx.text(f) == alloc || ends_with(ctx.text(f), "::"@ + alloc),
        !bound_by_let_from(ctx, ctx.node(i).parent),
    ensures
        MissingDropGuard.spec_findings_at(ctx, i) == seq![finding_at(
            "CTL_MISSING_DROP_GUARD"@,
            DiagnosticLevel::Warn,
            drop_guard_message(ctx.text(f)),
            ctx.file_path@,
            ctx.node(i),
        )],
        rule_run_level(MissingDropGuard, ctx) != DiagnosticLevel::Allow ==> rule_output(MissingDropGuard, ctx).contains(
            DiagnosticView {
                level: rule_run_level(MissingDropGuard, ctx),
                ..finding_at("CTL_MISSING_DROP_GUARD"@, DiagnosticLevel::Warn, drop_guard_message(ctx.text(f)), ctx.file_path@, ctx.node(i))
            },
        ),
{
    let d = finding_at("CTL_MISSING_DROP_GUARD"@, DiagnosticLevel::Warn, drop_guard_message(ctx.text(f)), ctx.file_path@, ctx.node(i));
    assert(MissingDropGuard.spec_findings_at(ctx, i)[0] == d);
    if rule_run_level(MissingDropGuard, ctx) != DiagnosticLevel::Allow {
        lemma_finding_in_output(MissingDropGuard, ctx, i, d);
    }
}

} // verus!
