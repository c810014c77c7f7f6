//! Assertions in tests: assertions without a message, and tests with too many assertions.

use crate::lint::diagnostics::{views, Diagnostic, DiagnosticLevel, DiagnosticView};
use crate::lint::rules::test_context::{has_marking_attr, has_marking_attr_exec, is_in_test_function, spec_is_in_test_function, AttrCheck};
use crate::lint::rules::{finding, finding_at, text_of, Rule, RuleContext};
use crate::lint::syntax::{field_child, SyntaxNode};
use crate::text::{chars_of, dec, push_all, push_str, str_eq, string_from_chars, u64_to_dec};
use vstd::prelude::*;

verus! {

/// Flags each `assert!`, `assert_eq!` or `assert_ne!` in test code that is given no message.
pub struct AssertMsg;

/// Flags a test function with more assertions than the configured `max-expects` (0 turns the
/// rule off).
pub struct MaxExpects;

/// How many arguments an assertion macro takes before its message: 1 for `assert`, 2 for
/// `assert_eq` and `assert_ne`, and 0 for any other macro name.
pub open spec fn arguments_before_message(name: Seq<char>) -> int {
    if name == "assert"@ {
        1
    } else if name == "assert_eq"@ || name == "assert_ne"@ {
        2
    } else {
        0
    }
}

/// For a macro call at node `i`, what `arguments_before_message` gives for its name; 0 for any
/// other node.
pub open spec fn assertion_arity(ctx: RuleContext, i: int) -> int {
    if ctx.kind(i) == "macro_invocation"@ {
        match field_child(ctx.tree, i, "macro"@) {
            Some(m) => if 0 <= m < ctx.size() { arguments_before_message(ctx.text(m)) } else { 0 },
            None => 0,
        }
    } else {
        0
    }
}

/// The token tree of a macro call: its last child, when that is a `token_tree`.
pub open spec fn macro_arguments(ctx: RuleContext, i: int) -> Option<int> {
    let cs = ctx.node(i).children@;
    if cs.len() > 0 && 0 <= cs.last() < ctx.size() && ctx.kind(cs.last() as int) == "token_tree"@ {
        Some(cs.last() as int)
    } else {
        None
    }
}

/// The top-level commas among the first `k` children of token tree `tt` that separate two
/// arguments: a comma right before the closing delimiter does not count.
pub open spec fn separators(ctx: RuleContext, tt: int, k: int) -> int
    decreases k,
{
    if k <= 0 {
        0
    } else {
        let cs = ctx.node(tt).children@;
        let c = cs[k - 1] as int;
        separators(ctx, tt, k - 1) + if 0 <= c < ctx.size() && ctx.kind(c) == ","@ && k + 1 < cs.len() { 1int } else { 0int }
    }
}

/// Node `i` is an assertion macro call whose arguments stop before the message.
pub open spec fn lacks_message(ctx: RuleContext, i: int) -> bool {
    &&& assertion_arity(ctx, i) > 0
    &&& macro_arguments(ctx, i) matches Some(tt)
    &&& separators(ctx, tt, ctx.node(tt).children@.len() as int) < assertion_arity(ctx, i)
}

/// The message for an assertion without a message.
pub open spec fn assert_msg_message() -> Seq<char> {
    "assertion without a context message — say what was expected"@
}

fn assertion_arity_exec(ctx: &RuleContext, i: usize) -> (r: usize)
    requires
        ctx.wf(),
        i < ctx.tree.nodes@.len(),
    ensures
        r == assertion_arity(*ctx, i as int),
{
    if !str_eq(ctx.tree.nodes[i].kind.as_str(), "macro_invocation") {
        return 0;
    }
    match ctx.tree.child_by_field(i, "macro") {
        Some(m) => {
            let t = text_of(ctx, m);
            if str_eq(t.as_str(), "assert") {
                1
            } else if str_eq(t.as_str(), "assert_eq") || str_eq(t.as_str(), "assert_ne") {
                2
            } else {
                0
            }
        },
        None => 0,
    }
}

fn macro_arguments_exec(ctx: &RuleContext, i: usize) -> (r: Option<usize>)
    requires
        ctx.wf(),
        i < ctx.tree.nodes@.len(),
    ensures
        match r {
            Some(t) => macro_arguments(*ctx, i as int) == Some(t as int) && t < ctx.tree.nodes@.len(),
            None => macro_arguments(*ctx, i as int) is None,
        },
{
    let n = ctx.tree.nodes[i].children.len();
    if n == 0 {
        return None;
    }
    let c = ctx.tree.nodes[i].children[n - 1];
    if c < ctx.tree.nodes.len() && str_eq(ctx.tree.nodes[c].kind.as_str(), "token_tree") {
        Some(c)
    } else {
        None
    }
}

fn separators_exec(ctx: &RuleContext, tt: usize) -> (r: usize)
    requires
        ctx.wf(),
        tt < ctx.tree.nodes@.len(),
    ensures
        r == separators(*ctx, tt as int, ctx.node(tt as int).children@.len() as int),
{
    let n = ctx.tree.nodes[tt].children.len();
    let mut count: usize = 0;
    for k in 0..n
        invariant
            ctx.wf(),
            tt < ctx.tree.nodes@.len(),
            n == ctx.node(tt as int).children@.len(),
            count == separators(*ctx, tt as int, k as int),
            count <= k,
    {
        let c = ctx.tree.nodes[tt].children[k];
        if c < ctx.tree.nodes.len() && str_eq(ctx.tree.nodes[c].kind.as_str(), ",") && n >= 2 && k < n - 2 {
            count = count + 1;
        }
    }
    count
}

impl Rule for AssertMsg {
    open spec fn spec_id(&self) -> Seq<char> {
        "CTL_ASSERT_MSG"@
    }

    open spec fn spec_config_key(&self) -> Seq<char> {
        "assertion-roulette"@
    }

    open spec fn spec_default_level(&self) -> DiagnosticLevel {
        DiagnosticLevel::Warn
    }

    open spec fn spec_findings_at(&self, ctx: RuleContext, i: int) -> Seq<DiagnosticView> {
        if lacks_message(ctx, i) && spec_is_in_test_function(ctx, i) {
            seq![finding_at("CTL_ASSERT_MSG"@, DiagnosticLevel::Warn, assert_msg_message(), ctx.file_path@, ctx.node(i))]
        } else {
            Seq::empty()
        }
    }

    fn id(&self) -> (r: &'static str) {
        "CTL_ASSERT_MSG"
    }

    fn config_key(&self) -> (r: &'static str) {
        "assertion-roulette"
    }

    open spec fn spec_description(&self) -> Seq<char> {
        "assertion missing context message"@
    }

    fn description(&self) -> (r: &'static str) {
        "assertion missing context message"
    }

    fn default_level(&self) -> (r: DiagnosticLevel) {
        DiagnosticLevel::Warn
    }

    fn findings_at(&self, ctx: &RuleContext, i: usize) -> (r: Vec<Diagnostic>) {
        let mut out: Vec<Diagnostic> = Vec::new();
        let arity = assertion_arity_exec(ctx, i);
        if arity > 0 {
            if let Some(tt) = macro_arguments_exec(ctx, i) {
                if separators_exec(ctx, tt) < arity && is_in_test_function(ctx, i) {
                    let msg = string_from_chars(chars_of("assertion without a context message — say what was expected").as_slice());
                    let d = finding(ctx, i, "CTL_ASSERT_MSG", DiagnosticLevel::Warn, msg);
                    out.push(d);
                    proof { assert(views(out@) =~= seq![d@]); }
                    return out;
                }
            }
        }
        proof { assert(views(out@) =~= Seq::<DiagnosticView>::empty()); }
        out
    }
}

/// Node `a` lies within the bytes of node `b`.
pub open spec fn lies_within(a: SyntaxNode, b: SyntaxNode) -> bool {
    b.start_byte <= a.start_byte && a.end_byte <= b.end_byte
}

/// The assertion macro calls among the first `k` nodes that lie within node `b`.
pub open spec fn assertions_within(ctx: RuleContext, b: int, k: int) -> nat
    decreases k,
{
    if k <= 0 {
        0
    } else {
        assertions_within(ctx, b, k - 1) + if assertion_arity(ctx, k - 1) > 0 && lies_within(ctx.node(k - 1), ctx.node(b)) { 1nat } else { 0nat }
    }
}

/// The body of a function at node `i` that carries a test attribute.
pub open spec fn test_function_body(ctx: RuleContext, i: int) -> Option<int> {
    if ctx.kind(i) == "function_item"@ && has_marking_attr(ctx, i, AttrCheck::TestPattern) {
        match field_child(ctx.tree, i, "body"@) {
            Some(b) => if 0 <= b < ctx.size() && ctx.kind(b) == "block"@ { Some(b) } else { None },
            None => None,
        }
    } else {
        None
    }
}

/// The message for a test with `n` assertions when at most `max` are allowed.
pub open spec fn max_expects_message(n: nat, max: nat) -> Seq<char> {
    "test has "@ + dec(n) + " assertions (max "@ + dec(max) + ") — split it into focused tests"@
}

fn assertions_within_exec(ctx: &RuleContext, b: usize) -> (r: usize)
    requires
        ctx.wf(),
        b < ctx.tree.nodes@.len(),
    ensures
        r == assertions_within(*ctx, b as int, ctx.size()),
{
    let n = ctx.tree.nodes.len();
    let mut count: usize = 0;
    for j in 0..n
        invariant
            ctx.wf(),
            b < ctx.tree.nodes@.len(),
            n == ctx.size(),
            count == assertions_within(*ctx, b as int, j as int),
            count <= j,
    {
        let nj = &ctx.tree.nodes[j];
        let nb = &ctx.tree.nodes[b];
        if assertion_arity_exec(ctx, j) > 0 && nb.start_byte <= nj.start_byte && nj.end_byte <= nb.end_byte {
            count = count + 1;
        }
    }
    count
}

impl Rule for MaxExpects {
    open spec fn spec_id(&self) -> Seq<char> {
        "CTL_MAX_EXPECTS"@
    }

    open spec fn spec_config_key(&self) -> Seq<char> {
        "max-expects"@
    }

    open spec fn spec_default_level(&self) -> DiagnosticLevel {
        DiagnosticLevel::Warn
    }

    open spec fn spec_findings_at(&self, ctx: RuleContext, i: int) -> Seq<DiagnosticView> {
        match test_function_body(ctx, i) {
            Some(b) => {
                let n = assertions_within(ctx, b, ctx.size());
                let max = ctx.config.max_expects;
                if max > 0 && n > max {
                    seq![finding_at("CTL_MAX_EXPECTS"@, DiagnosticLevel::Warn, max_expects_message(n, max as nat), ctx.file_path@, ctx.node(i))]
                } else {
                    Seq::empty()
                }
            },
            None => Seq::empty(),
        }
    }

    fn id(&self) -> (r: &'static str) {
        "CTL_MAX_EXPECTS"
    }

    fn config_key(&self) -> (r: &'static str) {
        "max-expects"
    }

    open spec fn spec_description(&self) -> Seq<char> {
        "too many assertions in test"@
    }

    fn description(&self) -> (r: &'static str) {
        "too many assertions in test"
    }

    fn default_level(&self) -> (r: DiagnosticLevel) {
        DiagnosticLevel::Warn
    }

    fn findings_at(&self, ctx: &RuleContext, i: usize) -> (r: Vec<Diagnostic>) {
        let mut out: Vec<Diagnostic> = Vec::new();
        if str_eq(ctx.tree.nodes[i].kind.as_str(), "function_item") && has_marking_attr_exec(ctx, i, AttrCheck::TestPattern) {
            if let Some(b) = ctx.tree.child_by_field(i, "body") {
                if str_eq(ctx.tree.nodes[b].kind.as_str(), "block") {
                    let n = assertions_within_exec(ctx, b);
                    let max = ctx.config.max_expects;
                    if max > 0 && n > max {
                        let mut msg: Vec<char> = Vec::new();
                        push_str(&mut msg, "test has ");
                        let nd = u64_to_dec(n as u64);
                        push_all(&mut msg, nd.as_slice());
                        push_str(&mut msg, " assertions (max ");
                        let md = u64_to_dec(max as u64);
                        push_all(&mut msg, md.as_slice());
                        push_str(&mut msg, ") — split it into focused tests");
                        proof { assert(msg@ =~= max_expects_message(n as nat, max as nat)); }
                        let d = finding(ctx, i, "CTL_MAX_EXPECTS", DiagnosticLevel::Warn, string_from_chars(msg.as_slice()));
                        out.push(d);
                        proof { assert(views(out@) =~= seq![d@]); }
                        return out;
                    }
                }
            }
        }
        proof { assert(views(out@) =~= Seq::<DiagnosticView>::empty()); }
        out
    }
}

} // verus!
