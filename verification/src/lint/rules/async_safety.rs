//! Blocking calls inside `#[tokio::test]` functions.

use crate::lint::diagnostics::{views, Diagnostic, DiagnosticLevel, DiagnosticView};
use crate::lint::rules::{finding, finding_at, lemma_finding_in_output, rule_output, rule_run_level, text_of, Rule, RuleContext};
use crate::lint::syntax::{field_child, position_in};
use crate::text::{chars_contain, chars_of, contains_seq, push_str, str_eq, string_from_chars};
use vstd::prelude::*;

verus! {

/// Flags blocking calls in the body of a top-level function marked `#[tokio::test]`.
pub struct AsyncBlocking;

/// A call's function text mentions one of the blocking functions.
pub open spec fn mentions_blocking(t: Seq<char>) -> bool {
    ||| contains_seq(t, "std::thread::sleep"@)
    ||| contains_seq(t, "std::fs::read"@)
    ||| contains_seq(t, "std::fs::write"@)
    ||| contains_seq(t, "std::fs::read_to_string"@)
    ||| contains_seq(t, "std::net::TcpStream::connect"@)
    ||| contains_seq(t, "reqwest::blocking"@)
    ||| contains_seq(t, "tokio::runtime::Runtime::new"@)
}

fn contains_str(t: &Vec<char>, p: &str) -> (r: bool)
    ensures
        r == contains_seq(t@, p@),
{
    let pc = chars_of(p);
    chars_contain(t.as_slice(), pc.as_slice())
}

fn mentions_blocking_exec(t: &str) -> (r: bool)
    ensures
        r == mentions_blocking(t@),
{
    let tc = chars_of(t);
    contains_str(&tc, "std::thread::sleep") || contains_str(&tc, "std::fs::read") || contains_str(&tc, "std::fs::write")
        || contains_str(&tc, "std::fs::read_to_string") || contains_str(&tc, "std::net::TcpStream::connect")
        || contains_str(&tc, "reqwest::blocking") || contains_str(&tc, "tokio::runtime::Runtime::new")
}

/// The message for a blocking call `t`.
pub open spec fn blocking_message(t: Seq<char>) -> Seq<char> {
    "blocking call `"@ + t + "` in async test — use async equivalent"@
}

/// The blocking calls among the first `k` children of node `i` and below all of them.
pub open spec fn blocking_in(ctx: RuleContext, i: int, k: int) -> Seq<DiagnosticView>
    decreases ctx.size() - i, k,
{
    if !(0 <= i < ctx.size()) || k <= 0 || k > ctx.node(i).children@.len() {
        Seq::empty()
    } else {
        let prev = blocking_in(ctx, i, k - 1);
        let c = ctx.node(i).children@[k - 1] as int;
        if c <= i || c >= ctx.size() {
            prev
        } else {
            let here = if ctx.kind(c) == "call_expression"@ {
                match field_child(ctx.tree, c, "function"@) {
                    Some(f) => if 0 <= f < ctx.size() && mentions_blocking(ctx.text(f)) {
                        seq![finding_at("CTL_ASYNC_BLOCKING"@, DiagnosticLevel::Warn, blocking_message(ctx.text(f)), ctx.file_path@, ctx.node(c))]
                    } else {
                        Seq::empty()
                    },
                    None => Seq::empty(),
                }
            } else {
                Seq::empty()
            };
            prev + here + blocking_in(ctx, c, ctx.node(c).children@.len() as int)
        }
    }
}

fn find_blocking_calls(ctx: &RuleContext, i: usize, out: &mut Vec<Diagnostic>)
    requires
        ctx.wf(),
        i < ctx.tree.nodes@.len(),
    ensures
        views(final(out)@) == views(old(out)@) + blocking_in(*ctx, i as int, ctx.node(i as int).children@.len() as int),
    decreases ctx.tree.nodes@.len() - i,
{
    let ghost start = views(out@);
    let n = ctx.tree.nodes[i].children.len();
    proof { assert(views(out@) =~= start + blocking_in(*ctx, i as int, 0)); }
    for k in 0..n
        invariant
            ctx.wf(),
            i < ctx.tree.nodes@.len(),
            n == ctx.node(i as int).children@.len(),
            views(out@) == start + blocking_in(*ctx, i as int, k as int),
    {
        let c = ctx.tree.nodes[i].children[k];
        let ghost before = views(out@);
        if c <= i || c >= ctx.tree.nodes.len() {
        } else {
            let mut here_found = false;
            if str_eq(ctx.tree.nodes[c].kind.as_str(), "call_expression") {
                match ctx.tree.child_by_field(c, "function") {
                    Some(f) => {
                        let t = text_of(ctx, f);
                        if mentions_blocking_exec(t.as_str()) {
                            let mut msg: Vec<char> = Vec::new();
                            push_str(&mut msg, "blocking call `");
                            push_str(&mut msg, t.as_str());
                            push_str(&mut msg, "` in async test — use async equivalent");
                            proof { assert(msg@ =~= blocking_message(ctx.text(f as int))); }
                            let d = finding(ctx, c, "CTL_ASYNC_BLOCKING", DiagnosticLevel::Warn, string_from_chars(msg.as_slice()));
                            out.push(d);
                            here_found = true;
                            proof { assert(views(out@) =~= before.push(d@)); }
                        }
                    },
                    None => {},
                }
            }
            let ghost mid = views(out@);
            find_blocking_calls(ctx, c, out);
            proof {
                let here = if ctx.kind(c as int) == "call_expression"@ {
                    match field_child(ctx.tree, c as int, "function"@) {
                        Some(f) => if 0 <= f < ctx.size() && mentions_blocking(ctx.text(f)) {
                            seq![finding_at("CTL_ASYNC_BLOCKING"@, DiagnosticLevel::Warn, blocking_message(ctx.text(f)), ctx.file_path@, ctx.node(c as int))]
                        } else {
                            Seq::empty()
                        },
                        None => Seq::empty(),
                    }
                } else {
                    Seq::empty()
                };
                assert(mid =~= before + here);
                assert(views(out@) =~= before + here + blocking_in(*ctx, c as int, ctx.node(c as int).children@.len() as int));
            }
        }
        proof {
            assert(start + blocking_in(*ctx, i as int, k + 1) =~= views(out@));
        }
    }
}

/// The `scoped_identifier` children of node `at` among its first `k` that read `tokio::test`.
pub open spec fn tokio_idents(ctx: RuleContext, at: int, k: int) -> nat
    decreases k,
{
    if !(0 <= at < ctx.size()) || k <= 0 || k > ctx.node(at).children@.len() {
        0
    } else {
        let c = ctx.node(at).children@[k - 1] as int;
        tokio_idents(ctx, at, k - 1) + if c < ctx.size() && ctx.node(c).named && ctx.kind(c) == "scoped_identifier"@
            && ctx.text(c) == "tokio::test"@ { 1nat } else { 0nat }
    }
}

/// The ways the first `k` children of the attribute item `a` spell `#[tokio::test]`: an
/// `attribute` child with a `tokio::test` path child.
pub open spec fn tokio_attributes(ctx: RuleContext, a: int, k: int) -> nat
    decreases k,
{
    if !(0 <= a < ctx.size()) || k <= 0 || k > ctx.node(a).children@.len() {
        0
    } else {
        let c = ctx.node(a).children@[k - 1] as int;
        tokio_attributes(ctx, a, k - 1) + if c < ctx.size() && ctx.node(c).named && ctx.kind(c) == "attribute"@ {
            tokio_idents(ctx, c, ctx.node(c).children@.len() as int)
        } else {
            0nat
        }
    }
}

/// The ways the first `k` of the nodes `cs` mark what follows as `#[tokio::test]`.
pub open spec fn tokio_marks(ctx: RuleContext, cs: Seq<usize>, k: int) -> nat
    decreases k,
{
    if k <= 0 || k > cs.len() {
        0
    } else {
        let a = cs[k - 1] as int;
        tokio_marks(ctx, cs, k - 1) + if a < ctx.size() && ctx.node(a).named && ctx.kind(a) == "attribute_item"@ {
            tokio_attributes(ctx, a, ctx.node(a).children@.len() as int)
        } else {
            0nat
        }
    }
}

/// `n` copies of `s`, one after the other.
pub open spec fn repeated(s: Seq<DiagnosticView>, n: nat) -> Seq<DiagnosticView>
    decreases n,
{
    if n == 0 { Seq::empty() } else { repeated(s, (n - 1) as nat) + s }
}

/// The first child of node `i` that is a block.
pub open spec fn first_block_from(ctx: RuleContext, i: int, k: int) -> Option<int>
    decreases ctx.node(i).children@.len() - k,
{
    if !(0 <= i < ctx.size()) || k < 0 || k >= ctx.node(i).children@.len() {
        None
    } else {
        let c = ctx.node(i).children@[k] as int;
        if c < ctx.size() && ctx.kind(c) == "block"@ { Some(c) } else { first_block_from(ctx, i, k + 1) }
    }
}

/// How many times the rule's pattern matches a top-level function at node `i`: once for each
/// way an earlier top-level attribute item spells `#[tokio::test]`.
pub open spec fn tokio_matches(ctx: RuleContext, i: int) -> nat {
    if 0 < i < ctx.size() && ctx.kind(0) == "source_file"@ && ctx.kind(i) == "function_item"@ && ctx.node(i).named
        && ctx.node(i).parent == Some(0usize) {
        let cs = ctx.node(0).children@;
        let pos = position_in(cs, i);
        if pos >= 0 { tokio_marks(ctx, cs, pos) } else { 0 }
    } else {
        0
    }
}

fn first_block(ctx: &RuleContext, i: usize) -> (r: Option<usize>)
    requires
        i < ctx.tree.nodes@.len(),
    ensures
        match r {
            Some(b) => first_block_from(*ctx, i as int, 0) == Some(b as int) && b < ctx.tree.nodes@.len(),
            None => first_block_from(*ctx, i as int, 0) is None,
        },
{
    let cs = &ctx.tree.nodes[i].children;
    let mut k: usize = 0;
    while k < cs.len()
        invariant
            i < ctx.tree.nodes@.len(),
            cs@ == ctx.node(i as int).children@,
            k <= cs@.len(),
            first_block_from(*ctx, i as int, 0) == first_block_from(*ctx, i as int, k as int),
        decreases cs@.len() - k,
    {
        let c = cs[k];
        if c < ctx.tree.nodes.len() && str_eq(ctx.tree.nodes[c].kind.as_str(), "block") {
            return Some(c);
        }
        k = k + 1;
    }
    None
}

/// Appends the blocking calls of block `b` once for each way the attribute item `a` spells
/// `#[tokio::test]`.
fn blocking_per_mark(ctx: &RuleContext, a: usize, b: usize, out: &mut Vec<Diagnostic>)
    requires
        ctx.wf(),
        a < ctx.tree.nodes@.len(),
        b < ctx.tree.nodes@.len(),
    ensures
        views(final(out)@) == views(old(out)@) + repeated(blocking_in(*ctx, b as int, ctx.node(b as int).children@.len() as int),
            tokio_attributes(*ctx, a as int, ctx.node(a as int).children@.len() as int)),
{
    let ghost s = blocking_in(*ctx, b as int, ctx.node(b as int).children@.len() as int);
    let ghost start = views(out@);
    let acs = &ctx.tree.nodes[a].children;
    proof { assert(views(out@) =~= start + repeated(s, 0)); }
    for j in 0..acs.len()
        invariant
            ctx.wf(),
            a < ctx.tree.nodes@.len(),
            b < ctx.tree.nodes@.len(),
            s == blocking_in(*ctx, b as int, ctx.node(b as int).children@.len() as int),
            acs@ == ctx.node(a as int).children@,
            views(out@) == start + repeated(s, tokio_attributes(*ctx, a as int, j as int)),
    {
        let c = acs[j];
        if c < ctx.tree.nodes.len() && ctx.tree.nodes[c].named && str_eq(ctx.tree.nodes[c].kind.as_str(), "attribute") {
            let ccs = &ctx.tree.nodes[c].children;
            let ghost base = tokio_attributes(*ctx, a as int, j as int);
            for q in 0..ccs.len()
                invariant
                    ctx.wf(),
                    c < ctx.tree.nodes@.len(),
                    b < ctx.tree.nodes@.len(),
                    s == blocking_in(*ctx, b as int, ctx.node(b as int).children@.len() as int),
                    ccs@ == ctx.node(c as int).children@,
                    views(out@) == start + repeated(s, base + tokio_idents(*ctx, c as int, q as int)),
            {
                let x = ccs[q];
                if x < ctx.tree.nodes.len() && ctx.tree.nodes[x].named && str_eq(ctx.tree.nodes[x].kind.as_str(), "scoped_identifier") {
                    let t = text_of(ctx, x);
                    if str_eq(t.as_str(), "tokio::test") {
                        let ghost before = views(out@);
                        find_blocking_calls(ctx, b, out);
                        proof {
                            let m = (base + tokio_idents(*ctx, c as int, q as int)) as nat;
                            assert(repeated(s, m + 1) == repeated(s, m) + s);
                            assert(views(out@) =~= start + repeated(s, m + 1));
                        }
                    }
                }
            }
        }
    }
}

impl Rule for AsyncBlocking {
    open spec fn spec_id(&self) -> Seq<char> {
        "CTL_ASYNC_BLOCKING"@
    }

    open spec fn spec_config_key(&self) -> Seq<char> {
        "async-blocking"@
    }

    open spec fn spec_default_level(&self) -> DiagnosticLevel {
        DiagnosticLevel::Warn
    }

    open spec fn spec_findings_at(&self, ctx: RuleContext, i: int) -> Seq<DiagnosticView> {
        match first_block_from(ctx, i, 0) {
            Some(b) => repeated(blocking_in(ctx, b, ctx.node(b).children@.len() as int), tokio_matches(ctx, i)),
            None => Seq::empty(),
        }
    }

    fn id(&self) -> (r: &'static str) {
        "CTL_ASYNC_BLOCKING"
    }

    fn config_key(&self) -> (r: &'static str) {
        "async-blocking"
    }

    open spec fn spec_description(&self) -> Seq<char> {
        "blocking call in async test"@
    }

    fn description(&self) -> (r: &'static str) {
        "blocking call in async test"
    }

    fn default_level(&self) -> (r: DiagnosticLevel) {
        DiagnosticLevel::Warn
    }

    fn findings_at(&self, ctx: &RuleContext, i: usize) -> (r: Vec<Diagnostic>) {
        let mut out: Vec<Diagnostic> = Vec::new();
        let b = match first_block(ctx, i) {
            Some(b) => b,
            None => {
                proof { assert(views(out@) =~= Seq::<DiagnosticView>::empty()); }
                return out;
            },
        };
        let ghost s = blocking_in(*ctx, b as int, ctx.node(b as int).children@.len() as int);
        proof { assert(views(out@) =~= repeated(s, 0)); }
        if i == 0 || !str_eq(ctx.tree.nodes[0].kind.as_str(), "source_file") || !str_eq(ctx.tree.nodes[i].kind.as_str(), "function_item")
            || !ctx.tree.nodes[i].named || ctx.tree.nodes[i].parent != Some(0) {
            return out;
        }
        let cs = &ctx.tree.nodes[0].children;
        let mut k: usize = 0;
        while k < cs.len() && cs[k] != i
            invariant
                ctx.wf(),
                0 < i < ctx.tree.nodes@.len(),
                b < ctx.tree.nodes@.len(),
                s == blocking_in(*ctx, b as int, ctx.node(b as int).children@.len() as int),
                cs@ == ctx.node(0).children@,
                k <= cs@.len(),
                forall|q: int| 0 <= q < k ==> cs@[q] != i,
                views(out@) == repeated(s, tokio_marks(*ctx, cs@, k as int)),
            decreases cs@.len() - k,
        {
            let a = cs[k];
            if a < ctx.tree.nodes.len() && ctx.tree.nodes[a].named && str_eq(ctx.tree.nodes[a].kind.as_str(), "attribute_item") {
                let ghost before = views(out@);
                blocking_per_mark(ctx, a, b, &mut out);
                proof { lemma_repeated_add(s, tokio_marks(*ctx, cs@, k as int), tokio_attributes(*ctx, a as int, ctx.node(a as int).children@.len() as int)); }
            }
            k = k + 1;
        }
        proof {
            assert(ctx.node(0).children@.contains(i));
            if k == cs@.len() {
                let q = choose|q: int| 0 <= q < cs@.len() && cs@[q] == i;
                assert(false);
            }
            crate::lint::syntax::lemma_position_first(cs@, i as int, k as int);
        }
        out
    }
}

proof fn lemma_repeated_add(s: Seq<DiagnosticView>, m: nat, n: nat)
    ensures
        repeated(s, m) + repeated(s, n) == repeated(s, m + n),
    decreases n,
{
    if n == 0 {
        assert(repeated(s, m) + repeated(s, 0) =~= repeated(s, m));
    } else {
        lemma_repeated_add(s, m, (n - 1) as nat);
        assert(repeated(s, m) + repeated(s, n) =~= repeated(s, m) + repeated(s, (n - 1) as nat) + s);
    }
}

/// Node `c` lies below node `b`: walking up the parents from `c` reaches `b`.
pub open spec fn lies_below(ctx: RuleContext, c: int, b: int) -> bool
    decreases c,
{
    if 0 <= c < ctx.size() {
        match ctx.node(c).parent {
            Some(p) => p < c && (p == b || lies_below(ctx, p as int, b)),
            None => false,
        }
    } else {
        false
    }
}

proof fn lemma_blocking_grows(ctx: RuleContext, i: int, k: int, m: int, d: DiagnosticView)
    requires
        blocking_in(ctx, i, k).contains(d),
        k <= m <= ctx.node(i).children@.len(),
    ensures
        blocking_in(ctx, i, m).contains(d),
    decreases m - k,
{
    if m > k {
        lemma_blocking_grows(ctx, i, k, m - 1, d);
        let prev = blocking_in(ctx, i, m - 1);
        let q = choose|q: int| 0 <= q < prev.len() && prev[q] == d;
        assert(blocking_in(ctx, i, m)[q] == d);
    }
}

/// The index of child `c` among the children of node `p`.
proof fn lemma_child_index(ctx: RuleContext, c: int) -> (k: int)
    requires
        ctx.wf(),
        0 < c < ctx.size(),
    ensures
        ctx.node(c).parent matches Some(p) && p < c && 0 <= k < ctx.node(p as int).children@.len()
            && ctx.node(p as int).children@[k] == c,
{
    let p = ctx.node(c).parent->0 as int;
    assert(ctx.tree.nodes.len() == ctx.tree.nodes@.len());
    let cu = c as usize;
    assert(ctx.tree.nodes@[c].parent matches Some(q) && q < c && ctx.tree.nodes@[q as int].children@.contains(cu));
    let k = choose|k: int| 0 <= k < ctx.node(p).children@.len() && ctx.node(p).children@[k] == cu;
    k
}

/// What the blocking calls below a child report is reported for its parent too.
proof fn lemma_blocking_from_child(ctx: RuleContext, c: int, d: DiagnosticView)
    requires
        ctx.wf(),
        0 < c < ctx.size(),
        blocking_in(ctx, c, ctx.node(c).children@.len() as int).contains(d),
    ensures
        ctx.node(c).parent matches Some(p) && blocking_in(ctx, p as int, ctx.node(p as int).children@.len() as int).contains(d),
{
    let k = lemma_child_index(ctx, c);
    let p = ctx.node(c).parent->0 as int;
    let sub = blocking_in(ctx, c, ctx.node(c).children@.len() as int);
    let q = choose|q: int| 0 <= q < sub.len() && sub[q] == d;
    let at = blocking_in(ctx, p, k + 1);
    assert(at[at.len() - sub.len() + q] == d);
    lemma_blocking_grows(ctx, p, k + 1, ctx.node(p).children@.len() as int, d);
}

proof fn lemma_blocking_below(ctx: RuleContext, c: int, b: int, d: DiagnosticView)
    requires
        ctx.wf(),
        0 <= c < ctx.size(),
        lies_below(ctx, c, b),
        blocking_in(ctx, c, ctx.node(c).children@.len() as int).contains(d),
    ensures
        blocking_in(ctx, b, ctx.node(b).children@.len() as int).contains(d),
    decreases c,
{
    assert(ctx.tree.nodes@[0].parent is None);
    lemma_blocking_from_child(ctx, c, d);
    let p = ctx.node(c).parent->0 as int;
    if p != b {
        lemma_blocking_below(ctx, p, b, d);
    }
}

/// In a function marked `#[tokio::test]`, a call in its body whose function text contains
/// `std::thread::sleep`, `std::fs::read`, `std::fs::write`, `std::fs::read_to_string`,
/// `std::net::TcpStream::connect`, `reqwest::blocking` or `tokio::runtime::Runtime::new` gives
/// an async-blocking finding at the call; running the rule over the file reports it unless the
/// rule runs at `allow`.
pub proof fn law_blocking_call_in_tokio_test_flagged(ctx: RuleContext, i: int, b: int, c: int, f: int)
    requires
        ctx.wf(),
        0 <= i < ctx.size(),
        tokio_matches(ctx, i) >= 1,
        first_block_from(ctx, i, 0) == Some(b),
        lies_below(ctx, c, b),
        ctx.kind(c) == "call_expression"@,
        field_child(ctx.tree, c, "function"@) == Some(f),
        0 <= f < ctx.size(),
        contains_seq(ctx.text(f), "std::thread::sleep"@) || contains_seq(ctx.text(f), "std::fs::read"@)
            || contains_seq(ctx.text(f), "std::fs::write"@) || contains_seq(ctx.text(f), "std::fs::read_to_string"@)
            || contains_seq(ctx.text(f), "std::net::TcpStream::connect"@) || contains_seq(ctx.text(f), "reqwest::blocking"@)
            || contains_seq(ctx.text(f), "tokio::runtime::Runtime::new"@),
    ensures
        AsyncBlocking.spec_findings_at(ctx, i).contains(finding_at(
            "CTL_ASYNC_BLOCKING"@,
            DiagnosticLevel::Warn,
            blocking_message(ctx.text(f)),
            ctx.file_path@,
            ctx.node(c),
        )),
        rule_run_level(AsyncBlocking, ctx) != DiagnosticLevel::Allow ==> rule_output(AsyncBlocking, ctx).contains(
            DiagnosticView {
                level: rule_run_level(AsyncBlocking, ctx),
                ..finding_at("CTL_ASYNC_BLOCKING"@, DiagnosticLevel::Warn, blocking_message(ctx.text(f)), ctx.file_path@, ctx.node(c))
            },
        ),
{
    let d = finding_at("CTL_ASYNC_BLOCKING"@, DiagnosticLevel::Warn, blocking_message(ctx.text(f)), ctx.file_path@, ctx.node(c));
    assert(mentions_blocking(ctx.text(f)));
    let k = lemma_child_index(ctx, c);
    let p = ctx.node(c).parent->0 as int;
    let at = blocking_in(ctx, p, k + 1);
    let prev = blocking_in(ctx, p, k);
    assert(at[prev.len() as int] == d);
    lemma_blocking_grows(ctx, p, k + 1, ctx.node(p).children@.len() as int, d);
    if p != b {
        lemma_blocking_below(ctx, p, b, d);
    }
    let s = blocking_in(ctx, b, ctx.node(b).children@.len() as int);
    let n = tokio_matches(ctx, i);
    let q = choose|q: int| 0 <= q < s.len() && s[q] == d;
    let rep = repeated(s, n);
    assert(rep == repeated(s, (n - 1) as nat) + s);
    assert(rep[rep.len() - s.len() + q] == d);
    if rule_run_level(AsyncBlocking, ctx) != DiagnosticLevel::Allow {
        lemma_finding_in_output(AsyncBlocking, ctx, i, d);
    }
}

} // verus!
