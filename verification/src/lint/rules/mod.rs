//! The lint rules: what each one reports at a node of the syntax tree, and how they are run
//! over a file.

pub mod assertions;
pub mod async_safety;
pub mod cloning;
pub mod complexity;
pub mod dead_code;
pub mod drop;
pub mod flow;
pub mod fsio;
pub mod nextest;
pub mod semantic;
pub mod sleep;
pub mod structure;
pub mod test_context;

use crate::lint::config::Config;
use crate::lint::diagnostics::{law_sort_by_position_sorts, law_sort_views_keeps, lemma_sort_views, positions_sorted, sort_views_by_position, views, Diagnostic, DiagnosticLevel, DiagnosticView};
use crate::lint::syntax::{parse_source, syntax_tree, SyntaxNode, SyntaxTree};
use vstd::slice::slice_to_vec;
use vstd::string::StringSliceAdditionalSpecFns;
use vstd::prelude::*;

verus! {

/// What a rule reads: the source bytes, their syntax tree, the configuration and the path of
/// the file.
#[derive(Debug)]
pub struct RuleContext {
    pub source: Vec<u8>,
    pub tree: SyntaxTree,
    pub config: Config,
    pub file_path: String,
}

impl RuleContext {
    /// The context's tree is well formed.
    pub open spec fn wf(&self) -> bool {
        self.tree.wf()
    }

    /// The number of nodes of the tree.
    pub open spec fn size(&self) -> int {
        self.tree.nodes@.len() as int
    }

    /// Node `i` of the tree.
    pub open spec fn node(&self, i: int) -> SyntaxNode {
        self.tree.nodes@[i]
    }

    /// The text of node `i`.
    pub open spec fn text(&self, i: int) -> Seq<char> {
        node_text(self.source@, self.tree.nodes@[i])
    }

    /// The kind of node `i`.
    pub open spec fn kind(&self, i: int) -> Seq<char> {
        self.tree.nodes@[i].kind@
    }
}

/// `std::str::from_utf8`: the text the bytes encode, when they are UTF-8 (as its documentation
/// says, it fails exactly on bytes that are not).
#[verifier::external_body]
fn utf8_str(bytes: &[u8]) -> (r: Option<String>)
    ensures
        r is Some <==> vstd::utf8::valid_utf8(bytes@),
        r matches Some(s) ==> s@ == vstd::utf8::decode_utf8(bytes@),
{
    std::str::from_utf8(bytes).ok().map(|s| s.to_string())
}

/// The text of a node: the source bytes it covers, read as UTF-8; nothing when they are not
/// UTF-8 or lie outside the source.
pub open spec fn node_text(source: Seq<u8>, n: SyntaxNode) -> Seq<char> {
    let b = source.subrange(n.start_byte as int, n.end_byte as int);
    if n.start_byte <= n.end_byte && n.end_byte <= source.len() && vstd::utf8::valid_utf8(b) {
        vstd::utf8::decode_utf8(b)
    } else {
        Seq::empty()
    }
}

/// The UTF-8 encoding of a node's text is no longer than the source.
pub proof fn lemma_text_bytes(source: Seq<u8>, n: SyntaxNode)
    ensures
        vstd::utf8::encode_utf8(node_text(source, n)).len() <= source.len(),
{
    let b = source.subrange(n.start_byte as int, n.end_byte as int);
    if n.start_byte <= n.end_byte && n.end_byte <= source.len() && vstd::utf8::valid_utf8(b) {
        vstd::utf8::decode_utf8_encode_utf8(b);
    } else {
        assert(vstd::utf8::encode_utf8(Seq::<char>::empty()) =~= Seq::<u8>::empty()) by {
            reveal_with_fuel(vstd::utf8::encode_utf8, 2);
        }
    }
}

/// The text of node `i`.
pub fn text_of(ctx: &RuleContext, i: usize) -> (r: String)
    requires
        i < ctx.tree.nodes@.len(),
    ensures
        r@ == ctx.text(i as int),
{
    let n = &ctx.tree.nodes[i];
    if n.start_byte <= n.end_byte && n.end_byte <= ctx.source.len() {
        match utf8_str(&ctx.source.as_slice()[n.start_byte..n.end_byte]) {
            Some(s) => s,
            None => String::new(),
        }
    } else {
        String::new()
    }
}

/// A finding of rule `id` at node `n`, with positions counted from 1.
pub open spec fn finding_at(id: Seq<char>, level: DiagnosticLevel, message: Seq<char>, file: Seq<char>, n: SyntaxNode) -> DiagnosticView {
    DiagnosticView {
        rule_id: id,
        level,
        message,
        file_path: file,
        line: (n.start_row + 1) as usize,
        column: (n.start_column + 1) as usize,
        end_line: (n.end_row + 1) as usize,
        end_column: (n.end_column + 1) as usize,
        suggestion: None,
    }
}

/// A finding of rule `id` at node `i`.
pub fn finding(ctx: &RuleContext, i: usize, id: &str, level: DiagnosticLevel, message: String) -> (r: Diagnostic)
    requires
        ctx.wf(),
        i < ctx.tree.nodes@.len(),
    ensures
        r@ == finding_at(id@, level, message@, ctx.file_path@, ctx.node(i as int)),
{
    let n = &ctx.tree.nodes[i];
    Diagnostic {
        rule_id: String::from_str(id),
        level,
        message,
        file_path: ctx.file_path.clone(),
        line: n.start_row + 1,
        column: n.start_column + 1,
        end_line: n.end_row + 1,
        end_column: n.end_column + 1,
        suggestion: None,
    }
}

/// A lint rule: its names, its default level, and what it reports at each node of a tree.
pub trait Rule {
    spec fn spec_id(&self) -> Seq<char>;

    spec fn spec_config_key(&self) -> Seq<char>;

    spec fn spec_default_level(&self) -> DiagnosticLevel;

    /// What the rule reports at node `i`, before its level is set.
    spec fn spec_findings_at(&self, ctx: RuleContext, i: int) -> Seq<DiagnosticView>;

    /// The rule's id in reports.
    fn id(&self) -> (r: &'static str)
        ensures
            r@ == self.spec_id(),
    ;

    /// The rule's name in configuration files.
    fn config_key(&self) -> (r: &'static str)
        ensures
            r@ == self.spec_config_key(),
    ;

    /// What the rule looks for, in words.
    spec fn spec_description(&self) -> Seq<char>;

    /// What the rule looks for.
    fn description(&self) -> (r: &'static str)
        ensures
            r@ == self.spec_description(),
    ;

    /// The level of the rule's findings when the configuration sets none.
    fn default_level(&self) -> (r: DiagnosticLevel)
        ensures
            r == self.spec_default_level(),
    ;

    /// What the rule reports at node `i`.
    fn findings_at(&self, ctx: &RuleContext, i: usize) -> (r: Vec<Diagnostic>)
        requires
            ctx.wf(),
            i < ctx.tree.nodes@.len(),
        ensures
            views(r@) == self.spec_findings_at(*ctx, i as int),
    ;
}

/// What a rule reports at the first `k` nodes, in order.
pub open spec fn findings_upto<R: Rule>(rule: R, ctx: RuleContext, k: int) -> Seq<DiagnosticView>
    decreases k,
{
    if k <= 0 {
        Seq::empty()
    } else {
        findings_upto(rule, ctx, k - 1) + rule.spec_findings_at(ctx, k - 1)
    }
}

/// Findings with their level set to `l`.
pub open spec fn with_level(ds: Seq<DiagnosticView>, l: DiagnosticLevel) -> Seq<DiagnosticView> {
    ds.map_values(|d: DiagnosticView| DiagnosticView { level: l, ..d })
}

/// The level a rule runs at: the configured one, or its default.
pub open spec fn rule_run_level<R: Rule>(rule: R, ctx: RuleContext) -> DiagnosticLevel {
    ctx.config.spec_rule_level(rule.spec_config_key(), rule.spec_default_level())
}

/// What running a rule over a file gives: nothing at level `allow`, otherwise its findings at
/// every node in order, at the level the rule runs at.
pub open spec fn rule_output<R: Rule>(rule: R, ctx: RuleContext) -> Seq<DiagnosticView> {
    let level = rule_run_level(rule, ctx);
    if level == DiagnosticLevel::Allow {
        Seq::empty()
    } else {
        with_level(findings_upto(rule, ctx, ctx.size()), level)
    }
}

/// Runs one rule over a file.
pub fn run_rule<R: Rule>(rule: &R, ctx: &RuleContext) -> (r: Vec<Diagnostic>)
    requires
        ctx.wf(),
    ensures
        views(r@) == rule_output(*rule, *ctx),
{
    let level = ctx.config.rule_level(rule.config_key(), rule.default_level());
    let mut out: Vec<Diagnostic> = Vec::new();
    if level == DiagnosticLevel::Allow {
        proof { assert(views(out@) =~= Seq::<DiagnosticView>::empty()); }
        return out;
    }
    proof { assert(views(out@) =~= with_level(findings_upto(*rule, *ctx, 0), level)); }
    for i in 0..ctx.tree.nodes.len()
        invariant
            ctx.wf(),
            level == rule_run_level(*rule, *ctx),
            views(out@) == with_level(findings_upto(*rule, *ctx, i as int), level),
    {
        let mut ds = rule.findings_at(ctx, i);
        let ghost found = views(ds@);
        let ghost before = views(out@);
        let ghost mut taken: int = 0;
        while ds.len() > 0
            invariant
                0 <= taken <= found.len(),
                ds@.len() + taken == found.len(),
                views(ds@) == found.subrange(taken, found.len() as int),
                views(out@) == before + with_level(found.take(taken), level),
            decreases ds@.len(),
        {
            let ghost dsb = ds@;
            let mut d = ds.remove(0);
            proof {
                assert(d@ == found[taken]) by {
                    assert(views(dsb)[0] == found.subrange(taken, found.len() as int)[0]);
                }
                assert(views(ds@) =~= found.subrange(taken + 1, found.len() as int)) by {
                    assert forall|q: int| 0 <= q < ds@.len() implies #[trigger] views(ds@)[q] == found.subrange(taken + 1, found.len() as int)[q] by {
                        assert(ds@[q] == dsb[q + 1]);
                        assert(views(dsb)[q + 1] == found.subrange(taken, found.len() as int)[q + 1]);
                    }
                }
            }
            d.level = level;
            let ghost ob = views(out@);
            out.push(d);
            proof {
                assert(views(out@) =~= ob.push(d@));
                assert(with_level(found.take(taken + 1), level) =~= with_level(found.take(taken), level).push(DiagnosticView { level, ..found[taken] }));
                taken = taken + 1;
            }
        }
        proof {
            assert(found.take(taken) =~= found);
            assert(with_level(findings_upto(*rule, *ctx, i + 1), level) =~= with_level(findings_upto(*rule, *ctx, i as int), level) + with_level(found, level));
        }
    }
    out
}

/// A rule configured at `allow` reports nothing; otherwise every finding it reports carries
/// the level the rule runs at, and its findings are those at each node, in node order.
pub proof fn law_rule_output_levels<R: Rule>(rule: R, ctx: RuleContext)
    ensures
        rule_run_level(rule, ctx) == DiagnosticLevel::Allow ==> rule_output(rule, ctx).len() == 0,
        rule_run_level(rule, ctx) != DiagnosticLevel::Allow ==> rule_output(rule, ctx).len()
            == findings_upto(rule, ctx, ctx.size()).len(),
        forall|i: int| 0 <= i < rule_output(rule, ctx).len() ==> {
            &&& #[trigger] rule_output(rule, ctx)[i].level == rule_run_level(rule, ctx)
            &&& rule_run_level(rule, ctx) != DiagnosticLevel::Allow
            &&& rule_output(rule, ctx)[i] == DiagnosticView {
                level: rule_run_level(rule, ctx),
                ..findings_upto(rule, ctx, ctx.size())[i]
            }
        },
{
}

proof fn lemma_findings_upto_contains<R: Rule>(rule: R, ctx: RuleContext, i: int, k: int, d: DiagnosticView)
    requires
        0 <= i < k,
        rule.spec_findings_at(ctx, i).contains(d),
    ensures
        findings_upto(rule, ctx, k).contains(d),
    decreases k,
{
    let here = rule.spec_findings_at(ctx, k - 1);
    let prev = findings_upto(rule, ctx, k - 1);
    if k == i + 1 {
        let q = choose|q: int| 0 <= q < here.len() && here[q] == d;
        assert(findings_upto(rule, ctx, k)[prev.len() + q] == d);
    } else {
        lemma_findings_upto_contains(rule, ctx, i, k - 1, d);
        let q = choose|q: int| 0 <= q < prev.len() && prev[q] == d;
        assert(findings_upto(rule, ctx, k)[q] == d);
    }
}

/// A finding that a rule reports at a node of a file is among the findings of running the
/// rule over the file, at the level the rule runs at, unless that level is `allow`.
pub proof fn lemma_finding_in_output<R: Rule>(rule: R, ctx: RuleContext, i: int, d: DiagnosticView)
    requires
        0 <= i < ctx.size(),
        rule.spec_findings_at(ctx, i).contains(d),
        rule_run_level(rule, ctx) != DiagnosticLevel::Allow,
    ensures
        rule_output(rule, ctx).contains(DiagnosticView { level: rule_run_level(rule, ctx), ..d }),
{
    lemma_findings_upto_contains(rule, ctx, i, ctx.size(), d);
    let s = findings_upto(rule, ctx, ctx.size());
    let j = choose|j: int| 0 <= j < s.len() && s[j] == d;
    assert(rule_output(rule, ctx)[j] == DiagnosticView { level: rule_run_level(rule, ctx), ..d });
}

/// What a rule contributes when all rules run: its output when the configuration enables it.
pub open spec fn enabled_output<R: Rule>(rule: R, ctx: RuleContext) -> Seq<DiagnosticView> {
    if ctx.config.spec_rule_enabled(rule.spec_config_key()) { rule_output(rule, ctx) } else { Seq::empty() }
}

/// The findings of all registered rules, rule by rule, before sorting.
pub open spec fn all_rules_output(ctx: RuleContext) -> Seq<DiagnosticView> {
    enabled_output(assertions::AssertMsg, ctx) + enabled_output(assertions::MaxExpects, ctx)
        + enabled_output(sleep::SleepyTest, ctx) + enabled_output(flow::TestBranching, ctx)
        + enabled_output(nextest::StaticMut, ctx) + enabled_output(nextest::EnvSetVar, ctx)
        + enabled_output(async_safety::AsyncBlocking, ctx) + enabled_output(structure::NestedMod, ctx)
        + enabled_output(cloning::UnnecessaryClone, ctx) + enabled_output(complexity::DeepWrapper, ctx)
        + enabled_output(drop::MissingDropGuard, ctx) + enabled_output(dead_code::DeadTestHelper, ctx)
}

proof fn lemma_concat_contains(a: Seq<DiagnosticView>, b: Seq<DiagnosticView>, d: DiagnosticView)
    ensures
        a.contains(d) ==> (a + b).contains(d),
        b.contains(d) ==> (a + b).contains(d),
{
    if a.contains(d) {
        let q = choose|q: int| 0 <= q < a.len() && a[q] == d;
        assert((a + b)[q] == d);
    }
    if b.contains(d) {
        let q = choose|q: int| 0 <= q < b.len() && b[q] == d;
        assert((a + b)[a.len() + q] == d);
    }
}

/// Every finding of one of the registered rules' outputs is among the findings of all rules.
proof fn lemma_all_rules_contain(ctx: RuleContext, d: DiagnosticView)
    ensures
        enabled_output(assertions::AssertMsg, ctx).contains(d) || enabled_output(assertions::MaxExpects, ctx).contains(d)
            || enabled_output(sleep::SleepyTest, ctx).contains(d) || enabled_output(flow::TestBranching, ctx).contains(d)
            || enabled_output(nextest::StaticMut, ctx).contains(d) || enabled_output(nextest::EnvSetVar, ctx).contains(d)
            || enabled_output(async_safety::AsyncBlocking, ctx).contains(d)
            || enabled_output(structure::NestedMod, ctx).contains(d)
            || enabled_output(cloning::UnnecessaryClone, ctx).contains(d)
            || enabled_output(complexity::DeepWrapper, ctx).contains(d)
            || enabled_output(drop::MissingDropGuard, ctx).contains(d)
            || enabled_output(dead_code::DeadTestHelper, ctx).contains(d)
            ==> sort_views_by_position(all_rules_output(ctx)).contains(d),
{
    broadcast use vstd::seq_lib::group_to_multiset_ensures;
    let p1 = enabled_output(assertions::AssertMsg, ctx);
    let o2 = enabled_output(assertions::MaxExpects, ctx);
    lemma_concat_contains(p1, o2, d);
    let p2 = p1 + o2;
    let o3 = enabled_output(sleep::SleepyTest, ctx);
    lemma_concat_contains(p2, o3, d);
    let p3 = p2 + o3;
    let o4 = enabled_output(flow::TestBranching, ctx);
    lemma_concat_contains(p3, o4, d);
    let p4 = p3 + o4;
    let o5 = enabled_output(nextest::StaticMut, ctx);
    lemma_concat_contains(p4, o5, d);
    let p5 = p4 + o5;
    let o6 = enabled_output(nextest::EnvSetVar, ctx);
    lemma_concat_contains(p5, o6, d);
    let p6 = p5 + o6;
    let o7 = enabled_output(async_safety::AsyncBlocking, ctx);
    lemma_concat_contains(p6, o7, d);
    let p7 = p6 + o7;
    let o8 = enabled_output(structure::NestedMod, ctx);
    lemma_concat_contains(p7, o8, d);
    let p8 = p7 + o8;
    let o9 = enabled_output(cloning::UnnecessaryClone, ctx);
    lemma_concat_contains(p8, o9, d);
    let p9 = p8 + o9;
    let o10 = enabled_output(complexity::DeepWrapper, ctx);
    lemma_concat_contains(p9, o10, d);
    let p10 = p9 + o10;
    let o11 = enabled_output(drop::MissingDropGuard, ctx);
    lemma_concat_contains(p10, o11, d);
    let p11 = p10 + o11;
    let o12 = enabled_output(dead_code::DeadTestHelper, ctx);
    lemma_concat_contains(p11, o12, d);
    let all = all_rules_output(ctx);
    assert(all == p11 + o12);
    law_sort_views_keeps(all);
    if all.contains(d) {
        assert(sort_views_by_position(all).to_multiset().count(d) > 0);
    }
}

/// Linting a file runs every registered rule that the configuration enables: each finding
/// that assertion-roulette, max-expects, sleepy-test, test-branching, static-mut, env-set-var,
/// async-blocking, nested-mod, unnecessary-clone, deep-wrapper, missing-drop-guard or
/// dead-test-helper gives when it runs alone over the file is among the findings of linting
/// the whole file, if the configuration enables that rule.
pub proof fn law_lint_includes_each_enabled_rule(ctx: RuleContext, d: DiagnosticView)
    ensures
        ctx.config.spec_rule_enabled("assertion-roulette"@) && rule_output(assertions::AssertMsg, ctx).contains(d)
            ==> sort_views_by_position(all_rules_output(ctx)).contains(d),
        ctx.config.spec_rule_enabled("max-expects"@) && rule_output(assertions::MaxExpects, ctx).contains(d)
            ==> sort_views_by_position(all_rules_output(ctx)).contains(d),
        ctx.config.spec_rule_enabled("sleepy-test"@) && rule_output(sleep::SleepyTest, ctx).contains(d)
            ==> sort_views_by_position(all_rules_output(ctx)).contains(d),
        ctx.config.spec_rule_enabled("test-branching"@) && rule_output(flow::TestBranching, ctx).contains(d)
            ==> sort_views_by_position(all_rules_output(ctx)).contains(d),
        ctx.config.spec_rule_enabled("static-mut"@) && rule_output(nextest::StaticMut, ctx).contains(d)
            ==> sort_views_by_position(all_rules_output(ctx)).contains(d),
        ctx.config.spec_rule_enabled("env-set-var"@) && rule_output(nextest::EnvSetVar, ctx).contains(d)
            ==> sort_views_by_position(all_rules_output(ctx)).contains(d),
        ctx.config.spec_rule_enabled("async-blocking"@) && rule_output(async_safety::AsyncBlocking, ctx).contains(d)
            ==> sort_views_by_position(all_rules_output(ctx)).contains(d),
        ctx.config.spec_rule_enabled("nested-mod"@) && rule_output(structure::NestedMod, ctx).contains(d)
            ==> sort_views_by_position(all_rules_output(ctx)).contains(d),
        ctx.config.spec_rule_enabled("unnecessary-clone"@) && rule_output(cloning::UnnecessaryClone, ctx).contains(d)
            ==> sort_views_by_position(all_rules_output(ctx)).contains(d),
        ctx.config.spec_rule_enabled("deep-wrapper"@) && rule_output(complexity::DeepWrapper, ctx).contains(d)
            ==> sort_views_by_position(all_rules_output(ctx)).contains(d),
        ctx.config.spec_rule_enabled("missing-drop-guard"@) && rule_output(drop::MissingDropGuard, ctx).contains(d)
            ==> sort_views_by_position(all_rules_output(ctx)).contains(d),
        ctx.config.spec_rule_enabled("dead-test-helper"@) && rule_output(dead_code::DeadTestHelper, ctx).contains(d)
            ==> sort_views_by_position(all_rules_output(ctx)).contains(d),
{
    lemma_all_rules_contain(ctx, d);
}

fn run_if_enabled<R: Rule>(rule: &R, ctx: &RuleContext, out: &mut Vec<Diagnostic>)
    requires
        ctx.wf(),
    ensures
        views(final(out)@) == views(old(out)@) + enabled_output(*rule, *ctx),
{
    let ghost before = views(out@);
    if ctx.config.rule_enabled(rule.config_key()) {
        let mut r = run_rule(rule, ctx);
        let ghost rv = views(r@);
        let ghost ov = out@;
        out.append(&mut r);
        proof { assert(views(out@) =~= before + rv); }
    } else {
        proof { assert(views(out@) =~= before + Seq::<DiagnosticView>::empty()); }
    }
}

/// Runs every registered rule that the configuration enables over a file and sorts the
/// findings by position.
pub fn run_all_rules(ctx: &RuleContext) -> (r: Vec<Diagnostic>)
    requires
        ctx.wf(),
    ensures
        views(r@) == sort_views_by_position(all_rules_output(*ctx)),
        positions_sorted(r@),
{
    let mut diagnostics: Vec<Diagnostic> = Vec::new();
    proof { assert(views(diagnostics@) =~= Seq::<DiagnosticView>::empty()); }
    run_if_enabled(&assertions::AssertMsg, ctx, &mut diagnostics);
    run_if_enabled(&assertions::MaxExpects, ctx, &mut diagnostics);
    run_if_enabled(&sleep::SleepyTest, ctx, &mut diagnostics);
    run_if_enabled(&flow::TestBranching, ctx, &mut diagnostics);
    run_if_enabled(&nextest::StaticMut, ctx, &mut diagnostics);
    run_if_enabled(&nextest::EnvSetVar, ctx, &mut diagnostics);
    run_if_enabled(&async_safety::AsyncBlocking, ctx, &mut diagnostics);
    run_if_enabled(&structure::NestedMod, ctx, &mut diagnostics);
    run_if_enabled(&cloning::UnnecessaryClone, ctx, &mut diagnostics);
    run_if_enabled(&complexity::DeepWrapper, ctx, &mut diagnostics);
    run_if_enabled(&drop::MissingDropGuard, ctx, &mut diagnostics);
    run_if_enabled(&dead_code::DeadTestHelper, ctx, &mut diagnostics);
    let ghost unsorted = diagnostics@;
    proof { assert(views(unsorted) =~= all_rules_output(*ctx)); }
    Diagnostic::sort_by_position(&mut diagnostics);
    proof {
        lemma_sort_views(unsorted);
        law_sort_by_position_sorts(unsorted);
    }
    diagnostics
}

/// Runs one rule over a snippet of source with the given configuration, naming the file
/// `test.rs`. `None` only where a row or column of the tree cannot be counted from 1 in a
/// `usize` no wider than `u32`.
pub fn test_rule_with_config<R: Rule>(rule: &R, source: &str, config: Config) -> (r: Option<Vec<Diagnostic>>)
    ensures
        r matches Some(v) ==> exists|ctx: RuleContext|
            #![trigger rule_output(*rule, ctx)]
            {
                &&& ctx.wf()
                &&& ctx.source@ == source.spec_bytes()
                &&& ctx.config == config
                &&& ctx.file_path@ == "test.rs"@
                &&& views(v@) == rule_output(*rule, ctx)
            },
        u32::MAX < usize::MAX ==> r is Some,
{
    let bytes = source.as_bytes();
    let parsed = match parse_source(bytes) {
        Some(t) => t,
        None => return None,
    };
    let tree = match syntax_tree(&parsed) {
        Some(t) => t,
        None => return None,
    };
    let ctx = RuleContext { source: slice_to_vec(bytes), tree, config, file_path: String::from_str("test.rs") };
    let out = run_rule(rule, &ctx);
    proof { reveal_strlit("test.rs"); }
    Some(out)
}

/// Runs one rule over a snippet of source with the default configuration, naming the file
/// `test.rs`. `None` only where a row or column of the tree cannot be counted from 1 in a
/// `usize` no wider than `u32`.
pub fn test_rule<R: Rule>(rule: &R, source: &str) -> (r: Option<Vec<Diagnostic>>)
    ensures
        r matches Some(v) ==> exists|ctx: RuleContext|
            #![trigger rule_output(*rule, ctx)]
            {
                &&& ctx.wf()
                &&& ctx.source@ == source.spec_bytes()
                &&& ctx.config.is_default()
                &&& ctx.file_path@ == "test.rs"@
                &&& views(v@) == rule_output(*rule, ctx)
            },
        u32::MAX < usize::MAX ==> r is Some,
{
    test_rule_with_config(rule, source, Config::default())
}

} // verus!
