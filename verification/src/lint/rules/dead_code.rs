//! Helpers defined in a test module that nothing in it uses.

use crate::lint::diagnostics::{views, Diagnostic, DiagnosticLevel, DiagnosticView};
use crate::lint::rules::{finding, finding_at, text_of, Rule, RuleContext};
use crate::lint::syntax::{field_child, prev_sibling};
use crate::text::{chars_contain, chars_of, contains_seq, push_str, str_eq, string_from_chars};
use vstd::prelude::*;

verus! {

/// Flags a function or type of a test module that the module never refers to.
pub struct DeadTestHelper;

/// The kinds of items that define a helper.
pub open spec fn is_def_kind(k: Seq<char>) -> bool {
    k == "function_item"@ || k == "struct_item"@ || k == "enum_item"@ || k == "type_item"@ || k == "trait_item"@
}

fn is_def_kind_exec(k: &str) -> (r: bool)
    ensures
        r == is_def_kind(k@),
{
    str_eq(k, "function_item") || str_eq(k, "struct_item") || str_eq(k, "enum_item") || str_eq(k, "type_item")
        || str_eq(k, "trait_item")
}

/// Some child of node `i` is an attribute item whose text contains `t`.
pub open spec fn child_attr_contains(ctx: RuleContext, i: int, t: Seq<char>) -> bool {
    exists|j: int| 0 <= j < ctx.node(i).children@.len() && {
        let c = #[trigger] ctx.node(i).children@[j] as int;
        c < ctx.size() && ctx.kind(c) == "attribute_item"@ && contains_seq(ctx.text(c), t)
    }
}

fn child_attr_contains_exec(ctx: &RuleContext, i: usize, t: &str) -> (r: bool)
    requires
        i < ctx.tree.nodes@.len(),
    ensures
        r == child_attr_contains(*ctx, i as int, t@),
{
    let cs = &ctx.tree.nodes[i].children;
    let tc = chars_of(t);
    for j in 0..cs.len()
        invariant
            i < ctx.tree.nodes@.len(),
            cs@ == ctx.node(i as int).children@,
            tc@ == t@,
            forall|q: int| 0 <= q < j ==> !({
                let c = #[trigger] ctx.node(i as int).children@[q] as int;
                c < ctx.size() && ctx.kind(c) == "attribute_item"@ && contains_seq(ctx.text(c), t@)
            }),
    {
        let c = cs[j];
        if c < ctx.tree.nodes.len() && str_eq(ctx.tree.nodes[c].kind.as_str(), "attribute_item") {
            let text = text_of(ctx, c);
            let xc = chars_of(text.as_str());
            if chars_contain(xc.as_slice(), tc.as_slice()) {
                return true;
            }
        }
    }
    false
}

/// A module named `tests` or `test`, or one with a `cfg(test)` attribute among its children.
pub open spec fn is_test_module(ctx: RuleContext, i: int, name: Seq<char>) -> bool {
    name == "tests"@ || name == "test"@ || child_attr_contains(ctx, i, "cfg(test)"@)
}

/// Among the attribute items that run back from node `a` over siblings, one mentions `test`.
pub open spec fn prev_attrs_mention_test(ctx: RuleContext, a: int) -> bool
    decreases a,
{
    if 0 <= a < ctx.size() && ctx.kind(a) == "attribute_item"@ {
        contains_seq(ctx.text(a), "test"@) || match prev_sibling(ctx.tree, a) {
            Some(b) => if 0 <= b < a { prev_attrs_mention_test(ctx, b) } else { false },
            None => false,
        }
    } else {
        false
    }
}

/// An item with an attribute that mentions `test`, among its children or just before it.
pub open spec fn has_test_attr(ctx: RuleContext, c: int) -> bool {
    child_attr_contains(ctx, c, "test"@) || match prev_sibling(ctx.tree, c) {
        Some(a) => prev_attrs_mention_test(ctx, a),
        None => false,
    }
}

fn has_test_attr_exec(ctx: &RuleContext, c: usize) -> (r: bool)
    requires
        ctx.wf(),
        c < ctx.tree.nodes@.len(),
    ensures
        r == has_test_attr(*ctx, c as int),
{
    if child_attr_contains_exec(ctx, c, "test") {
        return true;
    }
    let mut prev = ctx.tree.prev_sibling(c);
    let tc = chars_of("test");
    loop
        invariant
            ctx.wf(),
            c < ctx.tree.nodes@.len(),
            tc@ == "test"@,
            !child_attr_contains(*ctx, c as int, "test"@),
            has_test_attr(*ctx, c as int) == match prev {
                Some(a) => prev_attrs_mention_test(*ctx, a as int),
                None => false,
            },
            prev matches Some(a) ==> a < ctx.tree.nodes@.len(),
        decreases match prev { Some(a) => a + 1, None => 0 },
    {
        match prev {
            None => return false,
            Some(a) => {
                if !str_eq(ctx.tree.nodes[a].kind.as_str(), "attribute_item") {
                    return false;
                }
                let text = text_of(ctx, a);
                let xc = chars_of(text.as_str());
                if chars_contain(xc.as_slice(), tc.as_slice()) {
                    return true;
                }
                let next = ctx.tree.prev_sibling(a);
                match next {
                    Some(b) => {
                        if b >= a {
                            return false;
                        }
                    },
                    None => {},
                }
                prev = next;
            },
        }
    }
}

/// The helpers defined by the first `k` children of node `b`: each named definition that has a
/// name and no test attribute, with its name.
pub open spec fn definitions(ctx: RuleContext, b: int, k: int) -> Seq<(Seq<char>, int)>
    decreases k,
{
    if !(0 <= b < ctx.size()) || k <= 0 || k > ctx.node(b).children@.len() {
        Seq::empty()
    } else {
        let prev = definitions(ctx, b, k - 1);
        let c = ctx.node(b).children@[k - 1] as int;
        if c < ctx.size() && ctx.node(c).named && is_def_kind(ctx.kind(c)) {
            match field_child(ctx.tree, c, "name"@) {
                Some(nm) => if 0 <= nm < ctx.size() && !has_test_attr(ctx, c) { prev.push((ctx.text(nm), c)) } else { prev },
                None => prev,
            }
        } else {
            prev
        }
    }
}

/// Node `j` lies below node `b`.
pub open spec fn lies_below(ctx: RuleContext, j: int, b: int) -> bool
    decreases j,
{
    if 0 <= j < ctx.size() {
        match ctx.node(j).parent {
            Some(p) => p < j && (p == b || lies_below(ctx, p as int, b)),
            None => false,
        }
    } else {
        false
    }
}

/// Node `j` is the name of the definition that is its parent.
pub open spec fn is_def_name(ctx: RuleContext, j: int) -> bool {
    match ctx.node(j).parent {
        Some(p) => p < ctx.size() && field_child(ctx.tree, p as int, "name"@) == Some(j) && is_def_kind(ctx.kind(p as int)),
        None => false,
    }
}

/// Node `j` below `b` refers to `name`: an identifier or type name with that text that does not
/// name a definition.
pub open spec fn reference_at(ctx: RuleContext, b: int, name: Seq<char>, j: int) -> bool {
    &&& lies_below(ctx, j, b)
    &&& (ctx.kind(j) == "identifier"@ || ctx.kind(j) == "type_identifier"@)
    &&& !is_def_name(ctx, j)
    &&& ctx.text(j) == name
}

/// Something below node `b` refers to `name`.
pub open spec fn referenced(ctx: RuleContext, b: int, name: Seq<char>) -> bool {
    exists|j: int| 0 <= j < ctx.size() && #[trigger] reference_at(ctx, b, name, j)
}

fn lies_below_exec(ctx: &RuleContext, j: usize, b: usize) -> (r: bool)
    requires
        j < ctx.tree.nodes@.len(),
    ensures
        r == lies_below(*ctx, j as int, b as int),
{
    let mut cur = j;
    loop
        invariant
            cur < ctx.tree.nodes@.len(),
            lies_below(*ctx, j as int, b as int) == lies_below(*ctx, cur as int, b as int),
        decreases cur,
    {
        match ctx.tree.nodes[cur].parent {
            Some(p) => {
                if p >= cur {
                    return false;
                }
                if p == b {
                    return true;
                }
                cur = p;
            },
            None => return false,
        }
    }
}

fn is_def_name_exec(ctx: &RuleContext, j: usize) -> (r: bool)
    requires
        j < ctx.tree.nodes@.len(),
    ensures
        r == is_def_name(*ctx, j as int),
{
    match ctx.tree.nodes[j].parent {
        Some(p) => {
            if p >= ctx.tree.nodes.len() {
                return false;
            }
            match ctx.tree.child_by_field(p, "name") {
                Some(n) => n == j && is_def_kind_exec(ctx.tree.nodes[p].kind.as_str()),
                None => false,
            }
        },
        None => false,
    }
}

fn referenced_exec(ctx: &RuleContext, b: usize, name: &str) -> (r: bool)
    ensures
        r == referenced(*ctx, b as int, name@),
{
    for j in 0..ctx.tree.nodes.len()
        invariant
            forall|q: int| 0 <= q < j ==> !#[trigger] reference_at(*ctx, b as int, name@, q),
    {
        if lies_below_exec(ctx, j, b) {
            let k = ctx.tree.nodes[j].kind.as_str();
            if (str_eq(k, "identifier") || str_eq(k, "type_identifier")) && !is_def_name_exec(ctx, j) {
                let t = text_of(ctx, j);
                if str_eq(t.as_str(), name) {
                    proof { assert(reference_at(*ctx, b as int, name@, j as int)); }
                    return true;
                }
            }
        }
    }
    false
}

/// The test module at node `i`, as the rule's pattern captures it: its name and body.
pub open spec fn module_parts(ctx: RuleContext, i: int) -> Option<(int, int)> {
    if ctx.kind(i) == "mod_item"@ {
        match (field_child(ctx.tree, i, "name"@), field_child(ctx.tree, i, "body"@)) {
            (Some(n), Some(b)) => if 0 <= n < ctx.size() && 0 <= b < ctx.size() && ctx.kind(n) == "identifier"@
                && ctx.kind(b) == "declaration_list"@ { Some((n, b)) } else { None },
            _ => None,
        }
    } else {
        None
    }
}

/// The message for an unused helper.
pub open spec fn dead_helper_message(name: Seq<char>) -> Seq<char> {
    "unused test helper `"@ + name + "` — defined but never referenced"@
}

/// The findings for the first `k` definitions of `defs`: those never referenced below `b`.
pub open spec fn unused_helpers(ctx: RuleContext, b: int, defs: Seq<(Seq<char>, int)>, k: int) -> Seq<DiagnosticView>
    decreases k,
{
    if k <= 0 || k > defs.len() {
        Seq::empty()
    } else {
        let prev = unused_helpers(ctx, b, defs, k - 1);
        let (name, c) = defs[k - 1];
        if referenced(ctx, b, name) {
            prev
        } else {
            prev.push(finding_at("CTL_DEAD_TEST_HELPER"@, DiagnosticLevel::Warn, dead_helper_message(name), ctx.file_path@, ctx.node(c)))
        }
    }
}

impl Rule for DeadTestHelper {
    open spec fn spec_id(&self) -> Seq<char> {
        "CTL_DEAD_TEST_HELPER"@
    }

    open spec fn spec_config_key(&self) -> Seq<char> {
        "dead-test-helper"@
    }

    open spec fn spec_default_level(&self) -> DiagnosticLevel {
        DiagnosticLevel::Warn
    }

    open spec fn spec_findings_at(&self, ctx: RuleContext, i: int) -> Seq<DiagnosticView> {
        match module_parts(ctx, i) {
            Some((n, b)) => if is_test_module(ctx, i, ctx.text(n)) {
                let defs = definitions(ctx, b, ctx.node(b).children@.len() as int);
                unused_helpers(ctx, b, defs, defs.len() as int)
            } else {
                Seq::empty()
            },
            None => Seq::empty(),
        }
    }

    fn id(&self) -> (r: &'static str) {
        "CTL_DEAD_TEST_HELPER"
    }

    fn config_key(&self) -> (r: &'static str) {
        "dead-test-helper"
    }

    open spec fn spec_description(&self) -> Seq<char> {
        "unused test helper"@
    }

    fn description(&self) -> (r: &'static str) {
        "unused test helper"
    }

    fn default_level(&self) -> (r: DiagnosticLevel) {
        DiagnosticLevel::Warn
    }

    fn findings_at(&self, ctx: &RuleContext, i: usize) -> (r: Vec<Diagnostic>) {
        let mut out: Vec<Diagnostic> = Vec::new();
        proof { assert(views(out@) =~= Seq::<DiagnosticView>::empty()); }
        if !str_eq(ctx.tree.nodes[i].kind.as_str(), "mod_item") {
            return out;
        }
        let (n, b) = match (ctx.tree.child_by_field(i, "name"), ctx.tree.child_by_field(i, "body")) {
            (Some(n), Some(b)) => (n, b),
            _ => return out,
        };
        if !(str_eq(ctx.tree.nodes[n].kind.as_str(), "identifier") && str_eq(ctx.tree.nodes[b].kind.as_str(), "declaration_list")) {
            return out;
        }
        let name = text_of(ctx, n);
        let is_test = str_eq(name.as_str(), "tests") || str_eq(name.as_str(), "test") || child_attr_contains_exec(ctx, i, "cfg(test)");
        if !is_test {
            return out;
        }
        let mut defs: Vec<(String, usize)> = Vec::new();
        let m = ctx.tree.nodes[b].children.len();
        for k in 0..m
            invariant
                ctx.wf(),
                b < ctx.tree.nodes@.len(),
                m == ctx.node(b as int).children@.len(),
                defs@.map_values(|d: (String, usize)| (d.0@, d.1 as int)) == definitions(*ctx, b as int, k as int),
                forall|q: int| 0 <= q < defs@.len() ==> (#[trigger] defs@[q]).1 < ctx.tree.nodes@.len(),
        {
            let c = ctx.tree.nodes[b].children[k];
            let ghost before = defs@;
            if c < ctx.tree.nodes.len() && ctx.tree.nodes[c].named && is_def_kind_exec(ctx.tree.nodes[c].kind.as_str()) {
                match ctx.tree.child_by_field(c, "name") {
                    Some(nm) => {
                        if !has_test_attr_exec(ctx, c) {
                            let t = text_of(ctx, nm);
                            defs.push((t, c));
                            proof {
                                assert(defs@.map_values(|d: (String, usize)| (d.0@, d.1 as int)) =~= before.map_values(|d: (String, usize)| (d.0@, d.1 as int)).push((ctx.text(nm as int), c as int)));
                            }
                        }
                    },
                    None => {},
                }
            }
        }
        let ghost dm = defs@.map_values(|d: (String, usize)| (d.0@, d.1 as int));
        for k in 0..defs.len()
            invariant
                ctx.wf(),
                dm == defs@.map_values(|d: (String, usize)| (d.0@, d.1 as int)),
                forall|q: int| 0 <= q < defs@.len() ==> (#[trigger] defs@[q]).1 < ctx.tree.nodes@.len(),
                views(out@) == unused_helpers(*ctx, b as int, dm, k as int),
        {
            let ghost before = views(out@);
            proof { assert(dm[k as int] == (defs@[k as int].0@, defs@[k as int].1 as int)); }
            if !referenced_exec(ctx, b, defs[k].0.as_str()) {
                let mut msg: Vec<char> = Vec::new();
                push_str(&mut msg, "unused test helper `");
                push_str(&mut msg, defs[k].0.as_str());
                push_str(&mut msg, "` — defined but never referenced");
                proof { assert(msg@ =~= dead_helper_message(dm[k as int].0)); }
                let d = finding(ctx, defs[k].1, "CTL_DEAD_TEST_HELPER", DiagnosticLevel::Warn, string_from_chars(msg.as_slice()));
                out.push(d);
                proof { assert(views(out@) =~= before.push(d@)); }
            }
        }
        out
    }
}

} // verus!
