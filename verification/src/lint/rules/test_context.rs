//! Whether a node lies in test code: in a function marked as a test, or in a module compiled
//! only for tests.

use crate::lint::rules::{text_of, RuleContext};
use crate::lint::syntax::prev_named_sibling;
use crate::text::{chars_contain, chars_of, contains_seq, str_eq};
use vstd::prelude::*;

verus! {

/// The attributes that mark a test function: `#[test]`, `#[tokio::test]` or
/// `#[async_std::test]`, with arguments and spacing allowed.
pub const TEST_ATTR_PATTERN: &'static str = r"#\s*\[\s*(?:tokio::test|async_std::test|test)(?:\s*\([^)]*\))?\s*\]";

/// The attributes that compile an item only for tests: a `cfg` that mentions `test`.
pub const CFG_TEST_PATTERN: &'static str = r"#\s*\[\s*cfg\s*\(\s*[^)]*test[^)]*\)\s*\]";

/// What `Regex::new(pattern)` and `Regex::is_match(text)` give together: nothing when the
/// pattern does not compile, otherwise whether some part of `text` matches it.
pub uninterp spec fn regex_match(pattern: Seq<char>, text: Seq<char>) -> Option<bool>;

/// `regex::Regex::new` on `pattern`, then `Regex::is_match` on `text`. The result is named by
/// `regex_match`; which texts a pattern matches is not stated.
#[verifier::external_body]
fn regex_is_match(pattern: &str, text: &str) -> (r: Option<bool>)
    ensures
        r == regex_match(pattern@, text@),
{
    regex::Regex::new(pattern).ok().map(|re| re.is_match(text))
}

/// How an attribute's text is judged to mark test code.
#[derive(Debug, Clone, Copy, PartialEq, Eq, Structural)]
pub enum AttrCheck {
    /// Matches `TEST_ATTR_PATTERN`.
    TestPattern,
    /// Matches `CFG_TEST_PATTERN`.
    CfgPattern,
    /// Contains `#[test]`, `#[tokio::test]` or `#[async_std::test]`.
    TestText,
    /// Contains `#[cfg(test)]`.
    CfgText,
}

/// Whether an attribute's text marks test code, as `check` judges it.
pub open spec fn attr_marks(check: AttrCheck, text: Seq<char>) -> bool {
    match check {
        AttrCheck::TestPattern => regex_match(TEST_ATTR_PATTERN@, text) == Some(true),
        AttrCheck::CfgPattern => regex_match(CFG_TEST_PATTERN@, text) == Some(true),
        AttrCheck::TestText => contains_seq(text, "#[test]"@) || contains_seq(text, "#[tokio::test]"@)
            || contains_seq(text, "#[async_std::test]"@),
        AttrCheck::CfgText => contains_seq(text, "#[cfg(test)]"@),
    }
}

fn attr_marks_exec(check: AttrCheck, text: &str) -> (r: bool)
    ensures
        r == attr_marks(check, text@),
{
    match check {
        AttrCheck::TestPattern => regex_is_match(TEST_ATTR_PATTERN, text) == Some(true),
        AttrCheck::CfgPattern => regex_is_match(CFG_TEST_PATTERN, text) == Some(true),
        AttrCheck::TestText => {
            let t = chars_of(text);
            let a = chars_of("#[test]");
            let b = chars_of("#[tokio::test]");
            let c = chars_of("#[async_std::test]");
            chars_contain(t.as_slice(), a.as_slice()) || chars_contain(t.as_slice(), b.as_slice())
                || chars_contain(t.as_slice(), c.as_slice())
        },
        AttrCheck::CfgText => {
            let t = chars_of(text);
            let a = chars_of("#[cfg(test)]");
            chars_contain(t.as_slice(), a.as_slice())
        },
    }
}

/// Among the attribute items that run back from node `a` over named siblings, one marks test
/// code.
pub open spec fn attrs_mark_from(ctx: RuleContext, a: int, check: AttrCheck) -> bool
    decreases a,
{
    if 0 <= a < ctx.size() && ctx.kind(a) == "attribute_item"@ {
        attr_marks(check, ctx.text(a)) || match prev_named_sibling(ctx.tree, a) {
            Some(b) => if 0 <= b < a { attrs_mark_from(ctx, b, check) } else { false },
            None => false,
        }
    } else {
        false
    }
}

/// The attribute items just before node `i` mark it as test code.
pub open spec fn has_marking_attr(ctx: RuleContext, i: int, check: AttrCheck) -> bool {
    match prev_named_sibling(ctx.tree, i) {
        Some(a) => attrs_mark_from(ctx, a, check),
        None => false,
    }
}

/// Whether the attribute items just before node `i` mark it as test code.
pub fn has_marking_attr_exec(ctx: &RuleContext, i: usize, check: AttrCheck) -> (r: bool)
    requires
        i < ctx.tree.nodes@.len(),
    ensures
        r == has_marking_attr(*ctx, i as int, check),
{
    let mut sibling = ctx.tree.prev_named_sibling(i);
    loop
        invariant
            i < ctx.tree.nodes@.len(),
            has_marking_attr(*ctx, i as int, check) == match sibling {
                Some(a) => attrs_mark_from(*ctx, a as int, check),
                None => false,
            },
            sibling matches Some(a) ==> a < ctx.tree.nodes@.len(),
        decreases match sibling { Some(a) => a + 1, None => 0 },
    {
        match sibling {
            None => return false,
            Some(a) => {
                let kind_ok = str_eq(ctx.tree.nodes[a].kind.as_str(), "attribute_item");
                if !kind_ok {
                    return false;
                }
                let text = text_of(ctx, a);
                if attr_marks_exec(check, text.as_str()) {
                    return true;
                }
                let next = ctx.tree.prev_named_sibling(a);
                match next {
                    Some(b) => {
                        if b >= a {
                            return false;
                        }
                    },
                    None => {},
                }
                sibling = next;
            },
        }
    }
}

/// Walking up from node `p` (inclusive), a test function or a test-only module comes before
/// the file's root (or, when `stop_at_error`, an `ERROR` node).
pub open spec fn test_context_from(ctx: RuleContext, p: Option<usize>, fn_check: AttrCheck, mod_check: AttrCheck, stop_at_error: bool) -> bool
    decreases match p { Some(q) => q + 1, None => 0 },
{
    match p {
        None => false,
        Some(q) => if q < ctx.size() {
            let k = ctx.kind(q as int);
            if (k == "function_item"@ || k == "function_signature"@) && has_marking_attr(ctx, q as int, fn_check) {
                true
            } else if k == "mod_item"@ && has_marking_attr(ctx, q as int, mod_check) {
                true
            } else if k == "source_file"@ || (stop_at_error && k == "ERROR"@) {
                false
            } else {
                match ctx.node(q as int).parent {
                    Some(r) => if r < q { test_context_from(ctx, Some(r), fn_check, mod_check, stop_at_error) } else { false },
                    None => false,
                }
            }
        } else {
            false
        },
    }
}

/// Whether node `i` lies inside test code, looking at its ancestors.
pub fn in_test_context(ctx: &RuleContext, i: usize, fn_check: AttrCheck, mod_check: AttrCheck, stop_at_error: bool) -> (r: bool)
    requires
        i < ctx.tree.nodes@.len(),
    ensures
        r == test_context_from(*ctx, ctx.node(i as int).parent, fn_check, mod_check, stop_at_error),
{
    let mut current = ctx.tree.nodes[i].parent;
    loop
        invariant
            test_context_from(*ctx, ctx.node(i as int).parent, fn_check, mod_check, stop_at_error)
                == test_context_from(*ctx, current, fn_check, mod_check, stop_at_error),
        decreases match current { Some(q) => q + 1, None => 0 },
    {
        match current {
            None => return false,
            Some(q) => {
                if q >= ctx.tree.nodes.len() {
                    return false;
                }
                let k = ctx.tree.nodes[q].kind.as_str();
                let is_fn = str_eq(k, "function_item") || str_eq(k, "function_signature");
                if is_fn && has_marking_attr_exec(ctx, q, fn_check) {
                    return true;
                }
                if str_eq(k, "mod_item") && has_marking_attr_exec(ctx, q, mod_check) {
                    return true;
                }
                if str_eq(k, "source_file") || (stop_at_error && str_eq(k, "ERROR")) {
                    return false;
                }
                match ctx.tree.nodes[q].parent {
                    Some(r) => {
                        if r >= q {
                            return false;
                        }
                        current = Some(r);
                    },
                    None => return false,
                }
            },
        }
    }
}

/// Node `i` lies in test code: some ancestor is a function with a test attribute, or a module
/// with a `cfg` attribute that mentions `test`, below the file's root and any `ERROR` node.
pub open spec fn spec_is_in_test_function(ctx: RuleContext, i: int) -> bool {
    test_context_from(ctx, ctx.node(i).parent, AttrCheck::TestPattern, AttrCheck::CfgPattern, true)
}

/// Whether node `i` lies in test code.
pub fn is_in_test_function(ctx: &RuleContext, i: usize) -> (r: bool)
    requires
        i < ctx.tree.nodes@.len(),
    ensures
        r == spec_is_in_test_function(*ctx, i as int),
{
    in_test_context(ctx, i, AttrCheck::TestPattern, AttrCheck::CfgPattern, true)
}

} // verus!
