//! Test code of other languages embedded in string literals.

use crate::lint::diagnostics::{views, Diagnostic, DiagnosticLevel, DiagnosticView};
use crate::lint::rules::test_context::{is_in_test_function, spec_is_in_test_function};
use crate::lint::rules::{finding, finding_at, text_of, Rule, RuleContext};
use crate::text::{chars_contain, chars_of, contains_seq, dec, push_all, push_str, str_eq, string_from_chars, u64_to_dec};
use vstd::prelude::*;

verus! {

/// Flags long string literals in test code that hold tests of other languages.
pub struct StringLiteralCorpus;

/// A text shows signs of embedded test code: pytest, Jest or Vitest idioms.
pub open spec fn has_test_signal(t: Seq<char>) -> bool {
    ||| contains_seq(t, "def test_"@)
    ||| contains_seq(t, "it('"@)
    ||| contains_seq(t, "it(\""@)
    ||| contains_seq(t, "describe('"@)
    ||| contains_seq(t, "describe(\""@)
    ||| contains_seq(t, "expect("@)
    ||| contains_seq(t, "import pytest"@)
    ||| contains_seq(t, "from pytest"@)
    ||| contains_seq(t, "from vitest"@)
    ||| contains_seq(t, "import vitest"@)
}

fn contains_str(t: &Vec<char>, p: &str) -> (r: bool)
    ensures
        r == contains_seq(t@, p@),
{
    let pc = chars_of(p);
    chars_contain(t.as_slice(), pc.as_slice())
}

fn has_test_signal_exec(t: &str) -> (r: bool)
    ensures
        r == has_test_signal(t@),
{
    let tc = chars_of(t);
    contains_str(&tc, "def test_") || contains_str(&tc, "it('") || contains_str(&tc, "it(\"")
        || contains_str(&tc, "describe('") || contains_str(&tc, "describe(\"") || contains_str(&tc, "expect(")
        || contains_str(&tc, "import pytest") || contains_str(&tc, "from pytest") || contains_str(&tc, "from vitest")
        || contains_str(&tc, "import vitest")
}

/// The byte length of a text.
pub open spec fn byte_len(t: Seq<char>) -> nat {
    vstd::utf8::encode_utf8(t).len()
}

/// The message for a literal of `n` bytes.
pub open spec fn corpus_message(n: nat) -> Seq<char> {
    "test corpus code embedded in string literal ("@ + dec(n) + " chars) — extract to fixture file"@
}

impl Rule for StringLiteralCorpus {
    open spec fn spec_id(&self) -> Seq<char> {
        "CTL_STRING_CORPUS"@
    }

    open spec fn spec_config_key(&self) -> Seq<char> {
        "string-literal-corpus"@
    }

    open spec fn spec_default_level(&self) -> DiagnosticLevel {
        DiagnosticLevel::Warn
    }

    open spec fn spec_findings_at(&self, ctx: RuleContext, i: int) -> Seq<DiagnosticView> {
        if (ctx.kind(i) == "string_literal"@ || ctx.kind(i) == "raw_string_literal"@) && ctx.node(i).named
            && byte_len(ctx.text(i)) >= 40 && has_test_signal(ctx.text(i)) && spec_is_in_test_function(ctx, i) {
            seq![finding_at("CTL_STRING_CORPUS"@, DiagnosticLevel::Warn, corpus_message(byte_len(ctx.text(i))), ctx.file_path@, ctx.node(i))]
        } else {
            Seq::empty()
        }
    }

    fn id(&self) -> (r: &'static str) {
        "CTL_STRING_CORPUS"
    }

    fn config_key(&self) -> (r: &'static str) {
        "string-literal-corpus"
    }

    open spec fn spec_description(&self) -> Seq<char> {
        "test corpus code embedded in string literal"@
    }

    fn description(&self) -> (r: &'static str) {
        "test corpus code embedded in string literal"
    }

    fn default_level(&self) -> (r: DiagnosticLevel) {
        DiagnosticLevel::Warn
    }

    fn findings_at(&self, ctx: &RuleContext, i: usize) -> (r: Vec<Diagnostic>) {
        let mut out: Vec<Diagnostic> = Vec::new();
        let k = ctx.tree.nodes[i].kind.as_str();
        if (str_eq(k, "string_literal") || str_eq(k, "raw_string_literal")) && ctx.tree.nodes[i].named {
            let t = text_of(ctx, i);
            let source_len = ctx.source.len();
            proof {
                crate::lint::rules::lemma_text_bytes(ctx.source@, ctx.node(i as int));
                assert(ctx.source@.len() <= usize::MAX);
            }
            let n = t.as_str().len();
            proof { assert(n as nat == byte_len(ctx.text(i as int))); }
            if n >= 40 && has_test_signal_exec(t.as_str()) && is_in_test_function(ctx, i) {
                let mut msg: Vec<char> = Vec::new();
                push_str(&mut msg, "test corpus code embedded in string literal (");
                let digits = u64_to_dec(n as u64);
                push_all(&mut msg, digits.as_slice());
                push_str(&mut msg, " chars) — extract to fixture file");
                proof { assert(msg@ =~= corpus_message(byte_len(ctx.text(i as int)))); }
                let d = finding(ctx, i, "CTL_STRING_CORPUS", DiagnosticLevel::Warn, string_from_chars(msg.as_slice()));
                out.push(d);
                proof { assert(views(out@) =~= seq![d@]); }
                return out;
            }
        }
        proof { assert(views(out@) =~= Seq::<DiagnosticView>::empty()); }
        out
    }
}

} // verus!
