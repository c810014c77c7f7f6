use cargo_test_lint::lint::config::Config;
use cargo_test_lint::lint::diagnostics::{Diagnostic, DiagnosticLevel};
use cargo_test_lint::lint::rules::assertions::{AssertMsg, MaxExpects};
use cargo_test_lint::lint::rules::cloning::UnnecessaryClone;
use cargo_test_lint::lint::rules::sleep::SleepyTest;
use cargo_test_lint::lint::rules::structure::NestedMod;
use cargo_test_lint::lint::rules::async_safety::AsyncBlocking;
use cargo_test_lint::lint::rules::complexity::DeepWrapper;
use cargo_test_lint::lint::rules::dead_code::DeadTestHelper;
use cargo_test_lint::lint::rules::drop::MissingDropGuard;
use cargo_test_lint::lint::rules::flow::TestBranching;
use cargo_test_lint::lint::rules::fsio::FsIoInTest;
use cargo_test_lint::lint::rules::nextest::{EnvSetVar, StaticMut};
use cargo_test_lint::lint::rules::semantic::StringLiteralCorpus;
use cargo_test_lint::lint::rules::{run_rule, test_rule, test_rule_with_config, Rule, RuleContext};
use cargo_test_lint::lint::syntax::syntax_tree;
use cargo_test_lint::lint::syntax::parse_source;

fn run<R: Rule>(rule: &R, source: &str) -> Vec<Diagnostic> {
    test_rule(rule, source).expect("the snippet should parse")
}

#[test]
fn parse_source_returns_tree() {
    let source = b"fn main() {}";
    let tree = parse_source(source);
    assert!(tree.is_some(), "valid source should parse to a tree");
    let tree = tree.unwrap();
    assert_eq!(tree.root_node().kind(), "source_file", "root node should be source_file");
}

#[test]
fn parse_source_returns_tree_even_for_invalid() {
    let source = b"fn main() {";
    let tree = parse_source(source);
    assert!(tree.is_some(), "tree-sitter should return a tree even for invalid input");
}

#[test]
fn if_in_test_flagged() {
    let source = r#"
#[test]
fn test_foo() {
    if true {
        assert!(true);
    }
}
"#;
    let diags = run(&TestBranching, source);
    assert_eq!(diags.len(), 1, "if in test should produce exactly 1 diagnostic");
    assert_eq!(diags[0].rule_id, "CTL_TEST_BRANCHING", "diagnostic should be CTL_TEST_BRANCHING");
}

#[test]
fn match_in_test_flagged() {
    let source = r#"
#[test]
fn test_foo() {
    match 42 {
        _ => assert!(true),
    }
}
"#;
    let diags = run(&TestBranching, source);
    assert_eq!(diags.len(), 1, "match in test should produce exactly 1 diagnostic");
}

#[test]
fn no_branching_passes() {
    let source = r#"
#[test]
fn test_foo() {
    let x = 42;
    assert_eq!(x, 42);
}
"#;
    let diags = run(&TestBranching, source);
    assert_eq!(diags.len(), 0, "test without branching should produce no diagnostics");
}

#[test]
fn non_test_function_ignored() {
    let source = r#"
fn helper() {
    if true {
        println!("ok");
    }
}
"#;
    let diags = run(&TestBranching, source);
    assert_eq!(diags.len(), 0, "non-test functions should not be flagged");
}

#[test]
fn branching_finding_points_at_the_if() {
    let source = "#[test]\nfn test_foo() {\n    if true { assert!(true); }\n}\n";
    let diags = run(&TestBranching, source);
    assert_eq!(diags.len(), 1);
    assert_eq!(diags[0].file_path, "test.rs");
    assert_eq!((diags[0].line, diags[0].column), (3, 5));
    assert_eq!(diags[0].level, DiagnosticLevel::Warn);
}

#[test]
fn static_mut_flagged() {
    let source = r#"
static mut COUNTER: u32 = 0;

#[test]
fn test_foo() {
    unsafe { COUNTER += 1; }
}
"#;
    let diags = run(&StaticMut, source);
    assert_eq!(diags.len(), 1);
    assert_eq!(diags[0].rule_id, "CTL_STATIC_MUT");
}

#[test]
fn static_const_not_flagged() {
    let source = r#"
const VALUE: u32 = 42;

#[test]
fn test_foo() {
    assert_eq!(VALUE, 42);
}
"#;
    let diags = run(&StaticMut, source);
    assert_eq!(diags.len(), 0);
}

#[test]
fn env_set_var_flagged() {
    let source = r#"
#[test]
fn test_foo() {
    std::env::set_var("MY_VAR", "value");
}
"#;
    let diags = run(&EnvSetVar, source);
    assert_eq!(diags.len(), 1);
    assert_eq!(diags[0].rule_id, "CTL_ENV_SET_VAR");
}

#[test]
fn env_var_not_flagged() {
    let source = r#"
#[test]
fn test_foo() {
    let _ = std::env::var("HOME");
}
"#;
    let diags = run(&EnvSetVar, source);
    assert_eq!(diags.len(), 0);
}

#[test]
fn simple_type_passes() {
    let source = r#"type MyType = Vec<u32>;"#;
    assert_eq!(run(&DeepWrapper, source).len(), 0, "simple type should produce no diagnostics");
}

#[test]
fn deeply_nested_type_flagged() {
    let source = r#"type MyType = Arc<Mutex<Option<HashMap<String, Vec<u32>>>>>;"#;
    let diags = run(&DeepWrapper, source);
    assert_eq!(diags.len(), 1, "deeply nested type should produce exactly 1 diagnostic");
    assert!(diags[0].message.contains("levels"), "message should mention nesting levels");
}

#[test]
fn moderate_nesting_passes() {
    let source = r#"type MyType = Arc<Mutex<u32>>;"#;
    assert_eq!(run(&DeepWrapper, source).len(), 0, "moderate nesting should produce no diagnostics");
}

#[test]
fn unbound_file_create_flagged() {
    let source = r#"#[test] fn test_foo() { File::create("test.txt"); }"#;
    let diags = run(&MissingDropGuard, source);
    assert_eq!(diags.len(), 1);
    assert!(diags[0].message.contains("File::create"));
}

#[test]
fn bound_file_create_passes() {
    let source = r#"#[test] fn test_foo() { let f = File::create("test.txt"); }"#;
    assert_eq!(run(&MissingDropGuard, source).len(), 0);
}

#[test]
fn bound_with_unwrap_passes() {
    let source = r#"#[test] fn test_foo() { let dir = TempDir::new().unwrap(); }"#;
    assert_eq!(run(&MissingDropGuard, source).len(), 0);
}

#[test]
fn bound_with_question_mark_passes() {
    let source = r#"#[test] fn test_foo() -> Result<(), Error> { let dir = TempDir::new()?; Ok(()) }"#;
    assert_eq!(run(&MissingDropGuard, source).len(), 0);
}

#[test]
fn bound_with_method_chain_passes() {
    let source =
        r#"#[test] fn test_foo() { let file = tempfile::NamedTempFile::new().unwrap().path().to_path_buf(); }"#;
    assert_eq!(run(&MissingDropGuard, source).len(), 0);
}

#[test]
fn unbound_tempdir_flagged() {
    let source = r#"#[test] fn test_foo() { TempDir::new(); }"#;
    let diags = run(&MissingDropGuard, source);
    assert_eq!(diags.len(), 1);
}

#[test]
fn tempfile_tempdir_recognized() {
    let source = r#"#[test] fn test_foo() { let dir = tempfile::tempdir(); }"#;
    assert_eq!(run(&MissingDropGuard, source).len(), 0);
}

#[test]
fn unbound_tempfile_tempdir_flagged() {
    let source = r#"#[test] fn test_foo() { tempfile::tempdir(); }"#;
    let diags = run(&MissingDropGuard, source);
    assert_eq!(diags.len(), 1);
}

#[test]
fn non_resource_call_ignored() {
    let source = r#"#[test] fn test_foo() { println!("hello"); }"#;
    assert_eq!(run(&MissingDropGuard, source).len(), 0);
}

#[test]
fn tcp_listener_without_binding_flagged() {
    let source = r#"#[test] fn test_foo() { TcpListener::bind("127.0.0.1:0"); }"#;
    assert_eq!(run(&MissingDropGuard, source).len(), 1);
}

#[test]
fn wildcard_let_flagged() {
    let source = r#"#[test] fn test_foo() { let _ = TempDir::new().unwrap(); }"#;
    let diags = run(&MissingDropGuard, source);
    assert_eq!(diags.len(), 1);
}

#[test]
fn passed_as_argument_not_let_bound_still_flagged() {
    let source = r#"#[test] fn test_foo() { write_file(File::create("test.txt")); }"#;
    assert_eq!(run(&MissingDropGuard, source).len(), 1);
}

#[test]
fn let_bound_then_passed_ok() {
    let source = r#"#[test] fn test_foo() { let f = File::create("test.txt"); write_file(f); }"#;
    assert_eq!(run(&MissingDropGuard, source).len(), 0);
}

#[test]
fn unused_function_flagged() {
    let source = r#"#[cfg(test)] mod tests { fn helper() -> u32 { 42 } #[test] fn test_foo() { assert_eq!(1, 1); } }"#;
    let diags = run(&DeadTestHelper, source);
    assert_eq!(diags.len(), 1, "unused function should produce exactly 1 diagnostic");
    assert!(diags[0].message.contains("helper"), "message should reference unused function name");
}

#[test]
fn used_function_passes() {
    let source =
        r#"#[cfg(test)] mod tests { fn helper() -> u32 { 42 } #[test] fn test_foo() { assert_eq!(helper(), 42); } }"#;
    assert_eq!(run(&DeadTestHelper, source).len(), 0, "used function should produce no diagnostics");
}

#[test]
fn unused_struct_flagged() {
    let source =
        r#"#[cfg(test)] mod tests { struct TestData { value: u32 } #[test] fn test_foo() { assert_eq!(1, 1); } }"#;
    let diags = run(&DeadTestHelper, source);
    assert_eq!(diags.len(), 1, "unused struct should produce exactly 1 diagnostic");
    assert!(diags[0].message.contains("TestData"), "message should reference unused struct name");
}

#[test]
fn non_test_module_ignored() {
    let source = r#"mod helpers { fn unused() {} }"#;
    assert_eq!(run(&DeadTestHelper, source).len(), 0, "non-test module should be ignored");
}

#[test]
fn multiple_unused_flagged() {
    let source = r#"#[cfg(test)] mod tests { fn helper_a() {} fn helper_b() {} #[test] fn test_foo() { assert_eq!(1, 1); } }"#;
    assert_eq!(run(&DeadTestHelper, source).len(), 2, "two unused helpers should produce 2 diagnostics");
}

#[test]
fn sleep_in_tokio_test_flagged() {
    let source = r#"
#[tokio::test]
async fn test_foo() {
    std::thread::sleep(std::time::Duration::from_secs(1));
}
"#;
    let diags = run(&AsyncBlocking, source);
    assert_eq!(diags.len(), 1, "blocking sleep in tokio test should produce exactly 1 diagnostic");
    assert_eq!(diags[0].rule_id, "CTL_ASYNC_BLOCKING", "diagnostic should be CTL_ASYNC_BLOCKING");
}

#[test]
fn async_code_passes() {
    let source = r#"
#[tokio::test]
async fn test_foo() {
    tokio::time::sleep(std::time::Duration::from_secs(1)).await;
}
"#;
    let diags = run(&AsyncBlocking, source);
    assert_eq!(diags.len(), 0, "async code should produce no diagnostics");
}

#[test]
fn non_async_test_ignored() {
    let source = r#"
#[test]
fn test_foo() {
    std::thread::sleep(std::time::Duration::from_secs(1));
}
"#;
    let diags = run(&AsyncBlocking, source);
    assert_eq!(diags.len(), 0, "non-async tests should not be flagged");
}

#[test]
fn fs_write_in_test_flagged() {
    let source = r#"
#[test]
fn test_writes() {
    let dir = tempfile::tempdir().unwrap();
    std::fs::write(dir.path().join("a"), "data").unwrap();
}
"#;
    let diags = run(&FsIoInTest, source);
    assert!(!diags.is_empty());
    assert!(diags[0].message.contains("write"));
}

#[test]
fn fs_write_in_prod_ignored() {
    let source = r#"
pub fn save(data: &[u8]) {
    std::fs::write("output.txt", data).unwrap();
}
"#;
    let diags = run(&FsIoInTest, source);
    assert!(diags.is_empty());
}

#[test]
fn short_form_fs_in_test_flagged() {
    let source = r#"
#[test]
fn test_reads() {
    let s = fs::read_to_string("file.txt").unwrap();
}
"#;
    let diags = run(&FsIoInTest, source);
    assert!(!diags.is_empty());
}

#[test]
fn non_fs_call_ignored() {
    let source = r#"
#[test]
fn test_math() {
    std::process::Command::new("ls").output().unwrap();
}
"#;
    let diags = run(&FsIoInTest, source);
    assert!(diags.is_empty());
}

#[test]
fn embedded_python_test_code_flagged() {
    let source = r##"
#[cfg(test)]
mod tests {
    #[test]
    fn test_corpus() {
        let code = r#"
import pytest
from myapp import Calculator

def test_addition():
    calc = Calculator()
    assert calc.add(2, 3) == 5
"#;
        assert!(!code.is_empty());
    }
}
"##;
    let diags = run(&StringLiteralCorpus, source);
    assert!(!diags.is_empty(), "expected diagnostics for embedded python test code");
}

#[test]
fn short_string_ignored() {
    let source = r##"
#[cfg(test)]
mod tests {
    #[test]
    fn test_short() {
        let name = "hello world";
        assert_eq!(name, "hello world");
    }
}
"##;
    let diags = run(&StringLiteralCorpus, source);
    assert!(diags.is_empty(), "expected no diagnostics for short string");
}

#[test]
fn no_test_context_ignored() {
    let source = r##"
fn helper() {
    let code = r#"
import pytest
from myapp import Calculator

def test_addition():
    calc = Calculator()
    result = calc.add(2, 3)
    assert result == 5
"#;
}
"##;
    let diags = run(&StringLiteralCorpus, source);
    assert!(diags.is_empty(), "expected no diagnostics outside test context");
}

#[test]
fn embedded_jest_test_code_flagged() {
    let source = r##"
#[cfg(test)]
mod tests {
    #[test]
    fn test_jest_corpus() {
        let code = r#"
describe('calculator', () => {
  it('adds two numbers', () => {
    expect(add(2, 3)).toBe(5);
  });
});
"#;
        assert!(!code.is_empty());
    }
}
"##;
    let diags = run(&StringLiteralCorpus, source);
    assert!(!diags.is_empty(), "expected diagnostics for embedded jest test code");
}

fn with_config<R: Rule>(rule: &R, source: &str, config: Config) -> Vec<Diagnostic> {
    test_rule_with_config(rule, source, config).expect("the snippet should parse")
}

#[test]
fn assertions_without_message_flagged() {
    let source = "
#[test]
fn test_foo() {
    assert!(true);
    assert_eq!(1, 1);
    assert_ne!(2, 2);
}
";
    let diags = run(&AssertMsg, source);
    assert_eq!(diags.len(), 3);
    assert!(diags.iter().all(|d| d.rule_id == "CTL_ASSERT_MSG" && d.level == DiagnosticLevel::Warn));
    assert_eq!(diags.iter().map(|d| d.line).collect::<Vec<_>>(), vec![4, 5, 6]);
    assert_eq!(diags[0].message, "assertion without a context message — say what was expected");
}

#[test]
fn assertions_with_message_pass() {
    let source = r#"
#[test]
fn test_foo() {
    assert!(true, "should pass");
    assert_eq!(f(1, 2), 3, "sum of {} and {}", 1, 2);
    assert_ne!(a, b, "differ");
}
"#;
    assert!(run(&AssertMsg, source).is_empty());
}

#[test]
fn assertion_with_trailing_comma_has_no_message() {
    let source = "#[test]\nfn test_foo() { assert_eq!(1, 1,); assert!(x,); }\n";
    assert_eq!(run(&AssertMsg, source).len(), 2);
}

#[test]
fn assertion_outside_tests_ignored() {
    let source = "fn helper(x: bool) { assert!(x); debug_assert!(x); }\n";
    assert!(run(&AssertMsg, source).is_empty());
}

fn asserting_test(n: usize) -> String {
    let mut body = String::new();
    for i in 0..n {
        body.push_str(&format!("    assert_eq!({i}, {i}, \"same\");\n"));
    }
    format!("#[test]\nfn test_many() {{\n{body}}}\n")
}

#[test]
fn too_many_assertions_flagged() {
    let diags = run(&MaxExpects, &asserting_test(6));
    assert_eq!(diags.len(), 1);
    assert_eq!(diags[0].rule_id, "CTL_MAX_EXPECTS");
    assert_eq!(diags[0].message, "test has 6 assertions (max 5) — split it into focused tests");
    assert_eq!(diags[0].line, 2);
}

#[test]
fn assertions_at_the_limit_pass() {
    assert!(run(&MaxExpects, &asserting_test(5)).is_empty());
}

#[test]
fn max_expects_follows_configuration() {
    let mut strict = Config::default();
    strict.max_expects = 2;
    assert_eq!(with_config(&MaxExpects, &asserting_test(3), strict).len(), 1);
    let mut off = Config::default();
    off.max_expects = 0;
    assert!(with_config(&MaxExpects, &asserting_test(30), off).is_empty());
}

#[test]
fn deeply_nested_test_module_flagged() {
    let source = "#[cfg(test)]\nmod a {\n    mod b {\n        mod c {\n            mod d {\n                mod e {}\n            }\n        }\n    }\n}\n";
    let diags = run(&NestedMod, source);
    assert_eq!(diags.len(), 2);
    assert_eq!(diags[0].rule_id, "CTL_NESTED_MOD");
    assert_eq!(diags[0].line, 5);
    assert_eq!(diags[0].message, "test module nested 4 levels deep (max 3) — flatten the test modules");
    assert_eq!(diags[1].message, "test module nested 5 levels deep (max 3) — flatten the test modules");
}

#[test]
fn nested_production_modules_ignored() {
    let source = "mod a { mod b { mod c { mod d {} } } }\n";
    assert!(run(&NestedMod, source).is_empty());
}

#[test]
fn nested_mod_follows_configuration() {
    let source = "#[cfg(test)]\nmod a { mod b {} }\n";
    let mut strict = Config::default();
    strict.max_nested_mod = 1;
    assert_eq!(with_config(&NestedMod, source, strict).len(), 1);
    let mut off = Config::default();
    off.max_nested_mod = 0;
    assert!(with_config(&NestedMod, "#[cfg(test)]\nmod a { mod b { mod c { mod d {} } } }\n", off).is_empty());
}

#[test]
fn sleep_in_test_flagged() {
    let source = "#[test]\nfn test_wait() {\n    std::thread::sleep(d);\n    thread::sleep(d);\n    sleep(d);\n}\n";
    let diags = run(&SleepyTest, source);
    assert_eq!(diags.len(), 2);
    assert!(diags.iter().all(|d| d.rule_id == "CTL_SLEEP" && d.level == DiagnosticLevel::Forbid));
    assert_eq!(diags.iter().map(|d| d.line).collect::<Vec<_>>(), vec![3, 4]);
}

#[test]
fn sleep_outside_tests_ignored() {
    let source = "fn backoff() { std::thread::sleep(d); }\n";
    assert!(run(&SleepyTest, source).is_empty());
}

#[test]
fn sleep_reported_at_forbid_by_default() {
    let source = "#[test]\nfn test_wait() { std::thread::sleep(d); }\n";
    let parsed = parse_source(source.as_bytes()).unwrap();
    let tree = syntax_tree(&parsed).unwrap();
    let ctx = RuleContext { source: source.as_bytes().to_vec(), tree, config: Config::default(), file_path: "t.rs".to_string() };
    let diags = run_rule(&SleepyTest, &ctx);
    assert_eq!(diags.len(), 1);
    assert_eq!(diags[0].level, DiagnosticLevel::Forbid);
}

#[test]
fn clone_not_reused_flagged() {
    let source = "#[test]\nfn test_copy() {\n    let a = vec![1];\n    let b = a.clone();\n}\n";
    let diags = run(&UnnecessaryClone, source);
    assert_eq!(diags.len(), 1);
    assert_eq!(diags[0].rule_id, "CTL_UNNECESSARY_CLONE");
    assert_eq!(diags[0].line, 4);
    assert_eq!(diags[0].message, "`a.clone()` — `a` is not used afterwards; move it instead");
}

#[test]
fn clone_reused_later_passes() {
    let source = "#[test]\nfn test_copy() {\n    let a = vec![1];\n    let b = a.clone();\n    assert_eq!(a, b, \"same\");\n}\n";
    assert!(run(&UnnecessaryClone, source).is_empty());
}

#[test]
fn clone_outside_tests_ignored() {
    let source = "fn copy(a: Vec<u8>) -> Vec<u8> { a.clone() }\n";
    assert!(run(&UnnecessaryClone, source).is_empty());
}
