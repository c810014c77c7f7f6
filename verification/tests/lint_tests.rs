use cargo_test_lint::lint::config::{load, Config};
use cargo_test_lint::lint::cov_parse::{parse, serialize, CoverageData, CoverageLine, ParseError};
use cargo_test_lint::lint::diagnostics::{parse_level, Diagnostic, DiagnosticLevel, Fix};
use cargo_test_lint::lint::output::{parse_format, rule_ids, sarif_level, OutputFormat, TerminalFormatter};

#[test]
fn default_config_has_all_rules_enabled() {
    let config = Config::default();
    assert!(config.rule_enabled("assertion-roulette"), "assertion-roulette should be enabled by default");
    assert!(config.rule_enabled("sleepy-test"), "sleepy-test should be enabled by default");
    assert!(config.rule_enabled("test-branching"), "test-branching should be enabled by default");
    assert_eq!(config.max_expects, 5, "default max_expects should be 5");
    assert_eq!(config.max_nested_mod, 3, "default max_nested_mod should be 3");
}

#[test]
fn default_config_nextest_is_false() {
    let config = Config::default();
    assert!(!config.nextest, "nextest should be false by default");
}

#[test]
fn rule_level_returns_default_when_not_configured() {
    let config = Config::default();
    assert_eq!(
        config.rule_level("nonexistent", DiagnosticLevel::Deny),
        DiagnosticLevel::Deny,
        "unconfigured rule should return default level"
    );
}

#[test]
fn rule_enabled_false_when_allowed() {
    let mut config = Config::default();
    config.rules.insert("test-rule".into(), DiagnosticLevel::Allow);
    assert!(!config.rule_enabled("test-rule"), "allowed rule should be disabled");
}

#[test]
fn default_sleepy_test_is_forbidden() {
    let config = Config::default();
    assert_eq!(config.rule_level("sleepy-test", DiagnosticLevel::Warn), DiagnosticLevel::Forbid);
    assert_eq!(config.rules.len(), 11);
}

#[test]
fn insert_then_rule_level_reports_it() {
    let mut config = Config::default();
    let previous = config.rules.insert("sleepy-test".into(), DiagnosticLevel::Deny);
    assert_eq!(previous, Some(DiagnosticLevel::Forbid));
    assert_eq!(config.rule_level("sleepy-test", DiagnosticLevel::Allow), DiagnosticLevel::Deny);
    assert_eq!(config.rules.len(), 11);
}

#[test]
fn load_prefers_package_over_workspace() {
    let mut package = Config::default();
    package.max_nested_mod = 2;
    let mut workspace = Config::default();
    workspace.max_expects = 10;
    let c = load(Some(package.clone()), Some(workspace.clone()));
    assert_eq!(c.max_nested_mod, 2);
    assert_eq!(c.max_expects, 5);
    let w = load(None, Some(workspace));
    assert_eq!(w.max_expects, 10);
    let d = load(None, None);
    assert_eq!(d.max_expects, 5);
    assert_eq!(d.max_nested_mod, 3);
}

#[test]
fn roundtrip_single_line() {
    let data = CoverageData {
        lines: vec![CoverageLine { file_path: "src/main.rs".into(), line_number: 10, execution_count: 5 }],
    };
    let serialized = serialize(&data);
    let parsed = parse(&serialized).unwrap();
    assert_eq!(data, parsed, "single-line coverage data roundtrips correctly");
}

#[test]
fn roundtrip_multiple_lines() {
    let data = CoverageData {
        lines: vec![
            CoverageLine { file_path: "src/lib.rs".into(), line_number: 1, execution_count: 0 },
            CoverageLine { file_path: "src/lib.rs".into(), line_number: 42, execution_count: 100 },
        ],
    };
    let serialized = serialize(&data);
    let parsed = parse(&serialized).unwrap();
    assert_eq!(data, parsed, "multi-line coverage data roundtrips correctly");
}

#[test]
fn reject_empty_input() {
    assert!(parse("").is_err(), "empty input should be rejected");
    assert!(parse("   ").is_err(), "whitespace-only input should be rejected");
}

#[test]
fn reject_zero_line_number() {
    let text = "src/main.rs:0:1\n";
    assert!(parse(text).is_err(), "zero line number should be rejected");
}

#[test]
fn reject_empty_file_path() {
    let text = ":10:1\n";
    assert!(parse(text).is_err(), "empty file path should be rejected");
}

#[test]
fn reject_malformed_line() {
    let text = "garbage\n";
    assert!(parse(text).is_err(), "malformed input should be rejected");
}

#[test]
fn serialize_writes_one_record_per_line() {
    let data = CoverageData {
        lines: vec![
            CoverageLine { file_path: "a.rs".into(), line_number: 3, execution_count: 7 },
            CoverageLine { file_path: "b.rs".into(), line_number: 12, execution_count: 0 },
        ],
    };
    assert_eq!(serialize(&data), "a.rs:3:7\nb.rs:12:0\n");
}

#[test]
fn parse_keeps_colons_in_paths_and_skips_blank_lines() {
    let parsed = parse("C:/x/a.rs:4:2\n\n  b.rs:1:0  \n").unwrap();
    assert_eq!(parsed.lines.len(), 2);
    assert_eq!(parsed.lines[0].file_path, "C:/x/a.rs");
    assert_eq!(parsed.lines[0].line_number, 4);
    assert_eq!(parsed.lines[0].execution_count, 2);
    assert_eq!(parsed.lines[1].file_path, "b.rs");
}

#[test]
fn parse_error_kinds() {
    assert_eq!(parse("").unwrap_err(), ParseError::EmptyInput);
    match parse("a.rs:1:1\nbad\n").unwrap_err() {
        ParseError::InvalidLine { line_num, .. } => assert_eq!(line_num, 2),
        other => panic!("unexpected error {:?}", other),
    }
    assert_eq!(ParseError::EmptyInput.message(), "empty input");
}

#[test]
fn diagnostic_level_from_str_valid() {
    assert_eq!("allow".parse::<DiagnosticLevel>().unwrap(), DiagnosticLevel::Allow, "'allow' should parse to Allow");
    assert_eq!("warn".parse::<DiagnosticLevel>().unwrap(), DiagnosticLevel::Warn, "'warn' should parse to Warn");
    assert_eq!("deny".parse::<DiagnosticLevel>().unwrap(), DiagnosticLevel::Deny, "'deny' should parse to Deny");
    assert_eq!("error".parse::<DiagnosticLevel>().unwrap(), DiagnosticLevel::Deny, "'error' should parse to Deny");
    assert_eq!("forbid".parse::<DiagnosticLevel>().unwrap(), DiagnosticLevel::Forbid, "'forbid' should parse to Forbid");
}

#[test]
fn diagnostic_level_from_str_invalid() {
    assert!("invalid".parse::<DiagnosticLevel>().is_err(), "invalid level string should fail to parse");
}

#[test]
fn level_names_read_back() {
    for l in [DiagnosticLevel::Allow, DiagnosticLevel::Warn, DiagnosticLevel::Deny, DiagnosticLevel::Forbid] {
        assert_eq!(parse_level(l.as_str()), Ok(l));
    }
    assert_eq!(parse_level("loud"), Err("invalid level: loud".to_string()));
}

#[test]
fn diagnostic_level_is_error() {
    assert!(!DiagnosticLevel::Allow.is_error(), "Allow should not be an error level");
    assert!(!DiagnosticLevel::Warn.is_error(), "Warn should not be an error level");
    assert!(DiagnosticLevel::Deny.is_error(), "Deny should be an error level");
    assert!(DiagnosticLevel::Forbid.is_error(), "Forbid should be an error level");
}

fn make_diag_at(path: &str, line: usize, col: usize) -> Diagnostic {
    Diagnostic {
        rule_id: "CTL_TEST".into(),
        level: DiagnosticLevel::Warn,
        message: "test".into(),
        file_path: path.into(),
        line,
        column: col,
        end_line: line,
        end_column: col + 5,
        suggestion: None,
    }
}

fn make_diag(level: DiagnosticLevel) -> Diagnostic {
    let mut d = make_diag_at("test.rs", 1, 1);
    d.level = level;
    d
}

#[test]
fn has_errors_detects_violations() {
    let clean: Vec<Diagnostic> = vec![];
    assert!(!Diagnostic::has_errors(&clean), "empty diagnostics should have no errors");
    let warnings = vec![make_diag(DiagnosticLevel::Warn)];
    assert!(!Diagnostic::has_errors(&warnings), "warn-level diagnostics should have no errors");
    let errors = vec![make_diag(DiagnosticLevel::Deny)];
    assert!(Diagnostic::has_errors(&errors), "deny-level diagnostics should have errors");
}

#[test]
fn sort_by_position_same_file_same_line() {
    let mut diags = vec![make_diag_at("a.rs", 5, 3), make_diag_at("a.rs", 5, 1)];
    Diagnostic::sort_by_position(&mut diags);
    assert_eq!(diags[0].file_path, "a.rs", "first diag should be in a.rs");
    assert_eq!(diags[0].line, 5, "first diag should be on line 5");
    assert_eq!(diags[0].column, 1, "first diag should be at column 1");
    assert_eq!(diags[1].file_path, "a.rs", "second diag should be in a.rs");
    assert_eq!(diags[1].column, 3, "second diag should be at column 3");
}

#[test]
fn sort_by_position_different_files() {
    let mut diags = vec![make_diag_at("b.rs", 10, 1), make_diag_at("a.rs", 5, 1)];
    Diagnostic::sort_by_position(&mut diags);
    assert_eq!(diags[0].file_path, "a.rs", "a.rs should sort before b.rs");
    assert_eq!(diags[1].file_path, "b.rs", "third diag should be in b.rs");
}

#[test]
fn sort_by_position_compares_paths_by_component() {
    let mut diags = vec![make_diag_at("a/b.rs", 1, 1), make_diag_at("a.rs", 1, 1), make_diag_at("a-b.rs", 1, 1)];
    Diagnostic::sort_by_position(&mut diags);
    let order: Vec<&str> = diags.iter().map(|d| d.file_path.as_str()).collect();
    assert_eq!(order, vec!["a/b.rs", "a-b.rs", "a.rs"]);
}

#[test]
fn sort_by_position_is_stable() {
    let mut first = make_diag_at("x.rs", 2, 2);
    first.message = "first".into();
    let mut second = make_diag_at("x.rs", 2, 2);
    second.message = "second".into();
    let mut diags = vec![first, make_diag_at("x.rs", 1, 9), second];
    Diagnostic::sort_by_position(&mut diags);
    assert_eq!(diags[0].line, 1);
    assert_eq!(diags[1].message, "first");
    assert_eq!(diags[2].message, "second");
}

fn term_diag(rule_id: &str, level: DiagnosticLevel, msg: &str) -> Diagnostic {
    Diagnostic {
        rule_id: rule_id.into(),
        level,
        message: msg.into(),
        file_path: "src/lib.rs".into(),
        line: 10,
        column: 5,
        end_line: 10,
        end_column: 20,
        suggestion: None,
    }
}

fn format(diags: &[Diagnostic]) -> String {
    TerminalFormatter.render(diags)
}

#[test]
fn warning_contains_rule_id() {
    let output = format(&[term_diag("CTL_ASSERT_MSG", DiagnosticLevel::Warn, "missing msg")]);
    assert!(output.contains("CTL_ASSERT_MSG"), "output should contain rule id");
    assert!(output.contains("warning"), "output should contain 'warning'");
}

#[test]
fn error_contains_file_location() {
    let output = format(&[term_diag("CTL_SLEEP", DiagnosticLevel::Forbid, "sleepy")]);
    assert!(output.contains("src/lib.rs:10:5"), "output should contain file location");
    assert!(output.contains("error"), "output should contain 'error'");
}

#[test]
fn suggestion_rendered() {
    let mut diag = term_diag("CTL_ASSERT_MSG", DiagnosticLevel::Warn, "no msg");
    diag.suggestion = Some(Fix {
        description: "add message".into(),
        replacement: "assert!(true, \"msg\")".into(),
        start_byte: 0,
        end_byte: 20,
    });
    let output = format(&[diag]);
    assert!(output.contains("help: add message"), "output should contain suggestion help text");
    assert!(output.contains("assert!(true, \"msg\")"), "output should contain suggestion replacement");
}

#[test]
fn summary_counts() {
    let diags = vec![
        term_diag("A", DiagnosticLevel::Warn, "w1"),
        term_diag("B", DiagnosticLevel::Warn, "w2"),
        term_diag("C", DiagnosticLevel::Deny, "e1"),
    ];
    let output = format(&diags);
    assert!(output.contains("1 error"), "summary should show 1 error");
    assert!(output.contains("2 warnings"), "summary should show 2 warnings");
}

#[test]
fn empty_diagnostics_no_output() {
    assert!(format(&[]).is_empty(), "empty diagnostics should produce no output");
}

#[test]
fn allow_level_skipped() {
    assert!(
        format(&[term_diag("A", DiagnosticLevel::Allow, "hidden")]).is_empty(),
        "allow-level diagnostics should produce no output"
    );
}

#[test]
fn terminal_output_exact_text() {
    let output = format(&[term_diag("R", DiagnosticLevel::Warn, "m")]);
    assert_eq!(
        output,
        "\x1b[33mwarning\x1b[0m\x1b[2m[R]\x1b[0m: m\n  \x1b[1m-->\x1b[0m src/lib.rs:10:5\n\n\x1b[33m0 errors, 1 warning\x1b[0m\n"
    );
}

#[test]
fn output_format_names() {
    assert_eq!("terminal".parse::<OutputFormat>(), Ok(OutputFormat::Terminal));
    assert_eq!(parse_format("sarif"), Ok(OutputFormat::Sarif));
    assert_eq!(parse_format("xml"), Err("unknown format: xml".to_string()));
}

#[test]
fn sarif_levels_and_rule_ids() {
    assert_eq!(sarif_level(DiagnosticLevel::Allow), "none");
    assert_eq!(sarif_level(DiagnosticLevel::Warn), "warning");
    assert_eq!(sarif_level(DiagnosticLevel::Deny), "error");
    assert_eq!(sarif_level(DiagnosticLevel::Forbid), "error");
    let diags = vec![
        term_diag("B", DiagnosticLevel::Warn, "x"),
        term_diag("A", DiagnosticLevel::Warn, "y"),
        term_diag("B", DiagnosticLevel::Deny, "z"),
    ];
    assert_eq!(rule_ids(&diags), vec!["B".to_string(), "A".to_string()]);
}

#[test]
fn parse_reads_one_entry_per_nonblank_line() {
    let data = parse("\n  a.rs:1:2 \n\n   \n b.rs:3:0\n").unwrap();
    assert_eq!(data.lines.len(), 2);
    match parse("a.rs:1:2\n\nnot a record\nc.rs:0:1") {
        Err(ParseError::InvalidLine { line_num, .. }) => assert_eq!(line_num, 3),
        other => panic!("unexpected {other:?}"),
    }
}

#[test]
fn sarif_byte_length_is_the_fix_range() {
    let fix = Fix { description: "d".into(), replacement: "r".into(), start_byte: 4, end_byte: 11 };
    assert_eq!(cargo_test_lint::lint::output::fix_byte_length(&fix), 7);
}
