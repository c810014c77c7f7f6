use cargo_test_lint::ctl::config::{load, Config};
use cargo_test_lint::ctl::coverage::CoverageGap;
use cargo_test_lint::ctl::diagnostic::{
    coverage_to_diagnostics, mutant_to_diagnostics, resolve_byte_offsets, Diagnostic, DiagnosticLevel, DiagnosticSpan,
};
use cargo_test_lint::ctl::mutation::{MutationKind, MutationReport, SurvivingMutant};

#[test]
fn config_default_values() {
    let config = Config::default();
    assert!(config.coverage.enabled);
    assert_eq!(config.coverage.timeout_secs, 300);
    assert!(config.coverage.extra_args.is_empty());
    assert!(config.mutation.enabled);
    assert_eq!(config.mutation.timeout_secs, 600);
    assert!(config.mutation.filter_uncovered);
    assert!(config.mutation.extra_args.is_empty());
    assert_eq!(config.daemon.debounce_ms, 500);
    assert_eq!(config.daemon.full_sweep_interval_secs, 300);
    assert!(config.daemon.socket_path.is_none());
    assert_eq!(config.output.level, "warning");
    assert!(config.output.show_diff_hunks);
}

#[test]
fn default_config_values() {
    let config = Config::default();
    assert!(config.coverage.enabled);
    assert_eq!(config.coverage.timeout_secs, 300);
    assert!(config.coverage.extra_args.is_empty());
    assert!(config.mutation.enabled);
    assert_eq!(config.mutation.timeout_secs, 600);
    assert!(config.mutation.filter_uncovered);
    assert_eq!(config.daemon.debounce_ms, 500);
    assert_eq!(config.daemon.full_sweep_interval_secs, 300);
    assert!(config.daemon.socket_path.is_none());
    assert_eq!(config.output.level, "warning");
    assert!(config.output.show_diff_hunks);
}

#[test]
fn ctl_load_prefers_ctl_toml() {
    let mut from_ctl = Config::default();
    from_ctl.coverage.timeout_secs = 99;
    let mut from_cargo = Config::default();
    from_cargo.coverage.timeout_secs = 42;
    assert_eq!(load(Some(from_ctl), Some(from_cargo.clone())).coverage.timeout_secs, 99);
    assert_eq!(load(None, Some(from_cargo)).coverage.timeout_secs, 42);
    assert_eq!(load(None, None).coverage.timeout_secs, 300);
}

#[test]
fn coverage_gap_produces_warning_diagnostic() {
    let gaps = vec![CoverageGap {
        file_path: "src/lib.rs".into(),
        line: 5,
        column_start: Some(8),
        column_end: Some(20),
        count: 0,
        is_branch: true,
    }];
    let diagnostics = coverage_to_diagnostics(&gaps);
    assert_eq!(diagnostics.len(), 1);
    let diag = &diagnostics[0];
    assert!(matches!(diag.level, DiagnosticLevel::Warning));
    assert_eq!(diag.code.as_ref().unwrap().code, "CTL_COVERAGE");
    assert!(diag.message.contains("uncovered branch"));
    assert!(diag.message.contains("line 5"));
    assert_eq!(diag.spans.len(), 1);
    assert!(diag.spans[0].is_primary);
    assert_eq!(diag.spans[0].line_start, 5);
    assert_eq!(diag.spans[0].column_start, 8);
}

#[test]
fn coverage_gap_line_type() {
    let gaps = vec![CoverageGap {
        file_path: "src/lib.rs".into(),
        line: 10,
        column_start: None,
        column_end: None,
        count: 0,
        is_branch: false,
    }];
    let diagnostics = coverage_to_diagnostics(&gaps);
    assert_eq!(diagnostics.len(), 1);
    assert!(diagnostics[0].message.contains("uncovered line"));
}

#[test]
fn coverage_gap_exact_message() {
    let gaps = vec![CoverageGap {
        file_path: "src/a.rs".into(),
        line: 12,
        column_start: Some(3),
        column_end: None,
        count: 4,
        is_branch: false,
    }];
    let d = &coverage_to_diagnostics(&gaps)[0];
    assert_eq!(d.message, "uncovered line at line 12 (executed 4 times)");
    assert_eq!(d.code.as_ref().unwrap().explanation.as_deref(), Some("code not covered by tests"));
    assert_eq!(d.spans[0].file_name, "src/a.rs");
    assert_eq!(d.spans[0].column_end, 4);
    assert_eq!(d.spans[0].label.as_deref(), Some("uncovered line"));
}

#[test]
fn mutant_produces_warning_diagnostic() {
    let mutants = vec![SurvivingMutant {
        file_path: "src/lib.rs".into(),
        line: 3,
        col_start: Some(20),
        col_end: Some(21),
        mutation_type: MutationKind::Arithmetic,
        replacement: "-".into(),
        original: "+".into(),
        diff_hunk: None,
    }];
    let diagnostics = mutant_to_diagnostics(&mutants);
    assert_eq!(diagnostics.len(), 1);
    let diag = &diagnostics[0];
    assert!(matches!(diag.level, DiagnosticLevel::Warning));
    assert_eq!(diag.code.as_ref().unwrap().code, "CTL_MUTANT");
    assert!(diag.message.contains("surviving mutation"));
    assert_eq!(diag.spans.len(), 1);
    assert!(diag.spans[0].is_primary);
    assert!(diag.children.is_empty());
}

#[test]
fn mutant_exact_message_and_kind_text() {
    let mutants = vec![
        SurvivingMutant {
            file_path: "src/lib.rs".into(),
            line: 3,
            col_start: Some(20),
            col_end: Some(21),
            mutation_type: MutationKind::Arithmetic,
            replacement: "-".into(),
            original: "+".into(),
            diff_hunk: None,
        },
        SurvivingMutant {
            file_path: "src/lib.rs".into(),
            line: 4,
            col_start: Some(2),
            col_end: None,
            mutation_type: MutationKind::Other("swap \"x\"".into()),
            replacement: "b".into(),
            original: "ab".into(),
            diff_hunk: None,
        },
    ];
    let d = mutant_to_diagnostics(&mutants);
    assert_eq!(d[0].message, "surviving mutation: Arithmetic — `+` → `-`");
    assert_eq!(d[1].message, "surviving mutation: Other(\"swap \\\"x\\\"\") — `ab` → `b`");
    assert_eq!(d[1].spans[0].column_start, 2);
    assert_eq!(d[1].spans[0].column_end, 4);
}

#[test]
fn mutant_with_diff_hunk_has_child_diagnostic() {
    let mutants = vec![SurvivingMutant {
        file_path: "src/lib.rs".into(),
        line: 3,
        col_start: None,
        col_end: None,
        mutation_type: MutationKind::ReplaceOperator,
        replacement: "!=".into(),
        original: "==".into(),
        diff_hunk: Some("--- a/src/lib.rs\n+++ b/src/lib.rs".into()),
    }];
    let diagnostics = mutant_to_diagnostics(&mutants);
    assert_eq!(diagnostics.len(), 1);
    assert_eq!(diagnostics[0].children.len(), 1);
    assert!(matches!(diagnostics[0].children[0].level, DiagnosticLevel::Note));
    assert_eq!(diagnostics[0].children[0].spans[0].label.as_deref(), Some("suggested fix"));
}

#[test]
fn empty_inputs_produce_empty_diagnostics() {
    assert!(coverage_to_diagnostics(&[]).is_empty());
    assert!(mutant_to_diagnostics(&[]).is_empty());
}

fn one_span_diag(file: &str, line: usize, cs: usize, ce: usize) -> Diagnostic {
    Diagnostic {
        message: "test".into(),
        code: None,
        level: DiagnosticLevel::Warning,
        spans: vec![DiagnosticSpan {
            file_name: file.into(),
            byte_start: 0,
            byte_end: 0,
            line_start: line,
            line_end: line,
            column_start: cs,
            column_end: ce,
            is_primary: true,
            label: None,
            suggested_replacement: None,
            suggestion_applicability: None,
            expansion: None,
        }],
        children: vec![],
    }
}

#[test]
fn resolve_byte_offsets_with_source() {
    let mut diags = vec![one_span_diag("test.rs", 1, 5, 10)];
    let sources = vec![("test.rs".to_string(), "hello world\nsecond line\n".to_string())];
    resolve_byte_offsets(&mut diags, &sources);
    assert_ne!(diags[0].spans[0].byte_start, 0);
    assert_ne!(diags[0].spans[0].byte_end, 0);
    assert!(diags[0].spans[0].byte_end > diags[0].spans[0].byte_start);
    let src_len = sources[0].1.len();
    assert!(diags[0].spans[0].byte_start < src_len);
    assert!(diags[0].spans[0].byte_end <= src_len);
}

#[test]
fn resolve_byte_offsets_missing_source() {
    let mut diags = vec![one_span_diag("missing.rs", 1, 1, 1)];
    let sources: Vec<(String, String)> = Vec::new();
    resolve_byte_offsets(&mut diags, &sources);
    assert_eq!(diags[0].spans[0].byte_start, 0);
    assert_eq!(diags[0].spans[0].byte_end, 0);
}

#[test]
fn resolve_byte_offsets_exact_and_clamped() {
    let mut parent = one_span_diag("a.rs", 2, 3, 99);
    parent.children.push(one_span_diag("a.rs", 1, 2, 2));
    let mut diags = vec![parent, one_span_diag("a.rs", 7, 1, 1)];
    let sources = vec![("a.rs".to_string(), "ab\ncdef\n".to_string())];
    resolve_byte_offsets(&mut diags, &sources);
    assert_eq!(diags[0].spans[0].byte_start, 5);
    assert_eq!(diags[0].spans[0].byte_end, 8);
    assert_eq!(diags[0].children[0].spans[0].byte_start, 1);
    assert_eq!(diags[1].spans[0].byte_start, 0);
    assert_eq!(diags[0].message, "test");
}

#[test]
fn mutant_col_end_fallback_to_original_length() {
    let m = SurvivingMutant {
        file_path: "src/lib.rs".into(),
        line: 3,
        col_start: Some(1),
        col_end: None,
        mutation_type: MutationKind::ReplaceOperator,
        replacement: "-".into(),
        original: "+".into(),
        diff_hunk: None,
    };
    let diags = mutant_to_diagnostics(&[m]);
    assert_eq!(diags[0].spans[0].column_end, 2);
}

#[test]
fn mutant_with_diff_hunk_has_applicability() {
    let m = SurvivingMutant {
        file_path: "src/lib.rs".into(),
        line: 3,
        col_start: Some(1),
        col_end: Some(2),
        mutation_type: MutationKind::ReplaceOperator,
        replacement: "-".into(),
        original: "+".into(),
        diff_hunk: Some("--- a\n+++ b\n".into()),
    };
    let diags = mutant_to_diagnostics(&[m]);
    assert_eq!(diags[0].children.len(), 1);
    assert_eq!(diags[0].children[0].spans[0].suggestion_applicability, Some("MachineApplicable".into()));
}

#[test]
fn coverage_gap_branch_type() {
    let gap = CoverageGap {
        file_path: "src/lib.rs".into(),
        line: 5,
        column_start: Some(1),
        column_end: Some(3),
        count: 0,
        is_branch: true,
    };
    let diags = coverage_to_diagnostics(&[gap]);
    assert_eq!(diags[0].message, "uncovered branch at line 5 (executed 0 times)");
    assert_eq!(diags[0].spans[0].label, Some("uncovered branch".into()));
}

#[test]
fn coverage_gap_no_column_end() {
    let gap = CoverageGap {
        file_path: "src/lib.rs".into(),
        line: 5,
        column_start: None,
        column_end: None,
        count: 0,
        is_branch: false,
    };
    let diags = coverage_to_diagnostics(&[gap]);
    assert_eq!(diags[0].spans[0].column_start, 1);
    assert_eq!(diags[0].spans[0].column_end, 2);
}

#[test]
fn from_cargo_mutants_name_known_variants() {
    assert_eq!(MutationKind::from_cargo_mutants_name("replace_arithmetic_operator"), MutationKind::Arithmetic);
    assert_eq!(MutationKind::from_cargo_mutants_name("replace_boundary"), MutationKind::Boundary);
    assert_eq!(MutationKind::from_cargo_mutants_name("negate_condition"), MutationKind::NegateCondition);
    assert_eq!(MutationKind::from_cargo_mutants_name("void_return_value"), MutationKind::VoidReturnValue);
    assert_eq!(MutationKind::from_cargo_mutants_name("replace_with_default"), MutationKind::ReplaceWithDefault);
    assert_eq!(MutationKind::from_cargo_mutants_name("replace_with_literal"), MutationKind::ReplaceWithLiteral);
    assert_eq!(MutationKind::from_cargo_mutants_name("replace_operator"), MutationKind::ReplaceOperator);
    assert_eq!(MutationKind::from_cargo_mutants_name("remove_statement"), MutationKind::RemoveStmt);
    assert_eq!(MutationKind::from_cargo_mutants_name("unwrap_to_expect"), MutationKind::UnwrapToExpect);
}

#[test]
fn from_cargo_mutants_name_unknown_variant() {
    assert_eq!(
        MutationKind::from_cargo_mutants_name("some_new_mutation"),
        MutationKind::Other("some_new_mutation".to_string())
    );
}

#[test]
fn mutation_report_empty() {
    let r = MutationKind::from_cargo_mutants_name("replace_arithmetic_operator");
    assert!(matches!(r, MutationKind::Arithmetic));
}

#[test]
fn mutation_kind_equality_other() {
    let a = MutationKind::Other("foo".into());
    let b = MutationKind::Other("foo".into());
    assert_eq!(a, b);
    let c = MutationKind::Other("bar".into());
    assert_ne!(a, c);
}

#[test]
fn mutation_report_empty_fn() {
    let report = MutationReport::empty();
    assert!(report.mutants.is_empty());
    assert_eq!(report.total, 0);
    assert_eq!(report.survived, 0);
    assert_eq!(report.killed, 0);
    assert_eq!(report.timeout, 0);
}

#[test]
fn clones_are_equal() {
    let m = SurvivingMutant {
        file_path: "f.rs".into(),
        line: 1,
        col_start: None,
        col_end: Some(3),
        mutation_type: MutationKind::Other("k".into()),
        replacement: "r".into(),
        original: "o".into(),
        diff_hunk: Some("d".into()),
    };
    let c = m.clone();
    assert_eq!(c.mutation_type, m.mutation_type);
    assert_eq!(c.diff_hunk, m.diff_hunk);
    assert_eq!(c.col_end, Some(3));
}
