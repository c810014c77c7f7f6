use cargo_test_lint::ctl::coverage::CoverageGap;
use cargo_test_lint::ctl::mutation::{MutationKind, MutationReport, SurvivingMutant};
use cargo_test_lint::daemon::cov_parse::{decode_segment, decode_segments, JsonScalar, SegmentFields};
use cargo_test_lint::daemon::pipeline::{file_scoped_update, mutation_run_for, ScopedUpdate};
use cargo_test_lint::daemon::watch::{changed_files, rust_sources};
use cargo_test_lint::lint::config::Config;
use cargo_test_lint::lint::diagnostics::{Diagnostic, DiagnosticLevel};
use cargo_test_lint::lint::files::select_rust_files;
use cargo_test_lint::lint::output::run_fails;
use cargo_test_lint::lint::rules::flow::TestBranching;
use cargo_test_lint::lint::rules::{run_all_rules, test_rule_with_config, RuleContext};
use cargo_test_lint::lint::syntax::{parse_source, syntax_tree};

fn fields(line: JsonScalar, col: JsonScalar, count: JsonScalar, has_count: JsonScalar) -> SegmentFields {
    SegmentFields { keyed: false, line, col, count, has_count, region_entry: JsonScalar::Missing, gap: JsonScalar::Missing }
}

#[test]
fn decode_segment_reads_all_places() {
    let f = SegmentFields {
        keyed: true,
        line: JsonScalar::Unsigned(15),
        col: JsonScalar::Unsigned(5),
        count: JsonScalar::Unsigned(0),
        has_count: JsonScalar::Flag(true),
        region_entry: JsonScalar::Unsigned(1),
        gap: JsonScalar::Flag(false),
    };
    let s = decode_segment(f).unwrap();
    assert_eq!((s.line, s.col, s.count), (15, 5, 0));
    assert!(s.has_count);
    assert!(s.is_region_entry);
    assert!(!s.is_gap);
}

#[test]
fn decode_segment_reads_array_flags_as_booleans_only() {
    let f = SegmentFields {
        keyed: false,
        region_entry: JsonScalar::Unsigned(1),
        gap: JsonScalar::Flag(true),
        ..fields(JsonScalar::Unsigned(1), JsonScalar::Unsigned(2), JsonScalar::Unsigned(0), JsonScalar::Flag(true))
    };
    let s = decode_segment(f).unwrap();
    assert!(!s.is_region_entry);
    assert!(s.is_gap);
    let keyed = decode_segment(SegmentFields { keyed: true, ..f }).unwrap();
    assert!(keyed.is_region_entry);
}

#[test]
fn decode_segment_defaults_missing_flags_to_false() {
    let s = decode_segment(fields(JsonScalar::Unsigned(1), JsonScalar::Unsigned(2), JsonScalar::Unsigned(3), JsonScalar::Flag(false))).unwrap();
    assert!(!s.is_region_entry);
    assert!(!s.is_gap);
    let t = decode_segment(SegmentFields { region_entry: JsonScalar::Other, gap: JsonScalar::Unsigned(0), ..fields(JsonScalar::Unsigned(1), JsonScalar::Unsigned(2), JsonScalar::Unsigned(3), JsonScalar::Flag(true)) }).unwrap();
    assert!(!t.is_region_entry);
    assert!(!t.is_gap);
}

#[test]
fn decode_segment_reports_each_bad_place() {
    assert_eq!(decode_segment(fields(JsonScalar::Missing, JsonScalar::Unsigned(1), JsonScalar::Unsigned(1), JsonScalar::Flag(true))).unwrap_err(), "segment[0] (line) missing or not u64");
    assert_eq!(decode_segment(fields(JsonScalar::Unsigned(1), JsonScalar::Flag(true), JsonScalar::Unsigned(1), JsonScalar::Flag(true))).unwrap_err(), "segment[1] (col) missing or not u64");
    assert_eq!(decode_segment(fields(JsonScalar::Unsigned(1), JsonScalar::Unsigned(1), JsonScalar::Other, JsonScalar::Flag(true))).unwrap_err(), "segment[2] (count) missing or not u64");
    assert_eq!(decode_segment(fields(JsonScalar::Unsigned(1), JsonScalar::Unsigned(1), JsonScalar::Unsigned(1), JsonScalar::Unsigned(1))).unwrap_err(), "segment[3] (has_count) missing or not bool");
}

#[test]
fn decode_segments_stops_at_first_bad_record() {
    let good = fields(JsonScalar::Unsigned(1), JsonScalar::Unsigned(1), JsonScalar::Unsigned(0), JsonScalar::Flag(true));
    let bad = fields(JsonScalar::Unsigned(1), JsonScalar::Missing, JsonScalar::Unsigned(0), JsonScalar::Flag(true));
    assert_eq!(decode_segments(&[good, good]).unwrap().len(), 2);
    assert_eq!(decode_segments(&[good, bad, good]).unwrap_err(), "segment[1] (col) missing or not u64");
    assert!(decode_segments(&[]).unwrap().is_empty());
}

fn gap(file: &str, line: u32) -> CoverageGap {
    CoverageGap { file_path: file.to_string(), line, column_start: Some(1), column_end: None, count: 0, is_branch: false }
}

fn mutant(file: &str, line: u32) -> SurvivingMutant {
    SurvivingMutant {
        file_path: file.to_string(),
        line,
        col_start: Some(1),
        col_end: Some(4),
        mutation_type: MutationKind::ReplaceOperator,
        replacement: "-".into(),
        original: "+".into(),
        diff_hunk: None,
    }
}

#[test]
fn file_scoped_update_invalidates_when_coverage_failed() {
    match file_scoped_update("/p/src/a.rs", "/p", None, None) {
        ScopedUpdate::Invalidate(f) => assert_eq!(f, "/p/src/a.rs"),
        other => panic!("unexpected {other:?}"),
    }
}

#[test]
fn file_scoped_update_stores_gaps_and_covered_mutants() {
    let gaps = vec![gap("/p/src/a.rs", 3), gap("/p/src/b.rs", 9)];
    let report = MutationReport {
        mutants: vec![mutant("/p/src/a.rs", 3), mutant("/p/src/a.rs", 7)],
        total: 2,
        survived: 2,
        killed: 0,
        timeout: 0,
    };
    match file_scoped_update("src/a.rs", "/p", Some(&gaps), Some(&report)) {
        ScopedUpdate::Store(f, ds) => {
            assert_eq!(f, "src/a.rs");
            assert_eq!(ds.len(), 2);
            assert!(ds[0].message.starts_with("uncovered line at line 3"));
            assert_eq!(ds[1].spans[0].line_start, 7);
        }
        other => panic!("unexpected {other:?}"),
    }
}

#[test]
fn file_scoped_update_invalidates_a_clean_file() {
    let gaps = vec![gap("/p/src/b.rs", 9)];
    match file_scoped_update("src/a.rs", "/p", Some(&gaps), None) {
        ScopedUpdate::Invalidate(f) => assert_eq!(f, "src/a.rs"),
        other => panic!("unexpected {other:?}"),
    }
}

#[test]
fn rust_sources_keeps_rs_paths() {
    let paths = vec!["a.rs".to_string(), "b.txt".to_string(), "dir/c.rs".to_string(), ".rs".to_string()];
    assert_eq!(rust_sources(&paths), vec!["a.rs".to_string(), "dir/c.rs".to_string()]);
}

#[test]
fn changed_files_reports_each_path_once() {
    let paths = vec![
        "/p/src/a.rs".to_string(),
        "/p/src/b.rs".to_string(),
        "/p/src//a.rs".to_string(),
        "/p/src/b.rs".to_string(),
    ];
    assert_eq!(changed_files("/p", &paths), vec!["/p/src/a.rs".to_string(), "/p/src/b.rs".to_string()]);
    assert!(changed_files("/p", &[]).is_empty());
}

#[test]
fn select_rust_files_filters_and_sorts() {
    let found = vec![
        "./src/main.rs".to_string(),
        "./src/readme.txt".to_string(),
        "./build.rs".to_string(),
        "./src/lib.rs".to_string(),
        "./src/a/mod.rs".to_string(),
    ];
    assert_eq!(
        select_rust_files(&found),
        vec![
            "./build.rs".to_string(),
            "./src/a/mod.rs".to_string(),
            "./src/lib.rs".to_string(),
            "./src/main.rs".to_string(),
        ]
    );
}

fn finding(level: DiagnosticLevel) -> Diagnostic {
    Diagnostic {
        rule_id: "CTL_X".into(),
        level,
        message: "m".into(),
        file_path: "a.rs".into(),
        line: 1,
        column: 1,
        end_line: 1,
        end_column: 2,
        suggestion: None,
    }
}

#[test]
fn run_fails_on_errors_or_denied_warnings() {
    assert!(!run_fails(&[], true));
    assert!(!run_fails(&[finding(DiagnosticLevel::Warn)], false));
    assert!(run_fails(&[finding(DiagnosticLevel::Warn)], true));
    assert!(run_fails(&[finding(DiagnosticLevel::Deny)], false));
    assert!(run_fails(&[finding(DiagnosticLevel::Forbid)], false));
}

#[test]
fn allowed_rule_reports_nothing() {
    let source = "#[test]\nfn test_foo() {\n    if true { assert!(true); }\n}\n";
    let mut config = Config::default();
    config.rules.insert("test-branching".to_string(), DiagnosticLevel::Allow);
    assert!(test_rule_with_config(&TestBranching, source, config).unwrap().is_empty());
    let mut denied = Config::default();
    denied.rules.insert("test-branching".to_string(), DiagnosticLevel::Deny);
    let ds = test_rule_with_config(&TestBranching, source, denied).unwrap();
    assert_eq!(ds.len(), 1);
    assert_eq!(ds[0].level, DiagnosticLevel::Deny);
}

#[test]
fn run_all_rules_sorts_findings_by_position() {
    let source = "#[test]\nfn test_foo() {\n    File::create(\"x\");\n    if true { assert!(true); }\n}\nstatic mut C: u32 = 0;\n";
    let parsed = parse_source(source.as_bytes()).unwrap();
    let tree = syntax_tree(&parsed).unwrap();
    let ctx = RuleContext { source: source.as_bytes().to_vec(), tree, config: Config::default(), file_path: "t.rs".to_string() };
    let ds = run_all_rules(&ctx);
    let lines: Vec<usize> = ds.iter().map(|d| d.line).collect();
    assert_eq!(lines, vec![3, 4, 4, 6]);
    let ids: Vec<&str> = ds.iter().map(|d| d.rule_id.as_str()).collect();
    assert_eq!(ids, vec!["CTL_MISSING_DROP_GUARD", "CTL_TEST_BRANCHING", "CTL_ASSERT_MSG", "CTL_STATIC_MUT"]);
    assert!(ds.iter().all(|d| d.file_path == "t.rs"));
}

#[test]
fn mutation_runs_only_after_coverage() {
    assert_eq!(mutation_run_for("/p/src/a.rs", "/p", true), Some("src/a.rs".to_string()));
    assert_eq!(mutation_run_for("/p/src/a.rs", "/p", false), None);
    assert_eq!(mutation_run_for("/p/notes.txt", "/p", true), None);
}
