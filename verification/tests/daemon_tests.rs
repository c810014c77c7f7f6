use cargo_test_lint::ctl::coverage::CoverageGap;
use cargo_test_lint::ctl::diagnostic::{coverage_to_diagnostics, mutant_to_diagnostics, Diagnostic, DiagnosticEntry};
use cargo_test_lint::ctl::mutation::{MutationKind, MutationReport, SurvivingMutant};
use cargo_test_lint::daemon::cache::Cache;
use cargo_test_lint::daemon::clock::rfc3339_utc;
use cargo_test_lint::daemon::cov_parse::{
    coverage_totals, extract_gaps, LlvmCovCount, LlvmCovData, LlvmCovExport, LlvmCovFileEntry, LlvmCovFileSummary,
    LlvmCovSegment,
};
use cargo_test_lint::daemon::matrix::CoverageMatrix;
use cargo_test_lint::daemon::mut_parse::{
    diff_file_for, parse_outcomes, FunctionInfo, GenreInfo, LabOutcome, LineCol, MutantInfo, Scenario,
    ScenarioOutcome, SpanInfo, SummaryOutcome,
};
use cargo_test_lint::daemon::pipeline::{
    entries_for_request, file_scoped_update, gaps_for_file, group_by_file, is_rust_source, relative_path, scoped_findings,
    scoped_target, ScopedUpdate,
};
use serde_json::Value;

fn gap(file: &str, line: u32, is_branch: bool) -> CoverageGap {
    CoverageGap { file_path: file.to_string(), line, column_start: Some(1), column_end: None, count: 0, is_branch }
}

fn mutant(file: &str, line: u32) -> SurvivingMutant {
    SurvivingMutant {
        file_path: file.to_string(),
        line,
        col_start: Some(1),
        col_end: Some(10),
        mutation_type: MutationKind::ReplaceOperator,
        replacement: "-".into(),
        original: "+".into(),
        diff_hunk: None,
    }
}

#[test]
fn from_gaps_creates_matrix() {
    let gaps = vec![gap("a.rs", 5, false), gap("a.rs", 10, false), gap("b.rs", 3, false)];
    let matrix = CoverageMatrix::from_gaps(&gaps);
    assert!(!matrix.is_covered("a.rs", 5));
    assert!(!matrix.is_covered("a.rs", 10));
    assert!(!matrix.is_covered("b.rs", 3));
    assert!(matrix.is_covered("a.rs", 1));
    assert!(matrix.is_covered("c.rs", 1));
}

#[test]
fn is_covered_returns_true_for_unknown_file() {
    let matrix = CoverageMatrix::from_gaps(&[]);
    assert!(matrix.is_covered("unknown.rs", 1));
}

#[test]
fn uncovered_lines_returns_sorted_lines() {
    let gaps = vec![gap("a.rs", 20, false), gap("a.rs", 5, false), gap("a.rs", 15, false)];
    let matrix = CoverageMatrix::from_gaps(&gaps);
    let lines = matrix.uncovered_lines("a.rs");
    assert_eq!(lines, vec![5, 15, 20]);
}

#[test]
fn uncovered_lines_empty_for_unknown_file() {
    let matrix = CoverageMatrix::from_gaps(&[]);
    assert!(matrix.uncovered_lines("unknown.rs").is_empty());
}

#[test]
fn filter_mutant_targets_keeps_covered_mutants() {
    let gaps = vec![gap("a.rs", 5, false)];
    let matrix = CoverageMatrix::from_gaps(&gaps);
    let mutants = vec![mutant("a.rs", 5), mutant("a.rs", 10), mutant("b.rs", 1)];
    let filtered = matrix.filter_mutant_targets(&mutants);
    assert_eq!(filtered.len(), 2);
    assert_eq!(filtered[0].line, 10);
    assert_eq!(filtered[1].file_path, "b.rs");
}

#[test]
fn filter_mutant_targets_all_pass_when_no_coverage() {
    let matrix = CoverageMatrix::from_gaps(&[]);
    let mutants = vec![mutant("a.rs", 1), mutant("b.rs", 2)];
    assert_eq!(matrix.filter_mutant_targets(&mutants).len(), 2);
}

#[test]
fn merge_combines_two_matrices() {
    let m1 = CoverageMatrix::from_gaps(&[gap("a.rs", 5, false)]);
    let m2 = CoverageMatrix::from_gaps(&[gap("b.rs", 10, false)]);
    let mut merged = m1;
    merged.merge(m2);
    assert!(!merged.is_covered("a.rs", 5));
    assert!(!merged.is_covered("b.rs", 10));
}

#[test]
fn remove_file_removes_entry() {
    let matrix = CoverageMatrix::from_gaps(&[gap("a.rs", 5, false), gap("b.rs", 3, false)]);
    let mut m = matrix;
    m.remove_file("a.rs");
    assert!(m.is_covered("a.rs", 5));
    assert!(!m.is_covered("b.rs", 3));
}

#[test]
fn branch_gap_marks_line_uncovered() {
    let gaps = vec![gap("a.rs", 5, true)];
    let matrix = CoverageMatrix::from_gaps(&gaps);
    assert!(!matrix.is_covered("a.rs", 5));
}

#[test]
fn merge_overlapping_files_combines_lines() {
    let m1 = CoverageMatrix::from_gaps(&[gap("a.rs", 5, false)]);
    let m2 = CoverageMatrix::from_gaps(&[gap("a.rs", 10, false)]);
    let mut merged = m1;
    merged.merge(m2);
    assert!(!merged.is_covered("a.rs", 5));
    assert!(!merged.is_covered("a.rs", 10));
    assert!(merged.is_covered("a.rs", 7));
}

#[test]
fn filter_mutant_targets_empty_mutants() {
    let matrix = CoverageMatrix::from_gaps(&[gap("a.rs", 5, false)]);
    let filtered = matrix.filter_mutant_targets(&[]);
    assert!(filtered.is_empty());
}

#[test]
fn matrix_compares_paths_by_component() {
    let matrix = CoverageMatrix::from_gaps(&[gap("src//a.rs", 4, false), gap("src/a.rs/", 6, false)]);
    assert!(!matrix.is_covered("src/a.rs", 4));
    assert_eq!(matrix.uncovered_lines("./src/a.rs"), Vec::<u32>::new());
    assert_eq!(matrix.uncovered_lines("src/a.rs"), vec![4, 6]);
}

#[test]
fn summary_format_zero_findings() {
    let file_count = 0usize;
    let finding_count = 0usize;
    let msg = if finding_count == 0 {
        format!("\u{2713} 0 findings ({file_count} files checked)")
    } else {
        format!("\u{2717} {finding_count} findings across {file_count} files")
    };
    assert_eq!(msg, "\u{2713} 0 findings (0 files checked)");
}

#[test]
fn summary_format_with_findings() {
    let file_count = 3usize;
    let finding_count = 7usize;
    let msg = format!("\u{2717} {finding_count} findings across {file_count} files");
    assert_eq!(msg, "\u{2717} 7 findings across 3 files");
}

fn entry(path: &str, json: &str) -> DiagnosticEntry {
    DiagnosticEntry { file_path: path.into(), diagnostics_json: json.into(), timestamp: 1 }
}

#[test]
fn cache_lives_below_target() {
    assert_eq!(Cache::new("/proj").cache_dir(), "/proj/target/ctl-cache");
    assert_eq!(Cache::new("/proj/").cache_dir(), "/proj/target/ctl-cache");
    assert_eq!(Cache::new("").cache_dir(), "target/ctl-cache");
    assert_eq!(Cache::new("p").entries_file(), "p/target/ctl-cache/diagnostics.ndjson");
    assert_eq!(Cache::new("p").staging_file(), "p/target/ctl-cache/diagnostics.ndjson.tmp");
}

#[test]
fn upsert_replaces_entries_of_the_same_file() {
    let existing = vec![entry("a.rs", "old-a"), entry("b.rs", "b"), entry("./a.rs", "older-a")];
    let new_entries = vec![entry("a.rs", "new-a")];
    let r = Cache::upsert_entries(&existing, &new_entries);
    let texts: Vec<&str> = r.iter().map(|e| e.diagnostics_json.as_str()).collect();
    assert_eq!(texts, vec!["b", "older-a", "new-a"]);
    assert_eq!(Cache::upsert_entries(&existing, &[]).len(), 3);
}

#[test]
fn invalidate_drops_named_files() {
    let entries = vec![entry("a.rs", "1"), entry("b.rs", "2")];
    let kept = Cache::invalidate(&entries, &["a.rs".to_string()]).unwrap();
    assert_eq!(kept.len(), 1);
    assert_eq!(kept[0].file_path, "b.rs");
    assert!(Cache::invalidate(&entries, &["c.rs".to_string()]).is_none());
}

#[test]
fn records_frame_and_read_back() {
    let records = vec!["{\"a\":1}".to_string(), "{\"b\":2}".to_string()];
    let text = Cache::frame_records(&records);
    assert_eq!(text, "{\"a\":1}\n{\"b\":2}\n");
    assert_eq!(Cache::read_records(&text), records);
    assert_eq!(Cache::read_records("  x \r\n\n\ny"), vec!["x".to_string(), "y".to_string()]);
    assert!(Cache::read_records("").is_empty());
}

#[test]
fn rfc3339_of_known_times() {
    assert_eq!(rfc3339_utc(0), "1970-01-01T00:00:00Z");
    assert_eq!(rfc3339_utc(951_782_400), "2000-02-29T00:00:00Z");
    assert_eq!(rfc3339_utc(1_700_000_000), "2023-11-14T22:13:20Z");
    assert_eq!(rfc3339_utc(86_399), "1970-01-01T23:59:59Z");
}

fn segment(v: &Value) -> LlvmCovSegment {
    if let Some(a) = v.as_array() {
        return LlvmCovSegment {
            line: a[0].as_u64().unwrap(),
            col: a[1].as_u64().unwrap(),
            count: a[2].as_u64().unwrap(),
            has_count: a[3].as_bool().unwrap(),
            is_region_entry: a.get(4).and_then(|x| x.as_bool()).unwrap_or(false),
            is_gap: a.get(5).and_then(|x| x.as_bool()).unwrap_or(false),
        };
    }
    let flag = |k: &str| v.get(k).map(|x| x.as_bool().unwrap_or_else(|| x.as_u64().unwrap_or(0) != 0)).unwrap_or(false);
    LlvmCovSegment {
        line: v["line"].as_u64().unwrap(),
        col: v["col"].as_u64().unwrap(),
        count: v["count"].as_u64().unwrap(),
        has_count: v["has_count"].as_bool().unwrap(),
        is_region_entry: flag("region") || flag("is_region_entry"),
        is_gap: flag("is_gap"),
    }
}

fn export(json: &str) -> LlvmCovExport {
    let v: Value = serde_json::from_str(json).unwrap();
    let data = v["data"]
        .as_array()
        .unwrap()
        .iter()
        .map(|d| LlvmCovData {
            files: d["files"]
                .as_array()
                .unwrap()
                .iter()
                .map(|f| LlvmCovFileEntry {
                    filename: f["filename"].as_str().unwrap().to_string(),
                    segments: f["segments"].as_array().unwrap().iter().map(segment).collect(),
                    summary: f.get("summary").filter(|s| !s.is_null()).map(|s| LlvmCovFileSummary {
                        lines: s.get("lines").filter(|l| !l.is_null()).map(|l| LlvmCovCount {
                            count: l["count"].as_u64().unwrap(),
                            covered: l["covered"].as_u64().unwrap(),
                            notcovered: l.get("notcovered").and_then(|n| n.as_u64()),
                        }),
                    }),
                })
                .collect(),
        })
        .collect();
    LlvmCovExport { data }
}

#[test]
fn parse_llvm_cov_json_empty_data() {
    let json = r#"{"data":[{"files":[]}]}"#;
    assert!(coverage_totals(&export(json)).is_empty());
}

#[test]
fn parse_llvm_cov_json_with_files() {
    let json = r#"{
        "data": [{
            "files": [{
                "filename": "src/lib.rs",
                "segments": [],
                "summary": {
                    "lines": {"count": 10, "covered": 8, "notcovered": 2, "percent": 80.0}
                }
            }]
        }]
    }"#;
    let files = coverage_totals(&export(json));
    assert_eq!(files.len(), 1);
    assert_eq!(files[0].path, "src/lib.rs");
    assert_eq!(files[0].lines, 10);
    assert_eq!(files[0].covered, 8);
}

#[test]
fn extract_gaps_finds_uncovered_segments() {
    let json = r#"{
        "data": [{
            "files": [{
                "filename": "src/lib.rs",
                "segments": [
                    {"line": 5, "col": 1, "count": 0, "has_count": true},
                    {"line": 10, "col": 1, "count": 3, "has_count": true},
                    {"line": 15, "col": 5, "count": 0, "has_count": true, "region": 1}
                ]
            }]
        }]
    }"#;
    let gaps = extract_gaps(&export(json));
    assert_eq!(gaps.len(), 2);
    assert_eq!(gaps[0].line, 5);
    assert!(!gaps[0].is_branch);
    assert_eq!(gaps[1].line, 15);
    assert!(gaps[1].is_branch);
}

#[test]
fn extract_gaps_skips_segments_without_count() {
    let json = r#"{
        "data": [{
            "files": [{
                "filename": "src/lib.rs",
                "segments": [
                    {"line": 1, "col": 1, "count": 0, "has_count": false}
                ]
            }]
        }]
    }"#;
    assert!(extract_gaps(&export(json)).is_empty());
}

#[test]
fn extract_gaps_multiple_files() {
    let json = r#"{
        "data": [{
            "files": [
                {"filename": "a.rs", "segments": [{"line": 1, "col": 1, "count": 0, "has_count": true}]},
                {"filename": "b.rs", "segments": [{"line": 2, "col": 1, "count": 0, "has_count": true}]}
            ]
        }]
    }"#;
    let gaps = extract_gaps(&export(json));
    assert_eq!(gaps.len(), 2);
    assert_eq!(gaps[0].file_path, "a.rs");
    assert_eq!(gaps[1].file_path, "b.rs");
}

#[test]
fn parse_llvm_cov_json_no_summary() {
    let json = r#"{
        "data": [{
            "files": [{
                "filename": "src/lib.rs",
                "segments": [],
                "summary": null
            }]
        }]
    }"#;
    let files = coverage_totals(&export(json));
    assert_eq!(files.len(), 1);
    assert_eq!(files[0].lines, 0);
}

#[test]
fn extract_gaps_skips_covered_segments() {
    let json = r#"{
        "data": [{
            "files": [{
                "filename": "src/lib.rs",
                "segments": [
                    {"line": 5, "col": 1, "count": 10, "has_count": true}
                ]
            }]
        }]
    }"#;
    assert!(extract_gaps(&export(json)).is_empty());
}

#[test]
fn parse_llvm_cov_json_aggregates_multiple_data_entries() {
    let json = r#"{
        "data": [
            {"files": [{"filename": "a.rs", "segments": [], "summary": {"lines": {"count": 5, "covered": 3, "notcovered": 2, "percent": 60.0}}}]},
            {"files": [{"filename": "b.rs", "segments": [], "summary": {"lines": {"count": 10, "covered": 10, "notcovered": 0, "percent": 100.0}}}]}
        ]
    }"#;
    assert_eq!(coverage_totals(&export(json)).len(), 2);
}

#[test]
fn coverage_totals_sum_entries_of_one_file() {
    let json = r#"{
        "data": [
            {"files": [{"filename": "a.rs", "segments": [[3, 1, 0, true, false, false], [4, 2, 0, true, false, true]], "summary": {"lines": {"count": 5, "covered": 3, "percent": 60.0}}}]},
            {"files": [{"filename": "a.rs", "segments": [], "summary": {"lines": {"count": 0, "covered": 1, "notcovered": 4, "percent": 0.0}}}]}
        ]
    }"#;
    let e = export(json);
    let files = coverage_totals(&e);
    assert_eq!(files.len(), 1);
    assert_eq!(files[0].lines, 5);
    assert_eq!(files[0].covered, 4);
    assert_eq!(files[0].not_covered, 6);
    assert_eq!(files[0].percent_basis, Some((3, 5)));
    let gaps = extract_gaps(&e);
    assert_eq!(gaps.len(), 1);
    assert_eq!(gaps[0].column_start, Some(1));
    assert_eq!(gaps[0].column_end, None);
}

fn outcome(v: &Value) -> ScenarioOutcome {
    let scenario = match &v["scenario"] {
        Value::String(s) if s == "baseline" => Scenario::Baseline,
        s => {
            let m = &s["mutant"];
            let lc = |x: &Value| LineCol { line: x["line"].as_u64().unwrap() as u32, column: x["column"].as_u64().unwrap() as u32 };
            Scenario::Mutant(MutantInfo {
                name: m["name"].as_str().unwrap().to_string(),
                file: m["file"].as_str().unwrap().to_string(),
                function: m.get("function").filter(|f| !f.is_null()).map(|f| FunctionInfo {
                    function_name: f["function_name"].as_str().unwrap().to_string(),
                }),
                span: SpanInfo { start: lc(&m["span"]["start"]), end: lc(&m["span"]["end"]) },
                replacement: m["replacement"].as_str().unwrap().to_string(),
                genre: match m["genre"].as_str().unwrap() {
                    "fn_value" => GenreInfo::FnValue,
                    "binary_operator" => GenreInfo::BinaryOperator,
                    "unary_operator" => GenreInfo::UnaryOperator,
                    "match_arm" => GenreInfo::MatchArm,
                    "match_arm_guard" => GenreInfo::MatchArmGuard,
                    _ => GenreInfo::StructField,
                },
            })
        },
    };
    let summary = match v["summary"].as_str().unwrap() {
        "success" => SummaryOutcome::Success,
        "caught_mutant" => SummaryOutcome::CaughtMutant,
        "missed_mutant" => SummaryOutcome::MissedMutant,
        "unviable" => SummaryOutcome::Unviable,
        "failure" => SummaryOutcome::Failure,
        _ => SummaryOutcome::Timeout,
    };
    ScenarioOutcome {
        scenario,
        summary,
        diff_path: v.get("diff_path").and_then(|d| d.as_str()).map(|d| d.to_string()),
    }
}

fn lab(json: &str) -> LabOutcome {
    let v: Value = serde_json::from_str(json).unwrap();
    LabOutcome {
        outcomes: v["outcomes"].as_array().unwrap().iter().map(outcome).collect(),
        total_mutants: v["total_mutants"].as_u64().unwrap() as usize,
        missed: v["missed"].as_u64().unwrap() as usize,
        caught: v["caught"].as_u64().unwrap() as usize,
        timeout: v["timeout"].as_u64().unwrap() as usize,
    }
}

fn report_of(json: &str) -> MutationReport {
    let l = lab(json);
    let diffs: Vec<Option<String>> = l.outcomes.iter().map(|_| None).collect();
    parse_outcomes(&l, &diffs)
}

fn outcomes_json_with_surviving() -> &'static str {
    r#"{
        "outcomes": [
            {"scenario": "baseline", "summary": "success", "phase_results": []},
            {
                "scenario": {"mutant": {
                    "name": "replace_arithmetic_operator",
                    "package": "my_pkg",
                    "file": "src/lib.rs",
                    "function": {"function_name": "add", "return_type": "i32", "span": {"start": {"line": 1, "column": 1}, "end": {"line": 3, "column": 2}}},
                    "span": {"start": {"line": 2, "column": 5}, "end": {"line": 2, "column": 6}},
                    "replacement": "-",
                    "genre": "binary_operator"
                }},
                "summary": "missed_mutant",
                "diff_path": null,
                "phase_results": []
            }
        ],
        "total_mutants": 2,
        "missed": 1,
        "caught": 1,
        "timeout": 0
    }"#
}

#[test]
fn parse_outcomes_finds_surviving_mutant() {
    let report = report_of(outcomes_json_with_surviving());
    assert_eq!(report.total, 2);
    assert_eq!(report.survived, 1);
    assert_eq!(report.killed, 1);
    assert_eq!(report.timeout, 0);
    assert_eq!(report.mutants.len(), 1);
    let m = &report.mutants[0];
    assert_eq!(m.file_path, "src/lib.rs");
    assert_eq!(m.line, 2);
    assert_eq!(m.replacement, "-");
    assert_eq!(m.col_start, Some(5));
    assert_eq!(m.col_end, Some(6));
    assert_eq!(m.mutation_type, MutationKind::ReplaceOperator);
    assert_eq!(m.original, "");
}

#[test]
fn parse_outcomes_empty() {
    let json = r#"{"outcomes": [], "total_mutants": 0, "missed": 0, "caught": 0, "timeout": 0}"#;
    let report = report_of(json);
    assert_eq!(report.total, 0);
    assert!(report.mutants.is_empty());
}

#[test]
fn parse_outcomes_skips_baseline() {
    let json = r#"{
        "outcomes": [{"scenario": "baseline", "summary": "success", "phase_results": []}],
        "total_mutants": 0, "missed": 0, "caught": 0, "timeout": 0
    }"#;
    assert!(report_of(json).mutants.is_empty());
}

#[test]
fn parse_outcomes_skips_caught_mutant() {
    let json = r#"{
        "outcomes": [
            {
                "scenario": {"mutant": {
                    "name": "replace_arithmetic_operator",
                    "package": "pkg",
                    "file": "src/lib.rs",
                    "span": {"start": {"line": 1, "column": 1}, "end": {"line": 1, "column": 2}},
                    "replacement": "-",
                    "genre": "binary_operator"
                }},
                "summary": "caught_mutant",
                "phase_results": []
            }
        ],
        "total_mutants": 1, "missed": 0, "caught": 1, "timeout": 0
    }"#;
    let report = report_of(json);
    assert!(report.mutants.is_empty());
    assert_eq!(report.killed, 1);
}

#[test]
fn parse_outcomes_fn_value_mutation_kind() {
    let json = r#"{
        "outcomes": [
            {
                "scenario": {"mutant": {
                    "name": "void_return_value",
                    "package": "pkg",
                    "file": "src/lib.rs",
                    "function": {"function_name": "foo", "return_type": "i32", "span": {"start": {"line": 1, "column": 1}, "end": {"line": 3, "column": 2}}},
                    "span": {"start": {"line": 2, "column": 5}, "end": {"line": 2, "column": 6}},
                    "replacement": "()",
                    "genre": "fn_value"
                }},
                "summary": "missed_mutant",
                "phase_results": []
            }
        ],
        "total_mutants": 1, "missed": 1, "caught": 0, "timeout": 0
    }"#;
    let report = report_of(json);
    assert_eq!(report.mutants[0].mutation_type, MutationKind::VoidReturnValue);
    assert_eq!(report.mutants[0].original, "fn foo() { ... }");
}

#[test]
fn parse_outcomes_multiple_surviving() {
    let json = r#"{
        "outcomes": [
            {
                "scenario": {"mutant": {"name": "replace_arithmetic_operator", "package": "pkg", "file": "a.rs",
                    "span": {"start": {"line": 1, "column": 1}, "end": {"line": 1, "column": 2}},
                    "replacement": "-", "genre": "binary_operator"}},
                "summary": "missed_mutant", "phase_results": []
            },
            {
                "scenario": {"mutant": {"name": "remove_statement", "package": "pkg", "file": "b.rs",
                    "span": {"start": {"line": 5, "column": 1}, "end": {"line": 5, "column": 10}},
                    "replacement": "", "genre": "match_arm"}},
                "summary": "missed_mutant", "phase_results": []
            }
        ],
        "total_mutants": 2, "missed": 2, "caught": 0, "timeout": 0
    }"#;
    let report = report_of(json);
    assert_eq!(report.mutants.len(), 2);
    assert_eq!(report.mutants[1].mutation_type, MutationKind::RemoveStmt);
}

#[test]
fn diff_files_only_for_survivors() {
    let json = r#"{
        "outcomes": [
            {"scenario": {"mutant": {"name": "n", "package": "p", "file": "a.rs",
                "span": {"start": {"line": 1, "column": 1}, "end": {"line": 1, "column": 2}},
                "replacement": "-", "genre": "binary_operator"}},
             "summary": "missed_mutant", "diff_path": "diff/1.diff", "phase_results": []},
            {"scenario": {"mutant": {"name": "n", "package": "p", "file": "a.rs",
                "span": {"start": {"line": 1, "column": 1}, "end": {"line": 1, "column": 2}},
                "replacement": "-", "genre": "binary_operator"}},
             "summary": "caught_mutant", "diff_path": "diff/2.diff", "phase_results": []}
        ],
        "total_mutants": 2, "missed": 1, "caught": 1, "timeout": 0
    }"#;
    let l = lab(json);
    assert_eq!(diff_file_for(&l.outcomes[0], "/w/mutants.out"), Some("/w/mutants.out/diff/1.diff".to_string()));
    assert_eq!(diff_file_for(&l.outcomes[1], "/w/mutants.out"), None);
    let diffs = vec![Some("+  a - b\n".to_string()), None];
    let report = parse_outcomes(&l, &diffs);
    assert_eq!(report.mutants.len(), 1);
    assert!(report.mutants[0].diff_hunk.as_ref().unwrap().contains("a - b"));
}

#[test]
fn rust_sources_and_relative_paths() {
    assert!(is_rust_source("src/main.rs"));
    assert!(is_rust_source("/p/src/lib.rs/"));
    assert!(!is_rust_source("src/main.rsx"));
    assert!(!is_rust_source(".rs"));
    assert!(is_rust_source("..rs"));
    assert!(!is_rust_source("Cargo.toml"));
    assert!(!is_rust_source("src/.."));
    assert_eq!(relative_path("/proj/src/a.rs", "/proj"), "src/a.rs");
    assert_eq!(relative_path("/other/a.rs", "/proj"), "/other/a.rs");
    assert_eq!(scoped_target("/proj/src/a.rs", "/proj"), Some("src/a.rs".to_string()));
    assert_eq!(scoped_target("/proj/README.md", "/proj"), None);
}

#[test]
fn gaps_for_file_match_by_relative_path_or_suffix() {
    let gaps = vec![gap("/proj/src/a.rs", 1, false), gap("src/a.rs", 2, false), gap("/proj/src/b.rs", 3, false), gap("a.rs", 4, false)];
    let mine = gaps_for_file(&gaps, "/proj", "/proj/src/a.rs");
    let lines: Vec<u32> = mine.iter().map(|g| g.line).collect();
    assert_eq!(lines, vec![1, 2, 4]);
    let rel = gaps_for_file(&gaps, "/proj", "src/a.rs");
    let lines: Vec<u32> = rel.iter().map(|g| g.line).collect();
    assert_eq!(lines, vec![1, 2, 4]);
}

#[test]
fn scoped_findings_adds_mutants_on_covered_lines() {
    let file_gaps = vec![gap("src/a.rs", 3, false)];
    let matrix = CoverageMatrix::from_gaps(&file_gaps);
    let report = MutationReport {
        mutants: vec![mutant("src/a.rs", 3), mutant("src/a.rs", 4)],
        total: 2,
        survived: 2,
        killed: 0,
        timeout: 0,
    };
    let with = scoped_findings(&file_gaps, &matrix, Some(&report));
    assert_eq!(with.len(), 2);
    assert!(with[0].message.starts_with("uncovered line"));
    assert!(with[1].message.starts_with("surviving mutation"));
    assert_eq!(with[1].spans[0].line_start, 4);
    assert_eq!(scoped_findings(&file_gaps, &matrix, None).len(), 1);
}

#[test]
fn group_by_file_groups_spans() {
    let diags = coverage_to_diagnostics(&[gap("a.rs", 1, false), gap("b.rs", 2, false), gap("a.rs/", 3, false)]);
    let groups = group_by_file(&diags);
    assert_eq!(groups.len(), 2);
    assert_eq!(groups[0].0, "a.rs");
    assert_eq!(groups[0].1, vec![0, 2]);
    assert_eq!(groups[1].0, "b.rs");
    assert_eq!(groups[1].1, vec![1]);
}

#[test]
fn requests_filter_by_substring() {
    let entries = vec![entry("/p/src/a.rs", "1"), entry("/p/src/b.rs", "2")];
    assert_eq!(entries_for_request(&entries, Some("a.rs")).len(), 1);
    assert_eq!(entries_for_request(&entries, Some("src/")).len(), 2);
    assert_eq!(entries_for_request(&entries, None).len(), 2);
    assert!(entries_for_request(&entries, Some("zzz")).is_empty());
}

fn cache_entry(file: &str, json: &str) -> DiagnosticEntry {
    DiagnosticEntry { file_path: file.to_string(), diagnostics_json: json.to_string(), timestamp: 100 }
}

fn cache_record(e: &DiagnosticEntry) -> String {
    format!(
        "{{\"file_path\":\"{}\",\"diagnostics_json\":\"{}\",\"timestamp\":{}}}",
        e.file_path, e.diagnostics_json, e.timestamp
    )
}

fn write_then_read(entries: &[DiagnosticEntry]) -> Vec<String> {
    let records: Vec<String> = entries.iter().map(cache_record).collect();
    Cache::read_records(&Cache::frame_records(&records))
}

#[test]
fn write_and_read_entries() {
    let entries = vec![cache_entry("src/a.rs", "[{}]"), cache_entry("src/b.rs", "[{},{}]")];
    let read = write_then_read(&entries);
    assert_eq!(read.len(), 2);
    assert_eq!(read[0], cache_record(&entries[0]));
    assert_eq!(read[1], cache_record(&entries[1]));
}

#[test]
fn read_from_empty_dir_returns_empty() {
    assert!(Cache::read_records("").is_empty());
}

#[test]
fn invalidate_removes_matching_entries() {
    let entries =
        vec![cache_entry("src/a.rs", "[{}]"), cache_entry("src/b.rs", "[{}]"), cache_entry("src/c.rs", "[{}]")];
    let read = Cache::invalidate(&entries, &["src/b.rs".to_string()]).unwrap_or(entries.clone());
    assert_eq!(read.len(), 2);
    assert!(read.iter().all(|e| e.file_path != "src/b.rs"));
}

#[test]
fn invalidate_noop_for_missing_file() {
    let entries = vec![cache_entry("src/a.rs", "[{}]")];
    let read = Cache::invalidate(&entries, &["src/missing.rs".to_string()]).unwrap_or(entries.clone());
    assert_eq!(read.len(), 1);
}

#[test]
fn upsert_replaces_existing_entry() {
    let read = Cache::upsert_entries(&[cache_entry("src/a.rs", "old")], &[cache_entry("src/a.rs", "new")]);
    assert_eq!(read.len(), 1);
    assert_eq!(read[0].diagnostics_json, "new");
}

#[test]
fn upsert_adds_new_entry_without_removing_others() {
    let read = Cache::upsert_entries(&[cache_entry("src/a.rs", "[{}]")], &[cache_entry("src/b.rs", "[{}]")]);
    assert_eq!(read.len(), 2);
}

#[test]
fn upsert_multiple_entries() {
    let read = Cache::upsert_entries(
        &[cache_entry("src/a.rs", "1"), cache_entry("src/b.rs", "2")],
        &[cache_entry("src/a.rs", "1a"), cache_entry("src/c.rs", "3")],
    );
    assert_eq!(read.len(), 3);
    let a = read.iter().find(|e| e.file_path == "src/a.rs").unwrap();
    assert_eq!(a.diagnostics_json, "1a");
}

#[test]
fn upsert_empty_is_noop() {
    let read = Cache::upsert_entries(&[cache_entry("src/a.rs", "[{}]")], &[]);
    assert_eq!(read.len(), 1);
}


fn code_of(d: &Diagnostic) -> &str {
    d.code.as_ref().map(|c| c.code.as_str()).unwrap_or("")
}

#[test]
fn pipeline_file_scoped_caches_diagnostics() {
    let root = "/tmp/project";
    let cov_gaps = vec![gap("src/lib.rs", 3, false)];
    let mut surviving = mutant("src/lib.rs", 5);
    surviving.col_end = Some(2);
    let mut_report = MutationReport { mutants: vec![surviving], total: 1, survived: 1, killed: 0, timeout: 0 };
    let diags = match file_scoped_update("src/lib.rs", root, Some(&cov_gaps), Some(&mut_report)) {
        ScopedUpdate::Store(file, diags) => {
            assert_eq!(file, "src/lib.rs");
            diags
        }
        ScopedUpdate::Invalidate(file) => panic!("unexpected invalidation of {file}"),
    };
    let entries = Cache::upsert_entries(&[], &[entry("src/lib.rs", "[..]")]);
    assert_eq!(entries.len(), 1);
    assert!(!diags.is_empty());
    assert!(diags.iter().any(|d| code_of(d) == "CTL_COVERAGE"), "expected CTL_COVERAGE diagnostic");
    assert!(diags.iter().any(|d| code_of(d) == "CTL_MUTANT"), "expected CTL_MUTANT diagnostic");
}

#[test]
fn pipeline_full_sweep_caches_diagnostics() {
    let cov_gaps = vec![gap("src/lib.rs", 3, false)];
    let mut_report = MutationReport { mutants: vec![], total: 5, survived: 0, killed: 5, timeout: 0 };
    let matrix = CoverageMatrix::from_gaps(&cov_gaps);
    let mut all = coverage_to_diagnostics(&cov_gaps);
    all.extend(mutant_to_diagnostics(&matrix.filter_mutant_targets(&mut_report.mutants)));
    let groups = group_by_file(&all);
    assert_eq!(groups.len(), 1);
    assert_eq!(groups[0].0, "src/lib.rs");
    assert_eq!(groups[0].1.len(), 1);
    assert_eq!(code_of(&all[groups[0].1[0]]), "CTL_COVERAGE");
}

#[test]
fn pipeline_file_scoped_cleans_cache_when_clean() {
    let root = "/tmp/project";
    let file_path = "/tmp/project/src/lib.rs";
    let cached = vec![entry(file_path, "[{}]")];
    let update = file_scoped_update(file_path, root, Some(&[]), Some(&MutationReport::empty()));
    let ScopedUpdate::Invalidate(file) = update else { panic!("expected an invalidation") };
    let entries = Cache::invalidate(&cached, &[file]).unwrap_or(cached.clone());
    assert!(entries.is_empty(), "entry should be invalidated when file is clean");
}

#[test]
fn pipeline_serve_ipc_round_trip() {
    let cov_gaps = vec![gap("src/lib.rs", 3, false)];
    let all = coverage_to_diagnostics(&cov_gaps);
    let groups = group_by_file(&all);
    let entries: Vec<DiagnosticEntry> = groups.iter().map(|(f, _)| entry(f, "[..]")).collect();
    let answer = entries_for_request(&entries, None);
    assert_eq!(answer.len(), 1);
    assert_eq!(groups[0].1.len(), 1);
    assert_eq!(code_of(&all[groups[0].1[0]]), "CTL_COVERAGE");
}

#[test]
fn pipeline_serve_ipc_file_filter() {
    let entries = vec![entry("src/lib.rs", "[]"), entry("src/main.rs", "[]")];
    let answer = entries_for_request(&entries, Some("main.rs"));
    assert_eq!(answer.len(), 1);
    assert_eq!(answer[0].file_path, "src/main.rs");
}

#[test]
fn sweep_findings_lists_gaps_then_covered_mutants() {
    let gaps = vec![gap("src/a.rs", 3, false), gap("src/b.rs", 1, true)];
    let report = MutationReport {
        mutants: vec![mutant("src/a.rs", 3), mutant("src/a.rs", 9), mutant("src/c.rs", 1)],
        total: 3,
        survived: 3,
        killed: 0,
        timeout: 0,
    };
    let ds = cargo_test_lint::daemon::pipeline::sweep_findings(&gaps, &report);
    assert_eq!(ds.len(), 4);
    assert_eq!(code_of(&ds[0]), "CTL_COVERAGE");
    assert_eq!(code_of(&ds[1]), "CTL_COVERAGE");
    assert_eq!(code_of(&ds[2]), "CTL_MUTANT");
    assert_eq!(ds[2].spans[0].line_start, 9);
    assert_eq!(ds[3].spans[0].file_name, "src/c.rs");
}
