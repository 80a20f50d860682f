use cargo_rustics::ai_report::{Justified, ViolationEntry};
use cargo_rustics::explain::{explain, explanation, justified_block, metric_block, severity_name};
use cargo_rustics::report::{JustificationBasis, ScopeKind, Severity};

fn sample_violation() -> ViolationEntry {
    ViolationEntry {
        id: "abc".into(),
        file: "x".into(),
        line: 1,
        scope: "f".into(),
        scope_kind: ScopeKind::FreeFunction,
        metric: "cyclomatic-complexity".into(),
        value: "11".into(),
        threshold: "10".into(),
        severity: Severity::Warning,
        justified: None,
        rationale: Some("a\nb".into()),
        refactor_hints: vec!["hint1".into()],
        references: vec!["ref1".into()],
        rust_context: String::new(),
    }
}

#[test]
fn print_helpers_drive_each_branch() {
    let v = sample_violation();
    assert_eq!(
        explanation(&v),
        "# rustics explain v1\nid: abc\nfile: x\nline: 1\nscope: f\nmetric: cyclomatic-complexity\n\
         value: 11\nthreshold: 10\nseverity: Warning\nrationale: |\n  a\n  b\nrefactorHints:\n  - hint1\n\
         references:\n  - ref1\n"
    );
    let mut bare = sample_violation();
    bare.rationale = None;
    bare.refactor_hints = vec![];
    bare.references = vec![];
    assert_eq!(
        explanation(&bare),
        "# rustics explain v1\nid: abc\nfile: x\nline: 1\nscope: f\nmetric: cyclomatic-complexity\n\
         value: 11\nthreshold: 10\nseverity: Warning\n"
    );
    assert_eq!(severity_name(Severity::Error), "Error");
    assert_eq!(severity_name(Severity::Info), "Info");
    assert_eq!(
        metric_block("s", "m", "1.5", "1", Severity::Error),
        "scope: s\nmetric: m\nvalue: 1.5\nthreshold: 1\nseverity: Error\n"
    );
}

#[test]
fn run_succeeds_when_id_is_present() {
    let vs = vec![sample_violation()];
    let text = explain(&vs, "abc").unwrap();
    assert!(text.starts_with("# rustics explain v1\nid: abc\n"));
}

#[test]
fn run_errors_when_id_is_missing() {
    let vs = vec![sample_violation()];
    let err = explain(&vs, "missing").unwrap_err();
    assert!(err.contains("not found"));
    assert_eq!(err, "violation id `missing` not found in snapshot");
}

#[test]
fn write_violation_justified_emits_block_for_line_basis() {
    let s = justified_block(JustificationBasis::Line, "0.95", "0.965");
    assert!(s.contains("complexityJustified:"));
    assert!(s.contains("  by: line"));
    assert!(s.contains("  threshold: 0.95"));
    assert!(s.contains("  actual: 0.965"));
}

#[test]
fn write_violation_justified_emits_block_for_branch_basis() {
    let s = justified_block(JustificationBasis::Branch, "0.8", "0.85");
    assert!(s.contains("  by: branch"));
    assert!(s.contains("  threshold: 0.8"));
}

#[test]
fn write_violation_justified_writes_nothing_when_unset() {
    let v = sample_violation();
    assert!(!explanation(&v).contains("complexityJustified"));
    let mut j = sample_violation();
    j.justified = Some(Justified {
        by: JustificationBasis::Line,
        threshold: "0.95".into(),
        actual: "0.965".into(),
    });
    assert!(explanation(&j).contains(
        "severity: Warning\ncomplexityJustified:\n  by: line\n  threshold: 0.95\n  actual: 0.965\nrationale: |\n"
    ));
}
