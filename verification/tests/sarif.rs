use cargo_rustics::report::{JustificationBasis, Severity};
use cargo_rustics::sarif::{sarif_level, sarif_result, sarif_rules, SarifResult};

fn fixture_result(severity: Severity) -> SarifResult {
    sarif_result("abc", "src/x.rs", 42, "f", "cyclomatic-complexity", severity, "14", "10", None)
}

#[test]
fn each_violation_becomes_a_result() {
    let r = fixture_result(Severity::Warning);
    assert_eq!(r.rule_id, "cyclomatic-complexity");
    assert_eq!(r.level, "warning");
    assert_eq!(r.fingerprint, "abc");
    assert_eq!(r.message, "cyclomatic-complexity = 14 (threshold 10) \u{2014} scope f");
    assert!(r.properties.is_none());
}

#[test]
fn rules_are_deduplicated() {
    let metrics = vec!["cyclomatic-complexity".to_string(), "cyclomatic-complexity".to_string()];
    assert_eq!(sarif_rules(&metrics).len(), 1);
}

#[test]
fn severity_word_maps_each_variant() {
    assert_eq!(sarif_level(Severity::Error), "error");
    assert_eq!(sarif_level(Severity::Warning), "warning");
    assert_eq!(sarif_level(Severity::Info), "note");
}

#[test]
fn severity_levels_render_in_results() {
    for (sev, word) in [(Severity::Error, "error"), (Severity::Warning, "warning"), (Severity::Info, "note")] {
        assert_eq!(fixture_result(sev).level, word);
    }
}

#[test]
fn collect_rules_orders_alphabetically() {
    let metrics: Vec<String> =
        ["cyclomatic-complexity", "z-late", "a-early"].iter().map(|s| s.to_string()).collect();
    assert_eq!(sarif_rules(&metrics), vec!["a-early", "cyclomatic-complexity", "z-late"]);
}

#[test]
fn empty_report_emits_no_results_or_rules() {
    assert!(sarif_rules(&[]).is_empty());
}

#[test]
fn violation_location_carries_file_and_line() {
    let r = fixture_result(Severity::Warning);
    assert_eq!(r.uri, "src/x.rs");
    assert_eq!(r.start_line, 42);
}

#[test]
fn sarif_result_carries_coverage_justification() {
    let r = sarif_result(
        "id1",
        "src/y.rs",
        3,
        "m",
        "cognitive-complexity",
        Severity::Error,
        "30",
        "25",
        Some((JustificationBasis::Line, "80", "92.5")),
    );
    let p = r.properties.expect("properties");
    assert_eq!(p.by, "line");
    assert_eq!(p.threshold, "80");
    assert_eq!(p.actual, "92.5");
}
