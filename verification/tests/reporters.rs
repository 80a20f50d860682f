use cargo_rustics::ai_report::{
    ai_default_options, justified_block, render_report as render_ai, violation_entry, Justified,
    ReportOptions, ViolationEntry,
};
use cargo_rustics::console::{
    justified_suffix, render_report as render_console, scope_kind_short, severity_tag,
    ConsoleCounts, ConsoleEntry, Row,
};
use cargo_rustics::report::{
    scope_kind_word, severity_word, JustificationBasis, ScopeKind, Severity, StaleDismissal,
    Summary,
};
use cargo_rustics::unused::UnusedItem;

fn summary(files: usize, violations: usize, warnings: usize) -> Summary {
    Summary {
        files_analyzed: files,
        violations,
        warnings,
        errors: 0,
        warnings_justified: 0,
        errors_justified: 0,
    }
}

fn entry(metric: &str, value: &str, rationale: Option<&str>) -> ViolationEntry {
    ViolationEntry {
        id: "abc".into(),
        file: "x.rs".into(),
        line: 1,
        scope: "f".into(),
        scope_kind: ScopeKind::FreeFunction,
        metric: metric.into(),
        value: value.into(),
        threshold: "10".into(),
        severity: Severity::Warning,
        justified: None,
        rationale: rationale.map(String::from),
        refactor_hints: vec![],
        references: vec![],
        rust_context: String::new(),
    }
}

fn unused_item(name: &str, parent: Option<&str>) -> UnusedItem {
    UnusedItem {
        file: "src/u.rs".into(),
        line: 7,
        name: name.into(),
        kind: "fn".into(),
        parent: parent.map(String::from),
    }
}

fn ai(entries: &[ViolationEntry], unused: &[UnusedItem]) -> String {
    render_ai(
        1,
        "T",
        &summary(1, entries.len(), entries.len()),
        entries,
        unused,
        &[],
        0,
        &ai_default_options(),
    )
}

#[test]
fn header_is_first_line() {
    let s = ai(&[], &[]);
    assert!(s.starts_with("# rustics ai-report v1\n"));
}

#[test]
fn empty_violations_emit_inline_list() {
    let s = ai(&[], &[]);
    assert!(s.contains("violations: []"));
    assert_eq!(
        s,
        "# rustics ai-report v1\nversion: 1\ngeneratedAt: T\nsummary:\n  filesAnalyzed: 1\n  \
         violations: 0\n  warnings: 0\n  errors: 0\nviolations: []\n"
    );
}

#[test]
fn violation_block_renders_every_field() {
    let mut e = entry("cyclomatic-complexity", "14", Some("Multi\nline"));
    e.id = "abcd".into();
    e.file = "src/x.rs".into();
    e.line = 10;
    e.scope = "x::f".into();
    e.refactor_hints = vec!["hint a".into(), "hint b".into()];
    e.references = vec!["ref a".into()];
    let s = ai(&[e], &[]);
    assert!(s.contains("- id: abcd"));
    assert!(s.contains("severity: warning"));
    assert!(s.contains("explain: |"));
    assert!(s.contains("      Multi"));
    assert!(s.contains("      line"));
    assert!(s.contains("      - hint a"));
    assert!(s.contains(
        "  - id: abcd\n    file: src/x.rs\n    line: 10\n    scope: x::f\n    scopeKind: free-function\n    \
         metric: cyclomatic-complexity\n    value: 14\n    threshold: 10\n    severity: warning\n"
    ));
    assert!(s.contains("    references:\n      - ref a\n"));
}

#[test]
fn no_auto_explain_suppresses_rationale_and_hints() {
    let mut e = entry("cyclomatic-complexity", "25", Some("EXPENSIVE explanation that costs tokens"));
    e.refactor_hints = vec!["a hint".into()];
    e.references = vec!["a ref".into()];
    let s = violation_entry(&e, &ReportOptions::default());
    assert!(!s.contains("explain:"), "rationale must be suppressed");
    assert!(!s.contains("refactorHints"));
    assert!(!s.contains("references"));
    assert!(s.contains("    metric: cyclomatic-complexity"));
}

#[test]
fn explain_metrics_re_enables_inline_for_named_lens() {
    let e = entry("panic-density", "7", Some("panic explanation"));
    let opts = ReportOptions {
        auto_explain: false,
        explain_metrics: vec!["panic-density".to_string()],
    };
    let s = violation_entry(&e, &opts);
    assert!(s.contains("panic explanation"));
}

#[test]
fn severity_word_covers_each_variant() {
    assert_eq!(severity_word(Severity::Error), "error");
    assert_eq!(severity_word(Severity::Warning), "warning");
    assert_eq!(severity_word(Severity::Info), "info");
}

#[test]
fn complexity_justified_branch_basis_renders_word_branch() {
    let s = justified_block(JustificationBasis::Branch, "0.8", "0.85");
    assert!(s.contains("      by: branch"));
    assert!(s.contains("      threshold: 0.8"));
}

#[test]
fn unused_block_renders_each_item_with_optional_parent() {
    let s = ai(&[], &[unused_item("variant", Some("Color")), unused_item("orphan", None)]);
    assert!(s.contains("unused:"), "got: {s}");
    assert!(s.contains("    name: variant"), "got: {s}");
    assert!(s.contains("    parent: Color"), "got: {s}");
    assert!(s.contains("    name: orphan"), "got: {s}");
    let orphan_section = s.split("name: orphan").nth(1).unwrap_or("");
    let next_item_break = orphan_section.find("  - file:").unwrap_or(orphan_section.len());
    assert!(
        !orphan_section[..next_item_break].contains("parent:"),
        "orphan item should have no parent line, got: {orphan_section}"
    );
}

#[test]
fn summary_unused_count_appears_only_when_nonzero() {
    let s_with = ai(&[], &[unused_item("orphan", None)]);
    let s_without = ai(&[], &[]);
    assert!(s_with.contains("  unused: 1"), "got: {s_with}");
    assert!(!s_without.contains("  unused:"), "got: {s_without}");
}

#[test]
fn complexity_justified_block_renders_under_violation() {
    let mut e = entry("cyclomatic-complexity", "25", None);
    e.justified = Some(Justified {
        by: JustificationBasis::Line,
        threshold: "0.95".into(),
        actual: "0.965".into(),
    });
    let s = violation_entry(&e, &ai_default_options());
    assert!(s.contains("    complexityJustified:"));
    assert!(s.contains("      by: line"));
    assert!(s.contains("      threshold: 0.95"));
    assert!(s.contains("      actual: 0.965"));
}

#[test]
fn stale_dismissals_and_truncation_close_the_report() {
    let stale = [StaleDismissal {
        file: "src/a.rs".into(),
        scope: "a::f".into(),
        metric: "cyclomatic-complexity".into(),
        reason: "fixed: now".into(),
    }];
    let s = render_ai(1, "T", &summary(1, 0, 0), &[], &[], &stale, 3, &ai_default_options());
    assert!(s.ends_with(
        "staleDismissals:\n  - file: src/a.rs\n    scope: a::f\n    metric: cyclomatic-complexity\n    \
         reason: \"fixed: now\"\ntruncated: 3\n"
    ));
}

#[test]
fn scope_kind_word_covers_each_variant() {
    assert_eq!(scope_kind_word(ScopeKind::FreeFunction), "free-function");
    assert_eq!(scope_kind_word(ScopeKind::Method), "method");
    assert_eq!(scope_kind_word(ScopeKind::TraitMethod), "trait-method");
    assert_eq!(scope_kind_word(ScopeKind::Module), "module");
    assert_eq!(scope_kind_word(ScopeKind::ImplBlock), "impl-block");
    assert_eq!(scope_kind_word(ScopeKind::TraitDef), "trait-def");
}

// ---- console ------------------------------------------------------------

fn row(metric: &str, file: &str, line: usize, value: &str) -> Row {
    Row {
        severity: Severity::Warning,
        kind: ScopeKind::FreeFunction,
        file: file.into(),
        line,
        scope: "f".into(),
        metric: metric.into(),
        value: value.into(),
        threshold: "10".into(),
        suffix: String::new(),
    }
}

fn console_entry(metric: &str, rationale: Option<&str>, hints: &[&str]) -> ConsoleEntry {
    ConsoleEntry {
        row: row(metric, "src/a.rs", 1, "11"),
        rationale: rationale.map(String::from),
        refactor_hints: hints.iter().map(|s| s.to_string()).collect(),
    }
}

fn counts(files: usize, violations: usize) -> ConsoleCounts {
    ConsoleCounts {
        files_analyzed: files,
        violations,
        warnings: violations,
        errors: 0,
    }
}

#[test]
fn clean_run_says_clean() {
    let s = render_console(counts(7, 0), &[], &[], &ReportOptions::default());
    assert!(s.contains("clean"));
    assert!(s.contains("7 files"));
    assert_eq!(s, "rustics: clean. 7 files analysed.\n");
}

#[test]
fn violations_emit_one_line_each() {
    let e = ConsoleEntry {
        row: row("cyclomatic-complexity", "src/a.rs", 42, "14"),
        rationale: None,
        refactor_hints: vec![],
    };
    let s = render_console(counts(1, 1), &[e], &[], &ReportOptions::default());
    assert!(s.contains("WARN"));
    assert!(s.contains("src/a.rs:42"));
    assert!(s.contains("cyclomatic-complexity"));
    assert!(s.contains("14"));
    assert_eq!(
        s,
        "rustics \u{2014} 1 violation(s):\n  WARN    fn      src/a.rs:42     f  cyclomatic-complexity  14 (>10)\n\
         summary: 1 files, 1 warnings, 0 errors, 0 unused\n"
    );
}

#[test]
fn info_severity_renders_with_info_tag() {
    let mut e = console_entry("clippy::needless_borrow", None, &[]);
    e.row.severity = Severity::Info;
    let s = render_console(counts(1, 1), &[e], &[], &ReportOptions::default());
    assert!(s.contains("INFO"));
    assert!(s.contains("clippy::needless_borrow"));
}

#[test]
fn explain_metrics_inlines_rationale_and_hints_under_row() {
    let e = console_entry(
        "cyclomatic-complexity",
        Some("first line\nsecond line"),
        &["extract a helper", "use a match"],
    );
    let opts = ReportOptions {
        auto_explain: false,
        explain_metrics: vec!["cyclomatic-complexity".to_string()],
    };
    let s = render_console(counts(1, 1), &[e], &[], &opts);
    assert!(s.contains("      | first line"));
    assert!(s.contains("      | second line"));
    assert!(s.contains("      \u{2192} extract a helper"));
    assert!(s.contains("      \u{2192} use a match"));
}

#[test]
fn explain_metrics_does_not_fire_for_unmatched_lens() {
    let e = console_entry(
        "cyclomatic-complexity",
        Some("must not appear"),
        &["must not appear hint"],
    );
    let opts = ReportOptions {
        auto_explain: false,
        explain_metrics: vec!["clone-density".to_string()],
    };
    let s = render_console(counts(1, 1), &[e], &[], &opts);
    assert!(!s.contains("must not appear"));
    assert!(!s.contains("must not appear hint"));
}

#[test]
fn justified_suffix_renders_each_basis() {
    assert_eq!(
        justified_suffix(JustificationBasis::Line, "96.5"),
        " (justified by 96.5% line coverage)"
    );
    assert_eq!(
        justified_suffix(JustificationBasis::Branch, "85.0"),
        " (justified by 85.0% branch coverage)"
    );
}

#[test]
fn unused_block_renders_heading_and_each_item() {
    let e = console_entry("cyclomatic-complexity", None, &[]);
    let unused = [unused_item("variant", Some("Color")), unused_item("orphan", None)];
    let s = render_console(counts(1, 1), &[e], &unused, &ReportOptions::default());
    assert!(s.contains("rustics unused \u{2014} 2 candidate(s):"), "got: {s}");
    assert!(s.contains("Color::variant"), "got: {s}");
    assert!(s.contains("orphan"), "got: {s}");
    assert!(s.contains("src/u.rs:7"), "got: {s}");
    assert!(s.contains("2 unused"), "summary line missing count: {s}");
    assert!(s.contains("  fn      Color::variant \u{2014} src/u.rs:7\n"));
}

#[test]
fn unused_only_report_skips_clean_message() {
    let s = render_console(counts(7, 0), &[], &[unused_item("orphan", None)], &ReportOptions::default());
    assert!(!s.contains("clean"));
    assert!(s.contains("rustics unused \u{2014} 1 candidate(s):"));
}

#[test]
fn scope_kind_short_covers_every_variant() {
    assert_eq!(scope_kind_short(ScopeKind::FreeFunction), "fn    ");
    assert_eq!(scope_kind_short(ScopeKind::Method), "method");
    assert_eq!(scope_kind_short(ScopeKind::TraitMethod), "trait ");
    assert_eq!(scope_kind_short(ScopeKind::Module), "module");
    assert_eq!(scope_kind_short(ScopeKind::ImplBlock), "impl  ");
    assert_eq!(scope_kind_short(ScopeKind::TraitDef), "tdef  ");
    assert_eq!(severity_tag(Severity::Error), "ERROR ");
}

#[test]
fn justified_violations_show_coverage_suffix() {
    let mut e = console_entry("cyclomatic-complexity", None, &[]);
    e.row.suffix = justified_suffix(JustificationBasis::Line, "96.5");
    let s = render_console(counts(1, 1), &[e], &[], &ReportOptions::default());
    assert!(s.contains("(justified by 96.5% line coverage)"));
}

#[test]
fn columns_pad_to_the_widest_entry() {
    let a = ConsoleEntry {
        row: row("m", "src/long_name.rs", 3, "1"),
        rationale: None,
        refactor_hints: vec![],
    };
    let b = ConsoleEntry {
        row: row("metric-b", "b.rs", 12345, "2"),
        rationale: None,
        refactor_hints: vec![],
    };
    let s = render_console(counts(2, 2), &[a, b], &[], &ReportOptions::default());
    let lines: Vec<&str> = s.lines().collect();
    assert_eq!(lines[1], "  WARN    fn      src/long_name.rs:3      f  m         1 (>10)");
    assert_eq!(lines[2], "  WARN    fn      b.rs            :12345  f  metric-b  2 (>10)");
}
