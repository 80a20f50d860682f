use cargo_rustics::analyze::file_to_module_prefix;
use cargo_rustics::dismissal::{
    is_valid_metric_id, merge_with_sidecar, parse_directive_line, rejected_line, stale_line, Dismissal,
    DismissalIndex,
    DismissalRules, DismissalsFile,
};
use cargo_rustics::report::Summary;

fn dismissal(file: &str, scope: &str, metric: &str, reason: &str) -> Dismissal {
    Dismissal {
        file: file.into(),
        scope: scope.into(),
        metric: metric.into(),
        reason: reason.into(),
        by: None,
        at: None,
    }
}

#[test]
fn matching_dismissal_filters_violation() {
    let file = DismissalsFile {
        dismissals: vec![dismissal(
            "src/x.rs",
            "f",
            "cyclomatic-complexity",
            "twenty character reason here",
        )],
    };
    let mut idx = DismissalIndex::new(&file, DismissalRules::default(), false);
    assert!(idx.matches("src/x.rs", "f", "cyclomatic-complexity"));
}

#[test]
fn unmatched_violation_passes_through() {
    let file = DismissalsFile {
        dismissals: vec![dismissal(
            "src/other.rs",
            "f",
            "cyclomatic-complexity",
            "twenty character reason here",
        )],
    };
    let mut idx = DismissalIndex::new(&file, DismissalRules::default(), false);
    assert!(!idx.matches("src/x.rs", "f", "cyclomatic-complexity"));
}

#[test]
fn short_reason_is_rejected() {
    let file = DismissalsFile {
        dismissals: vec![dismissal("src/x.rs", "f", "cc", "short")],
    };
    let mut idx = DismissalIndex::new(&file, DismissalRules::default(), false);
    assert!(!idx.matches("src/x.rs", "f", "cc"));
    let rejected = idx.rejected();
    assert_eq!(rejected.len(), 1);
    assert!(rejected[0].reason.contains("too short"));
}

#[test]
fn stale_dismissal_is_reported() {
    let file = DismissalsFile {
        dismissals: vec![dismissal(
            "src/old.rs",
            "ghost",
            "cc",
            "twenty character reason here",
        )],
    };
    let idx = DismissalIndex::new(&file, DismissalRules::default(), false);
    assert_eq!(idx.stale().len(), 1);
}

#[test]
fn strict_mode_skips_all_dismissals() {
    let file = DismissalsFile {
        dismissals: vec![dismissal(
            "src/x.rs",
            "f",
            "cc",
            "twenty character reason here",
        )],
    };
    let mut idx = DismissalIndex::new(&file, DismissalRules::default(), true);
    assert!(!idx.matches("src/x.rs", "f", "cc"));
}

#[test]
fn helper_summary_for_test_coverage() {
    let _ = Summary {
        files_analyzed: 0,
        violations: 0,
        warnings: 0,
        errors: 0,
        warnings_justified: 0,
        errors_justified: 0,
    };
}

#[test]
fn defaults_match_plan_documented_values() {
    let r = DismissalRules::default();
    assert!(r.require_reason);
    assert_eq!(r.min_reason_length, 20);
    assert!(r.warn_stale);
}

#[test]
fn warn_stale_false_returns_no_stale() {
    let file = DismissalsFile {
        dismissals: vec![dismissal(
            "src/old.rs",
            "ghost",
            "cc",
            "twenty character reason here",
        )],
    };
    let rules = DismissalRules {
        warn_stale: false,
        ..Default::default()
    };
    let idx = DismissalIndex::new(&file, rules, false);
    assert!(idx.stale().is_empty());
}

#[test]
fn used_dismissal_is_not_stale() {
    let file = DismissalsFile {
        dismissals: vec![dismissal(
            "src/x.rs",
            "f",
            "cc",
            "twenty character reason here",
        )],
    };
    let mut idx = DismissalIndex::new(&file, DismissalRules::default(), false);
    assert!(idx.matches("src/x.rs", "f", "cc"));
    assert!(idx.stale().is_empty());
}

#[test]
fn invalid_dismissal_does_not_count_toward_stale() {
    let file = DismissalsFile {
        dismissals: vec![dismissal("src/x.rs", "f", "cc", "short")],
    };
    let idx = DismissalIndex::new(&file, DismissalRules::default(), false);
    assert!(idx.stale().is_empty());
    assert_eq!(idx.rejected().len(), 1);
}

#[test]
fn parse_directive_line_extracts_metric_and_reason() {
    let line = r#" rustics:dismiss cyclomatic-complexity reason="Twenty-character reason here." "#;
    let (m, r) = parse_directive_line(line).expect("parsed");
    assert_eq!(m, "cyclomatic-complexity");
    assert_eq!(r, "Twenty-character reason here.");
}

#[test]
fn parse_directive_line_rejects_lines_without_directive_prefix() {
    let line = " See `rustics:dismiss <metric>` for syntax.";
    assert!(parse_directive_line(line).is_none());
}

#[test]
fn parse_directive_line_rejects_missing_reason_clause() {
    assert!(parse_directive_line("rustics:dismiss cyclomatic-complexity").is_none());
    assert!(parse_directive_line(r#"rustics:dismiss cyclomatic-complexity reason=foo"#).is_none());
    assert!(
        parse_directive_line(r#"rustics:dismiss cyclomatic-complexity reason="unterminated"#)
            .is_none()
    );
}

#[test]
fn parse_directive_line_handles_immediate_whitespace_after_prefix() {
    assert!(parse_directive_line("rustics:dismiss   ").is_none());
}

#[test]
fn parse_directive_line_rejects_placeholder_metric_id() {
    assert!(
        parse_directive_line(r#"rustics:dismiss <metric> reason="example reason here..." "#)
            .is_none()
    );
    assert!(
        parse_directive_line(r#"rustics:dismiss METRIC_ID reason="example reason here..."  "#)
            .is_none()
    );
}

#[test]
fn parse_directive_line_rejects_trailing_prose() {
    let line = r#"rustics:dismiss cyclomatic-complexity reason="ok"` directives are then…"#;
    assert!(parse_directive_line(line).is_none());
}

#[test]
fn is_valid_metric_id_accepts_kebab_case_only() {
    assert!(is_valid_metric_id("cyclomatic-complexity"));
    assert!(is_valid_metric_id("lcom4"));
    assert!(is_valid_metric_id("a"));
    assert!(!is_valid_metric_id(""));
    assert!(!is_valid_metric_id("UPPERCASE"));
    assert!(!is_valid_metric_id("snake_case"));
    assert!(!is_valid_metric_id("<metric>"));
    assert!(!is_valid_metric_id("with space"));
}

#[test]
fn merge_with_sidecar_is_no_op_when_no_doc_dismissals() {
    let sidecar = DismissalsFile {
        dismissals: vec![dismissal("src/x.rs", "f", "cc", "long enough reason here")],
    };
    let merged = merge_with_sidecar(sidecar, vec![]);
    assert_eq!(merged.dismissals.len(), 1);
}

#[test]
fn merge_with_sidecar_appends_doc_only_entries() {
    let sidecar = DismissalsFile {
        dismissals: vec![dismissal("src/x.rs", "f", "cc", "long enough reason here")],
    };
    let merged = merge_with_sidecar(
        sidecar,
        vec![dismissal("src/y.rs", "g", "cc", "different long reason here")],
    );
    assert_eq!(merged.dismissals.len(), 2);
}

#[test]
fn merge_with_sidecar_drops_doc_entry_on_collision() {
    let sidecar = DismissalsFile {
        dismissals: vec![dismissal("src/x.rs", "f", "cc", "sidecar reason long enough")],
    };
    let merged = merge_with_sidecar(
        sidecar,
        vec![dismissal("src/x.rs", "f", "cc", "doc reason long enough.")],
    );
    assert_eq!(merged.dismissals.len(), 1);
    assert!(merged.dismissals[0].reason.contains("sidecar"));
}

#[test]
fn file_to_module_prefix_strips_lib_main_mod() {
    assert_eq!(file_to_module_prefix("crates/foo/src/lib.rs"), "");
    assert_eq!(file_to_module_prefix("crates/foo/src/main.rs"), "");
    assert_eq!(file_to_module_prefix("crates/foo/src/baz/mod.rs"), "baz");
    assert_eq!(file_to_module_prefix("crates/foo/src/baz/qux.rs"), "baz::qux");
}

#[test]
fn sidecar_entry_wins_and_doc_entry_merges_into_index() {
    let merged = merge_with_sidecar(
        DismissalsFile::default(),
        vec![dismissal("src/lib.rs", "parse", "cyclomatic-complexity", "Long enough reason here.")],
    );
    let mut idx = DismissalIndex::new(&merged, DismissalRules::default(), false);
    assert!(idx.matches("src/lib.rs", "parse", "cyclomatic-complexity"));
    assert!(idx.stale().is_empty());
}

#[test]
fn reason_length_counts_utf8_bytes_after_trim() {
    // 7 three-byte characters = 21 bytes: long enough.
    let file = DismissalsFile {
        dismissals: vec![dismissal("a.rs", "f", "cc", "  ───────  ")],
    };
    let mut idx = DismissalIndex::new(&file, DismissalRules::default(), false);
    assert!(idx.matches("a.rs", "f", "cc"));
    assert!(idx.rejected().is_empty());
}

#[test]
fn require_reason_false_accepts_short_reasons() {
    let file = DismissalsFile {
        dismissals: vec![dismissal("a.rs", "f", "cc", "")],
    };
    let rules = DismissalRules {
        require_reason: false,
        ..Default::default()
    };
    let mut idx = DismissalIndex::new(&file, rules, false);
    assert!(idx.matches("a.rs", "f", "cc"));
}

#[test]
fn rejected_and_stale_warnings_name_the_entry() {
    let file = DismissalsFile {
        dismissals: vec![
            dismissal("src/x.rs", "f", "cc", "short"),
            dismissal("src/old.rs", "ghost", "cc", "twenty character reason here"),
        ],
    };
    let idx = DismissalIndex::new(&file, DismissalRules::default(), false);
    let rejected = idx.rejected();
    let line = rejected_line(&rejected[0]);
    assert!(line.starts_with("rustics: dismissal rejected ("));
    assert!(line.ends_with(") \u{2014} file=src/x.rs scope=f metric=cc"));
    let stale = idx.stale();
    assert_eq!(
        stale_line(stale[0]),
        "rustics: stale dismissal \u{2014} file=src/old.rs scope=ghost metric=cc"
    );
}
