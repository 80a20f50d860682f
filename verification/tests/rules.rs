use cargo_rustics::rules::{render_lens, rules_text, write_one, LensInfo, Polarity};

const CC_HINTS: [&str; 2] = ["Extract a helper", "Replace branches with a match"];
const CC_REFS: [&str; 1] = ["McCabe 1976"];

fn cc() -> LensInfo<'static> {
    LensInfo {
        id: "cyclomatic-complexity",
        display_name: "Cyclomatic Complexity",
        category: "Function".into(),
        polarity: Polarity::LowerIsBetter,
        default_warning: Some("10".into()),
        default_error: None,
        rationale: "Counts independent paths.\nHigh values are hard to test.",
        refactor_hints: &CC_HINTS,
        references: &CC_REFS,
    }
}

fn instability() -> LensInfo<'static> {
    LensInfo {
        id: "instability",
        display_name: "Instability",
        category: "Module".into(),
        polarity: Polarity::Informational,
        default_warning: None,
        default_error: None,
        rationale: "Ce / (Ca + Ce).",
        refactor_hints: &[],
        references: &[],
    }
}

#[test]
fn write_one_includes_id_and_rationale() {
    let mut buf = Vec::new();
    write_one(&mut buf, &cc());
    let s = String::from_utf8(buf).unwrap();
    assert!(s.contains("cyclomatic-complexity"));
    assert!(s.contains("rationale"));
    assert_eq!(
        s,
        "Cyclomatic Complexity (cyclomatic-complexity)\n  category: Function\n  polarity: lower-is-better\n  \
         default warning: 10\n  rationale:\n    Counts independent paths.\n    High values are hard to test.\n  \
         refactor hints:\n    - Extract a helper\n    - Replace branches with a match\n  references:\n    - McCabe 1976\n"
    );
}

#[test]
fn run_lists_every_metric_when_no_filter() {
    let lenses = [cc(), instability()];
    let text = rules_text(&lenses, None).unwrap();
    assert_eq!(
        text,
        format!("{}\n{}\n", render_lens(&lenses[0]), render_lens(&lenses[1]))
    );
    assert!(text.contains("(cyclomatic-complexity)"));
    assert!(text.contains("(instability)"));
}

#[test]
fn run_filters_to_named_metric() {
    let lenses = [cc(), instability()];
    let text = rules_text(&lenses, Some("cyclomatic-complexity")).unwrap();
    assert_eq!(text, render_lens(&lenses[0]));
    assert!(!text.contains("instability"));
}

#[test]
fn rules_errors_for_unknown_metric() {
    let lenses = [cc(), instability()];
    let err = rules_text(&lenses, Some("no-such-metric")).unwrap_err();
    assert!(err.contains("no metric with id"));
}

#[test]
fn write_threshold_line_skips_none() {
    let s = render_lens(&instability());
    assert!(!s.contains("default warning"));
    assert!(!s.contains("default error"));
}

#[test]
fn write_threshold_line_emits_value() {
    let mut lens = cc();
    lens.default_error = Some("7".into());
    let s = render_lens(&lens);
    assert!(s.contains("  default warning: 10\n"));
    assert!(s.contains("  default error  : 7\n"));
}
