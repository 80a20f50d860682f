use cargo_rustics::config::ExcludeTable;
use cargo_rustics::cross_file::CROSS_FILE_METRIC_IDS;
use cargo_rustics::doctor::{check_exclude, check_metric_id};
use cargo_rustics::explain::find_violation;
use cargo_rustics::regression::{regression_exit, Verdict};
use cargo_rustics::rules::{find_metric, polarity_word, Polarity};

/// Lens ids as the catalogue lists them, cross-file ids included.
fn catalogue() -> Vec<&'static str> {
    let mut ids = vec![
        "cyclomatic-complexity",
        "halstead-volume",
        "borrow-depth",
    ];
    ids.extend_from_slice(&CROSS_FILE_METRIC_IDS);
    ids
}

#[test]
fn cross_file_metric_id_is_accepted() {
    let known = catalogue();
    let issue = check_metric_id("afferent-coupling", &known);
    assert!(
        issue.map_or(true, |i| !i.message.contains("unknown metric")),
        "cross-file id 'afferent-coupling' was rejected"
    );
}

#[test]
fn exclude_traversal_is_flagged() {
    let mut issues = Vec::new();
    check_exclude(
        &ExcludeTable {
            patterns: vec!["../skip".into()],
        },
        &mut issues,
    );
    assert!(issues.iter().any(|i| i.message.contains("traversal")));
}

#[test]
fn doctor_polarity_word_renders_each_variant() {
    assert_eq!(polarity_word(Polarity::LowerIsBetter), "lower-is-better");
    assert_eq!(polarity_word(Polarity::HigherIsBetter), "higher-is-better");
    assert_eq!(polarity_word(Polarity::Informational), "informational");
}

#[test]
fn rules_polarity_word_renders_each_variant() {
    assert_eq!(polarity_word(Polarity::LowerIsBetter), "lower-is-better");
    assert_eq!(polarity_word(Polarity::HigherIsBetter), "higher-is-better");
    assert_eq!(polarity_word(Polarity::Informational), "informational");
}

#[test]
fn find_returns_match_by_id() {
    let ids = catalogue();
    let i = find_metric(&ids, "cyclomatic-complexity").expect("cc");
    assert_eq!(ids[i], "cyclomatic-complexity");
}

#[test]
fn find_returns_none_for_unknown_id() {
    let ids = catalogue();
    assert_eq!(
        find_metric(&ids, "no-such-id"),
        Err("no metric with id `no-such-id`".to_string())
    );
}

#[test]
fn id_lookup_succeeds_when_present() {
    let ids = vec!["abc".to_string()];
    assert_eq!(find_violation(&ids, "abc"), Ok(0));
}

#[test]
fn fatal_regressions_exits_one() {
    assert_eq!(regression_exit(Verdict::Regressed, true), 1);
    assert_eq!(regression_exit(Verdict::Regressed, false), 0);
}

#[test]
fn improved_never_exits_one() {
    assert_eq!(regression_exit(Verdict::Improved, true), 0);
}

