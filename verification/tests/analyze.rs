use cargo_rustics::analyze::{apply_limit, decide_exit, expand_csv, file_to_module_prefix, join_scope};
use cargo_rustics::calendar::epoch_to_iso8601;
use cargo_rustics::report::{Summary, COMPLEXITY_CLASS_METRICS};

fn summary(warnings: usize, errors: usize) -> Summary {
    Summary {
        files_analyzed: 1,
        violations: warnings + errors,
        warnings,
        errors,
        warnings_justified: 0,
        errors_justified: 0,
    }
}

#[test]
fn csv_metric_list_is_split() {
    let v = expand_csv(&["a,b".into(), "c".into(), "".into(), " d ".into()]);
    assert_eq!(v, vec!["a", "b", "c", "d"]);
}

#[test]
fn iso8601_known_epoch() {
    // 2026-05-08T00:00:00Z = 1778198400
    assert_eq!(epoch_to_iso8601(1_778_198_400), "2026-05-08T00:00:00Z");
    assert_eq!(epoch_to_iso8601(0), "1970-01-01T00:00:00Z");
    assert_eq!(epoch_to_iso8601(946_684_800), "2000-01-01T00:00:00Z");
}

#[test]
fn iso8601_time_of_day_and_leap_days() {
    assert_eq!(epoch_to_iso8601(951_782_400), "2000-02-29T00:00:00Z");
    assert_eq!(epoch_to_iso8601(951_868_799), "2000-02-29T23:59:59Z");
    assert_eq!(epoch_to_iso8601(4_107_542_400), "2100-03-01T00:00:00Z");
    assert_eq!(epoch_to_iso8601(3_723), "1970-01-01T01:02:03Z");
}

#[test]
fn iso8601_before_the_epoch() {
    assert_eq!(epoch_to_iso8601(-1), "1969-12-31T23:59:59Z");
    assert_eq!(epoch_to_iso8601(-86_400), "1969-12-31T00:00:00Z");
    assert_eq!(epoch_to_iso8601(-62_135_596_800), "0001-01-01T00:00:00Z");
    assert_eq!(epoch_to_iso8601(-62_167_219_200), "0000-01-01T00:00:00Z");
    assert_eq!(epoch_to_iso8601(-62_167_219_201), "-001-12-31T23:59:59Z");
}

#[test]
fn iso8601_extreme_inputs_do_not_panic() {
    let lo = epoch_to_iso8601(i64::MIN);
    let hi = epoch_to_iso8601(i64::MAX);
    assert!(lo.starts_with('-'));
    assert!(hi.ends_with('Z'));
}

#[test]
fn fatal_warnings_exit_when_warnings_present() {
    let s = summary(1, 0);
    assert_eq!(decide_exit(&s, true), 1);
    assert_eq!(decide_exit(&s, false), 0);
}

#[test]
fn errors_always_exit_one() {
    let s = summary(0, 1);
    assert_eq!(decide_exit(&s, false), 1);
}

#[test]
fn clean_run_exits_zero() {
    assert_eq!(decide_exit(&summary(0, 0), true), 0);
}

#[test]
fn module_prefix_strips_lib_main_mod() {
    assert_eq!(file_to_module_prefix("crates/foo/src/lib.rs"), "");
    assert_eq!(file_to_module_prefix("crates/foo/src/main.rs"), "");
    assert_eq!(file_to_module_prefix("crates/foo/src/baz/mod.rs"), "baz");
}

#[test]
fn module_prefix_keeps_directory_segments() {
    assert_eq!(
        file_to_module_prefix("crates/cargo-rustics/src/reporters/ai.rs"),
        "reporters::ai"
    );
}

#[test]
fn join_scope_handles_empties() {
    assert_eq!(join_scope("", "f"), "f");
    assert_eq!(join_scope("a::b", "f"), "a::b::f");
    assert_eq!(join_scope("a::b", ""), "a::b");
}

#[test]
fn complexity_class_metrics_includes_classics() {
    for id in [
        "cyclomatic-complexity",
        "cognitive-complexity",
        "halstead-volume",
        "source-lines-of-code",
    ] {
        assert!(
            COMPLEXITY_CLASS_METRICS.contains(&id),
            "{id} missing from complexity-class set"
        );
    }
    assert!(!COMPLEXITY_CLASS_METRICS.contains(&"clone-density"));
    assert!(!COMPLEXITY_CLASS_METRICS.contains(&"panic-density"));
    assert!(!COMPLEXITY_CLASS_METRICS.contains(&"lifetime-arity"));
}

#[test]
fn apply_limit_truncates_and_reports_dropped() {
    let mut v = vec![1, 2, 3, 4, 5];
    assert_eq!(apply_limit(&mut v, Some(2)), Some(3));
    assert_eq!(v, vec![1, 2]);
}

#[test]
fn apply_limit_leaves_short_lists_alone() {
    let mut v = vec![1, 2];
    assert_eq!(apply_limit(&mut v, Some(2)), None);
    assert_eq!(v, vec![1, 2]);
    assert_eq!(apply_limit(&mut v, None), None);
    assert_eq!(v, vec![1, 2]);
    let mut w = vec!["a", "b"];
    assert_eq!(apply_limit(&mut w, Some(0)), Some(2));
    assert!(w.is_empty());
}
