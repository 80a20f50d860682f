use cargo_rustics::regression::{
    cosmetic_analysis, diff_ids, regression_report, snapshot_summary, value_change, CosmeticSignals, Movement,
    RegressionReport, ValueChange, Verdict,
};
use cargo_rustics::report::Summary;
use cargo_rustics::rules::Polarity;

#[derive(Debug, Clone, PartialEq)]
struct Violation {
    id: String,
    metric: String,
    value: f64,
}

fn v(id: &str) -> Violation {
    Violation { id: id.into(), metric: "cyclomatic-complexity".into(), value: 11.0 }
}

struct Snapshot {
    generated_at: String,
    summary: Summary,
    violations: Vec<Violation>,
}

fn report(violations: Vec<Violation>) -> Snapshot {
    Snapshot {
        generated_at: "T".into(),
        summary: Summary {
            files_analyzed: 1,
            violations: violations.len(),
            warnings: violations.len(),
            errors: 0,
            warnings_justified: 0,
            errors_justified: 0,
        },
        violations,
    }
}

fn polarity(metric: &str) -> Polarity {
    if metric.starts_with("borrow-profile-") {
        Polarity::Informational
    } else {
        Polarity::LowerIsBetter
    }
}

fn movement(before: f64, after: f64) -> Movement {
    if (after - before).abs() < f64::EPSILON {
        Movement::Same
    } else if after < before {
        Movement::Down
    } else if after > before {
        Movement::Up
    } else {
        Movement::Unordered
    }
}

/// Diffs two snapshots the way `regression` does: match ids, classify
/// each id on both sides by its lens's polarity, assemble the report.
fn compute(before: Snapshot, after: Snapshot) -> RegressionReport<Violation> {
    let b_ids: Vec<String> = before.violations.iter().map(|x| x.id.clone()).collect();
    let a_ids: Vec<String> = after.violations.iter().map(|x| x.id.clone()).collect();
    let d = diff_ids(&b_ids, &a_ids);
    let changes: Vec<ValueChange> = d
        .both
        .iter()
        .map(|&(bi, ai)| {
            let (b, a) = (&before.violations[bi], &after.violations[ai]);
            value_change(movement(b.value, a.value), polarity(&a.metric))
        })
        .collect();
    let cosmetic = cosmetic_analysis(0, 0, CosmeticSignals::default());
    regression_report(
        snapshot_summary(&before.generated_at, &before.summary),
        snapshot_summary(&after.generated_at, &after.summary),
        before.violations,
        after.violations,
        &b_ids,
        &a_ids,
        d,
        &changes,
        cosmetic,
    )
}

#[test]
fn clean_when_both_empty() {
    let r = compute(report(vec![]), report(vec![]));
    assert_eq!(r.verdict, Verdict::Clean);
    assert!(r.improved.is_empty());
    assert!(r.regressed.is_empty());
    assert!(r.unchanged.is_empty());
    assert!(r.added.is_empty());
    assert!(r.removed.is_empty());
}

#[test]
fn removed_when_only_disappeared() {
    let r = compute(report(vec![v("aaa"), v("bbb")]), report(vec![]));
    assert_eq!(r.verdict, Verdict::Improved);
    assert_eq!(r.removed.len(), 2);
    assert_eq!(r.added.len(), 0);
    assert!(r.improved.is_empty(), "improved is now id-in-both only");
}

#[test]
fn added_when_only_appeared() {
    let r = compute(report(vec![]), report(vec![v("aaa")]));
    assert_eq!(r.verdict, Verdict::Regressed);
    assert_eq!(r.added.len(), 1);
    assert!(r.regressed.is_empty(), "regressed is now id-in-both only");
}

#[test]
fn mixed_when_both_added_and_removed() {
    let r = compute(report(vec![v("aaa")]), report(vec![v("bbb")]));
    assert_eq!(r.verdict, Verdict::Mixed);
    assert_eq!(r.added.len(), 1);
    assert_eq!(r.removed.len(), 1);
}

#[test]
fn unchanged_when_same_ids_and_same_values() {
    let r = compute(report(vec![v("aaa"), v("bbb")]), report(vec![v("aaa"), v("bbb")]));
    assert_eq!(r.verdict, Verdict::Unchanged);
    assert_eq!(r.unchanged.len(), 2);
    assert!(r.improved.is_empty());
    assert!(r.regressed.is_empty());
}

#[test]
fn improved_when_value_dropped_for_lower_is_better() {
    let mut before_v = v("aaa");
    before_v.value = 11.0;
    let mut after_v = v("aaa");
    after_v.value = 8.0;
    let r = compute(report(vec![before_v]), report(vec![after_v]));
    assert_eq!(r.verdict, Verdict::Improved);
    assert_eq!(r.improved.len(), 1);
    assert_eq!(r.improved[0].value, 8.0);
    assert!(r.regressed.is_empty());
}

#[test]
fn regressed_when_value_grew_for_lower_is_better() {
    let mut before_v = v("aaa");
    before_v.value = 11.0;
    let mut after_v = v("aaa");
    after_v.value = 18.0;
    let r = compute(report(vec![before_v]), report(vec![after_v]));
    assert_eq!(r.verdict, Verdict::Regressed);
    assert_eq!(r.regressed.len(), 1);
}

#[test]
fn informational_metric_value_change_is_unchanged() {
    let mk = |value: f64| Violation { id: "aaa".into(), metric: "borrow-profile-owned".into(), value };
    let r = compute(report(vec![mk(2.0)]), report(vec![mk(5.0)]));
    assert_eq!(r.unchanged.len(), 1);
    assert!(r.improved.is_empty());
    assert!(r.regressed.is_empty());
}

#[test]
fn outputs_are_id_sorted() {
    let r = compute(report(vec![v("zzz"), v("aaa")]), report(vec![]));
    let ids: Vec<_> = r.removed.iter().map(|v| v.id.clone()).collect();
    assert_eq!(ids, vec!["aaa".to_string(), "zzz".to_string()]);
    assert!(r.added.is_empty() && r.improved.is_empty() && r.regressed.is_empty() && r.unchanged.is_empty());
    assert_eq!(r.diff.removed, 2);
    assert_eq!(r.verdict, Verdict::Improved);
    assert_eq!(r.version, 2);
}

#[test]
fn report_version_is_two() {
    let r = compute(report(vec![]), report(vec![]));
    assert_eq!(r.version, 2);
}

#[test]
fn report_buckets_hold_after_forms_and_copy_headlines() {
    let mut b1 = v("bbb");
    b1.value = 20.0;
    let mut a1 = v("bbb");
    a1.value = 12.0;
    let mut before = report(vec![v("ccc"), b1, v("aaa")]);
    before.generated_at = "2024-01-01T00:00:00Z".into();
    let after = report(vec![a1, v("aaa"), v("ddd")]);
    let r = compute(before, after);
    assert_eq!(r.before.generated_at, "2024-01-01T00:00:00Z");
    assert_eq!(r.before.violations, 3);
    assert_eq!(r.after.violations, 3);
    assert_eq!(r.improved, vec![Violation { id: "bbb".into(), metric: "cyclomatic-complexity".into(), value: 12.0 }]);
    assert_eq!(r.unchanged[0].id, "aaa");
    assert_eq!(r.added[0].id, "ddd");
    assert_eq!(r.removed[0].id, "ccc");
    assert_eq!(r.diff.improved, 1);
    assert_eq!(r.diff.unchanged, 1);
    assert_eq!(r.verdict, Verdict::Mixed);
    assert!(r.cosmetic_analysis.is_none());
}
