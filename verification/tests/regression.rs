use cargo_rustics::regression::{
    classify_diff, cosmetic_analysis, cosmetic_verdict, diff_ids, helpers_added, matches_likely_cosmetic, no_signals_fired,
    regression_exit, split_by_change, value_change, verdict_for, verdict_word, ChangeBuckets,
    CosmeticSignals, CosmeticVerdict, DiffCounts, Movement, ScopeKey, ValueChange, Verdict,
};
use cargo_rustics::rules::Polarity;

fn counts(improved: usize, regressed: usize, unchanged: usize, added: usize, removed: usize) -> DiffCounts {
    DiffCounts {
        improved,
        regressed,
        unchanged,
        added,
        removed,
    }
}

fn ids(v: &[&str]) -> Vec<String> {
    v.iter().map(|s| s.to_string()).collect()
}

fn key(file: &str, scope: &str, metric: &str) -> ScopeKey {
    ScopeKey {
        file: file.into(),
        scope: scope.into(),
        metric: metric.into(),
    }
}

#[test]
fn unchanged_when_same_ids() {
    let d = diff_ids(&ids(&["bbb", "aaa"]), &ids(&["aaa", "bbb"]));
    assert_eq!(d.both, vec![(1, 0), (0, 1)]);
    assert_eq!(verdict_for(&counts(0, 0, 2, 0, 0)), Verdict::Unchanged);
}

#[test]
fn repeated_ids_count_once_by_last_position() {
    let d = diff_ids(&ids(&["a", "b", "a"]), &ids(&["b", "b"]));
    assert_eq!(d.removed, vec![2]);
    assert_eq!(d.both, vec![(1, 1)]);
    assert!(d.added.is_empty());
}

#[test]
fn verdict_words_and_exit_codes() {
    assert_eq!(verdict_word(Verdict::Clean), "clean");
    assert_eq!(verdict_word(Verdict::Improved), "improved");
    assert_eq!(verdict_word(Verdict::Regressed), "regressed");
    assert_eq!(verdict_word(Verdict::Mixed), "mixed");
    assert_eq!(verdict_word(Verdict::Unchanged), "unchanged");
    assert_eq!(regression_exit(Verdict::Regressed, true), 1);
    assert_eq!(regression_exit(Verdict::Mixed, true), 1);
    assert_eq!(regression_exit(Verdict::Regressed, false), 0);
    assert_eq!(regression_exit(Verdict::Improved, true), 0);
}

#[test]
fn cosmetic_verdict_reads_the_signals() {
    let quiet = CosmeticSignals::default();
    assert!(no_signals_fired(&quiet));
    assert_eq!(cosmetic_verdict(&quiet), CosmeticVerdict::Clean);
    let cosmetic = CosmeticSignals {
        helpers_added: 3,
        sloc_delta: 13,
        cc_reduction: 5,
        ..CosmeticSignals::default()
    };
    assert!(matches_likely_cosmetic(&cosmetic));
    assert_eq!(cosmetic_verdict(&cosmetic), CosmeticVerdict::LikelyCosmetic);
    let real = CosmeticSignals {
        helpers_added: 3,
        sloc_delta: 12,
        cc_reduction: 5,
        ..CosmeticSignals::default()
    };
    assert_eq!(cosmetic_verdict(&real), CosmeticVerdict::Mixed);
}

#[test]
fn helpers_added_counts_new_function_scopes() {
    let before = vec![key("a.rs", "f", "cyclomatic-complexity")];
    let after = vec![
        key("a.rs", "f", "cyclomatic-complexity"),
        key("a.rs", "g", "cyclomatic-complexity"),
        key("a.rs", "g", "cyclomatic-complexity"),
        key("a.rs", "h", "source-lines-of-code"),
        key("b.rs", "f", "cyclomatic-complexity"),
    ];
    assert_eq!(helpers_added(&before, &after), 2);
    assert_eq!(helpers_added(&after, &before), 0);
}

/// The movement of a value between snapshots, compared as `regression`
/// compares `f64` values.
fn movement(before: f64, after: f64) -> Movement {
    if (after - before).abs() < f64::EPSILON {
        Movement::Same
    } else if after < before {
        Movement::Down
    } else if after > before {
        Movement::Up
    } else {
        Movement::Unordered
    }
}

/// Diffs two snapshots given as `(id, value)` lists of one lens and
/// returns the buckets of the ids on both sides with the verdict.
fn diff_values(
    before: &[(&str, f64)],
    after: &[(&str, f64)],
    polarity: Polarity,
) -> (ChangeBuckets, Verdict) {
    let b_ids: Vec<String> = before.iter().map(|p| p.0.to_string()).collect();
    let a_ids: Vec<String> = after.iter().map(|p| p.0.to_string()).collect();
    let d = diff_ids(&b_ids, &a_ids);
    let changes: Vec<ValueChange> = d
        .both
        .iter()
        .map(|&(i, j)| value_change(movement(before[i].1, after[j].1), polarity))
        .collect();
    let buckets = split_by_change(&d.both, &changes);
    let verdict = verdict_for(&counts(
        buckets.improved.len(),
        buckets.regressed.len(),
        buckets.unchanged.len(),
        d.added.len(),
        d.removed.len(),
    ));
    (buckets, verdict)
}

#[test]
fn value_change_reads_the_polarity() {
    assert_eq!(value_change(Movement::Up, Polarity::HigherIsBetter), ValueChange::Better);
    assert_eq!(value_change(Movement::Down, Polarity::HigherIsBetter), ValueChange::Worse);
    assert_eq!(value_change(Movement::Unordered, Polarity::LowerIsBetter), ValueChange::Worse);
    assert_eq!(value_change(Movement::Unordered, Polarity::HigherIsBetter), ValueChange::Worse);
    assert_eq!(value_change(Movement::Same, Polarity::HigherIsBetter), ValueChange::Same);
    assert_eq!(movement(1.0, f64::NAN), Movement::Unordered);
}

#[test]
fn split_by_change_keeps_pair_order() {
    let both = vec![(0, 3), (1, 1), (2, 0), (4, 2)];
    let changes = vec![
        ValueChange::Worse,
        ValueChange::Better,
        ValueChange::Worse,
        ValueChange::Same,
    ];
    let b = split_by_change(&both, &changes);
    assert_eq!(b.improved, vec![1]);
    assert_eq!(b.regressed, vec![3, 0]);
    assert_eq!(b.unchanged, vec![2]);
}

#[test]
fn classify_diff_assembles_buckets_counts_and_verdict() {
    let before = [("aaa", 11.0), ("bbb", 5.0)];
    let after = [("ccc", 1.0), ("aaa", 8.0)];
    let b_ids: Vec<String> = before.iter().map(|p| p.0.to_string()).collect();
    let a_ids: Vec<String> = after.iter().map(|p| p.0.to_string()).collect();
    let d = diff_ids(&b_ids, &a_ids);
    let changes: Vec<ValueChange> = d
        .both
        .iter()
        .map(|&(i, j)| value_change(movement(before[i].1, after[j].1), Polarity::LowerIsBetter))
        .collect();
    let r = classify_diff(d, &changes);
    assert_eq!(r.improved, vec![1]);
    assert!(r.regressed.is_empty() && r.unchanged.is_empty());
    assert_eq!(r.added, vec![0]);
    assert_eq!(r.removed, vec![1]);
    assert_eq!(r.diff, counts(1, 0, 0, 1, 1));
    assert_eq!(r.verdict, Verdict::Mixed);
}

#[test]
fn cosmetic_analysis_needs_measurements_on_both_sides() {
    let s = CosmeticSignals { helpers_added: 3, sloc_delta: 40, cc_reduction: 1, ..CosmeticSignals::default() };
    assert!(cosmetic_analysis(0, 0, s).is_none());
    assert!(cosmetic_analysis(0, 5, s).is_none());
    assert!(cosmetic_analysis(4, 0, s).is_none());
    let a = cosmetic_analysis(1, 5, s).expect("analysis");
    assert_eq!(a.signals, s);
    assert_eq!(a.verdict, CosmeticVerdict::LikelyCosmetic);
    let quiet = cosmetic_analysis(2, 2, CosmeticSignals::default()).expect("analysis");
    assert_eq!(quiet.verdict, CosmeticVerdict::Clean);
}
