use cargo_rustics::cross_file::{
    afferent_count, function_counts, impl_cohesion_counts, shape_counts, ScopeCount,
};
use cargo_rustics::cross_file::{count_violations, efferent_count};
use cargo_rustics::report::{ScopeKind, Severity};
use sha2::Digest;

fn count(file: &str, metric: &str, value: u32, thresholds: Option<(u32, u32)>) -> ScopeCount {
    ScopeCount {
        file: file.to_string(),
        line: 3,
        scope: "crate::a".to_string(),
        metric: metric.to_string(),
        value,
        thresholds,
        at_threshold: false,
    }
}

#[test]
fn shape_counts_strips_prefix_and_ladders() {
    let counts = vec![
        count("/ws/src/a.rs", "rfc", 51, Some((50, 100))),
        count("/ws/src/a.rs", "wmc", 101, Some((50, 100))),
        count("/ws/src/a.rs", "lcom4", 2, Some((2, 4))),
        count("/other/b.rs", "npath", 7, None),
    ];
    let out = shape_counts(&counts, "/ws/", None);
    assert_eq!(out.len(), 4);
    assert_eq!(out[0].file, "src/a.rs");
    assert_eq!(out[0].finding, Some((Severity::Warning, 50)));
    assert_eq!(out[1].finding, Some((Severity::Error, 100)));
    assert_eq!(out[2].finding, None);
    assert_eq!(out[2].value, 2);
    assert_eq!(out[3].file, "/other/b.rs");
    assert_eq!(out[3].finding, None);
    assert_eq!(out[0].line, 3);
    assert_eq!(out[0].scope, "crate::a");
    assert_eq!(out[1].metric, "wmc");
}

#[test]
fn shape_counts_keeps_only_discovered_files() {
    let counts = vec![
        count("/ws/src/a.rs", "rfc", 1, Some((50, 100))),
        count("/ws/src/b.rs", "rfc", 60, Some((50, 100))),
    ];
    let discovered = vec!["src/b.rs".to_string()];
    let out = shape_counts(&counts, "/ws/", Some(&discovered));
    assert_eq!(out.len(), 1);
    assert_eq!(out[0].file, "src/b.rs");
    assert_eq!(out[0].finding, Some((Severity::Warning, 50)));
    let none: Vec<String> = Vec::new();
    assert!(shape_counts(&counts, "/ws/", Some(&none)).is_empty());
}

#[test]
fn afferent_count_thresholds() {
    let c = afferent_count("/ws/src/a.rs".to_string(), "src/a.rs".to_string(), 41);
    assert_eq!(c.metric, "afferent-coupling");
    assert_eq!(c.line, 1);
    assert_eq!(c.thresholds, Some((20, 40)));
    let out = shape_counts(&[c], "/ws/", None);
    assert_eq!(out[0].finding, Some((Severity::Error, 40)));
}

#[test]
fn impl_cohesion_counts_with_and_without_lcom4() {
    let with = impl_cohesion_counts("f.rs", 9, "crate::T", Some(5), 10, 20);
    let metrics: Vec<&str> = with.iter().map(|c| c.metric.as_str()).collect();
    assert_eq!(metrics, vec!["lcom4", "rfc", "wmc"]);
    assert_eq!(with[0].value, 5);
    assert_eq!(with[0].thresholds, Some((2, 4)));
    assert_eq!(with[1].value, 10);
    assert_eq!(with[2].value, 20);
    assert_eq!(with[2].thresholds, Some((50, 100)));
    let without = impl_cohesion_counts("f.rs", 9, "crate::T", None, 10, 20);
    assert_eq!(without.len(), 2);
    assert_eq!(without[0].metric, "rfc");
}

#[test]
fn function_counts_thresholds() {
    let out = function_counts("f.rs", 4, "crate::f", 11, 26);
    assert_eq!(out.len(), 2);
    assert_eq!(out[0].metric, "cyclomatic-complexity");
    assert_eq!(out[0].thresholds, Some((10, 20)));
    assert_eq!(out[1].metric, "cognitive-complexity");
    assert_eq!(out[1].thresholds, Some((15, 25)));
    let shaped = shape_counts(&out, "", None);
    assert_eq!(shaped[0].finding, Some((Severity::Warning, 10)));
    assert_eq!(shaped[1].finding, Some((Severity::Error, 25)));
}

#[test]
fn function_counts_cross_on_reaching_a_threshold() {
    let out = function_counts("f.rs", 4, "crate::f", 10, 14);
    assert!(out.iter().all(|c| c.at_threshold));
    let shaped = shape_counts(&out, "", None);
    assert_eq!(shaped[0].finding, Some((Severity::Warning, 10)));
    assert_eq!(shaped[1].finding, None);
    let at_error = shape_counts(&function_counts("f.rs", 4, "crate::f", 20, 25), "", None);
    assert_eq!(at_error[0].finding, Some((Severity::Error, 20)));
    assert_eq!(at_error[1].finding, Some((Severity::Error, 25)));
    // Impl-block and coupling counts must exceed their thresholds.
    let impl_at = shape_counts(&impl_cohesion_counts("f.rs", 1, "crate::T", Some(2), 50, 50), "", None);
    assert!(impl_at.iter().all(|o| o.finding.is_none()));
}

#[test]
fn violation_id_is_sixteen_hex_of_sha256_of_key() {
    let id = cargo_rustics::snapshot::violation_id("src/x.rs", "crate::T", "rfc");
    let digest = sha2::Sha256::digest(b"src/x.rs|crate::T|rfc");
    let expected: String = digest[..8].iter().map(|b| format!("{b:02x}")).collect();
    assert_eq!(id, expected);
    assert_eq!(id.len(), 16);
    assert_eq!(id, cargo_rustics::snapshot::violation_id("src/x.rs", "crate::T", "rfc"));
    assert_ne!(id, cargo_rustics::snapshot::violation_id("src/x.rs", "crate::T", "wmc"));
}

#[test]
fn count_violations_builds_impl_block_records() {
    let counts = impl_cohesion_counts("/ws/src/a.rs", 9, "crate::T", Some(5), 51, 3);
    let mut all = counts;
    all.extend(function_counts("/ws/src/a.rs", 20, "crate::f", 30, 1));
    let outcomes = shape_counts(&all, "/ws", None);
    let v: Vec<_> = count_violations(&outcomes).into_iter().filter(|x| x.scope_kind == ScopeKind::ImplBlock).collect();
    assert_eq!(v.len(), 2);
    assert_eq!(v[0].metric, "lcom4");
    assert_eq!(v[0].severity, Severity::Error);
    assert_eq!(v[0].threshold, 4);
    assert_eq!(v[0].value, 5);
    assert_eq!(v[0].scope_kind, ScopeKind::ImplBlock);
    assert_eq!(v[0].file, "src/a.rs");
    assert_eq!(v[0].line, 9);
    assert!(v[0].rationale.starts_with("LCOM4 (Hitz & Montazeri 1995)"));
    assert_eq!(v[0].refactor_hints.len(), 2);
    assert_eq!(v[0].references.len(), 1);
    assert_eq!(v[0].id, cargo_rustics::snapshot::violation_id("src/a.rs", "crate::T", "lcom4"));
    assert_eq!(v[1].metric, "rfc");
    assert_eq!(v[1].severity, Severity::Warning);
    assert_eq!(v[1].threshold, 50);
    assert!(v[1].references[0].starts_with("Chidamber"));
}

#[test]
fn count_violations_build_function_and_module_records() {
    let mut all = function_counts("/ws/src/f.rs", 7, "crate::f", 10, 3);
    all.push(afferent_count("/ws/src/m.rs".to_string(), "src/m.rs".to_string(), 41));
    all.push(efferent_count("/ws/src/m.rs".to_string(), "src/m.rs".to_string(), 16));
    let v = count_violations(&shape_counts(&all, "/ws", None));
    assert_eq!(v.len(), 3);
    assert_eq!(v[0].metric, "cyclomatic-complexity");
    assert_eq!(v[0].scope_kind, ScopeKind::FreeFunction);
    assert_eq!(v[0].severity, Severity::Warning);
    assert_eq!(v[0].threshold, 10);
    assert_eq!(v[0].line, 7);
    assert_eq!(v[0].refactor_hints.len(), 3);
    assert!(v[0].references[0].starts_with("McCabe"));
    assert_eq!(v[1].metric, "afferent-coupling");
    assert_eq!(v[1].scope_kind, ScopeKind::Module);
    assert_eq!(v[1].severity, Severity::Error);
    assert_eq!(v[1].threshold, 40);
    assert_eq!(v[1].line, 1);
    assert!(v[1].rationale.starts_with("41 workspace files import from `src/m.rs`. A high afferent-coupling"));
    assert_eq!(v[1].id, cargo_rustics::snapshot::violation_id("src/m.rs", "src/m.rs", "afferent-coupling"));
    assert_eq!(v[2].metric, "efferent-coupling");
    assert_eq!(v[2].threshold, 15);
    assert_eq!(
        v[2].rationale,
        "This file reaches 16 distinct external crates via its `use` statements; past the warning threshold of 15, \
         the module is likely pulling in more responsibilities than it cleanly owns."
    );
    assert_eq!(v[2].refactor_hints.len(), 1);
}
