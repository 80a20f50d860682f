use cargo_rustics::analyze::pick_metrics;
use cargo_rustics::report::{Severity, Summary};

const KNOWN: [&str; 4] = ["loc", "rfc", "wmc", "npath"];

fn strings(v: &[&str]) -> Vec<String> {
    v.iter().map(|s| s.to_string()).collect()
}

#[test]
fn pick_metrics_defaults_to_every_lens() {
    assert_eq!(pick_metrics(&KNOWN, &[], &[]), Ok(vec![0, 1, 2, 3]));
}

#[test]
fn pick_metrics_includes_and_excludes_by_csv() {
    let wanted = strings(&["wmc, loc", "npath"]);
    let unwanted = strings(&["npath"]);
    assert_eq!(pick_metrics(&KNOWN, &wanted, &unwanted), Ok(vec![0, 2]));
    assert_eq!(pick_metrics(&KNOWN, &[], &strings(&["rfc,wmc"])), Ok(vec![0, 3]));
}

#[test]
fn pick_metrics_names_the_first_unknown_id() {
    let r = pick_metrics(&KNOWN, &strings(&["loc,bogus"]), &strings(&["other"]));
    assert_eq!(
        r,
        Err("unknown metric id `bogus`; run `cargo rustics rules` for the catalogue".to_string())
    );
    let r = pick_metrics(&KNOWN, &strings(&["loc"]), &strings(&["", "other"]));
    assert_eq!(
        r,
        Err("unknown metric id `other`; run `cargo rustics rules` for the catalogue".to_string())
    );
}

#[test]
fn recount_counts_by_severity_and_keeps_the_rest() {
    let mut s = Summary {
        files_analyzed: 7,
        violations: 99,
        warnings: 99,
        errors: 99,
        warnings_justified: 2,
        errors_justified: 1,
    };
    s.recount(&[Severity::Warning, Severity::Error, Severity::Info, Severity::Warning]);
    assert_eq!(s.violations, 4);
    assert_eq!(s.warnings, 2);
    assert_eq!(s.errors, 1);
    assert_eq!(s.files_analyzed, 7);
    assert_eq!(s.warnings_justified, 2);
    assert_eq!(s.errors_justified, 1);
}
