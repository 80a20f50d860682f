use cargo_rustics::since::{changed_files, filter, is_changed};

fn names(v: &[&str]) -> Vec<String> {
    v.iter().map(|s| s.to_string()).collect()
}

#[test]
fn keeps_only_changed_files() {
    let files = names(&["a.rs", "b.rs", "c.rs"]);
    let changed = names(&["a.rs", "c.rs"]);
    assert_eq!(filter(files, &changed), vec!["a.rs", "c.rs"]);
}

#[test]
fn empty_changed_set_filters_everything() {
    assert!(filter(names(&["a.rs"]), &[]).is_empty());
}

#[test]
fn changed_files_empty_when_no_diff() {
    assert!(changed_files("").is_empty());
    assert!(changed_files("\n  \n").is_empty());
}

#[test]
fn changed_files_trims_skips_blanks_and_dedups() {
    let out = changed_files("src/a.rs\n  src/b.rs  \n\nsrc/a.rs\r\nREADME.md");
    assert_eq!(out, vec!["src/a.rs", "src/b.rs", "README.md"]);
}

#[test]
fn is_changed_matches_whole_paths() {
    let changed = names(&["src/a.rs"]);
    assert!(is_changed(&changed, "src/a.rs"));
    assert!(!is_changed(&changed, "src/a"));
    assert!(!is_changed(&changed, "src/a.rs.bak"));
}
