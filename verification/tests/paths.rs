use cargo_rustics::config::{pattern_matches, ExcludeTable};
use cargo_rustics::coverage::{
    default_lcov_path, parse, resolve_path, CoverageIndex, FileCoverage,
};
use cargo_rustics::discover::{collect_rust_files, has_rs_extension, make_relative};
use cargo_rustics::expanded::synthetic_file_path;
use cargo_rustics::runner::{panic_marker, partition};
use cargo_rustics::snapshot::{hex_lowercase, SnapshotMode};
use std::path::Path;

fn ratio(c: FileCoverage) -> Option<f64> {
    c.ratio_terms().map(|(hit, total)| f64::from(hit) / f64::from(total))
}

#[test]
fn pattern_matches_prefix_suffix_and_literal() {
    assert!(pattern_matches("target/**", "target/foo.rs"));
    assert!(pattern_matches("target/**", "target"));
    assert!(!pattern_matches("target/**", "src/foo.rs"));

    assert!(pattern_matches("**/build.rs", "crates/foo/build.rs"));
    assert!(pattern_matches("**/build.rs", "build.rs"));
    assert!(!pattern_matches("**/build.rs", "crates/foo/lib.rs"));

    assert!(pattern_matches("vendor/", "vendor/foo.rs"));
    assert!(!pattern_matches("vendor/", "src/foo.rs"));
}

#[test]
fn exclude_table_matches_any_pattern() {
    let excl = ExcludeTable {
        patterns: vec!["tests/projects/**".into(), "**/build.rs".into()],
    };
    assert!(excl.matches("tests/projects/small-cli/src/lib.rs"));
    assert!(excl.matches("crates/foo/build.rs"));
    assert!(!excl.matches("crates/rustics/src/lib.rs"));
    assert!(!ExcludeTable::default().matches("anything.rs"));
}

#[test]
fn parse_single_record() {
    let lcov = "SF:src/x.rs\nLF:10\nLH:7\nend_of_record\n";
    let idx = parse(lcov);
    let cov = idx.for_file("src/x.rs").unwrap();
    assert_eq!(cov.total, 10);
    assert_eq!(cov.hit, 7);
    assert_eq!(ratio(cov), Some(0.7));
}

#[test]
fn parse_multiple_records() {
    let lcov = "SF:src/a.rs\nLF:10\nLH:5\nend_of_record\nSF:src/b.rs\nLF:20\nLH:20\nend_of_record\n";
    let idx = parse(lcov);
    assert_eq!(ratio(idx.for_file("src/a.rs").unwrap()), Some(0.5));
    assert_eq!(ratio(idx.for_file("src/b.rs").unwrap()), Some(1.0));
}

#[test]
fn ratio_zero_total_is_none() {
    let cov = FileCoverage { total: 0, hit: 0 };
    assert_eq!(ratio(cov), None);
}

#[test]
fn parse_tolerates_blanks_crlf_and_bad_numbers() {
    let lcov = "  SF:src/a.rs \r\nLF:+12\r\nLH:x\r\n\r\nend_of_record\r\nSF:src/b.rs\nLF:99999999999\nLH:3";
    let idx = parse(lcov);
    assert_eq!(idx.for_file("src/a.rs"), Some(FileCoverage { total: 12, hit: 0 }));
    assert_eq!(idx.for_file("src/b.rs"), Some(FileCoverage { total: 0, hit: 3 }));
    assert_eq!(idx.for_file("src/c.rs"), None);
}

#[test]
fn parse_later_record_replaces_earlier() {
    let lcov = "SF:a.rs\nLF:4\nLH:1\nend_of_record\nSF:a.rs\nLF:8\nLH:8\nend_of_record\n";
    let idx = parse(lcov);
    assert_eq!(idx.for_file("a.rs"), Some(FileCoverage { total: 8, hit: 8 }));
}

#[test]
fn coverage_index_insert_and_lookup() {
    let mut idx = CoverageIndex::new();
    idx.insert("a.rs".to_string(), FileCoverage { total: 2, hit: 1 });
    idx.insert("a.rs".to_string(), FileCoverage { total: 3, hit: 3 });
    assert_eq!(idx.for_file("a.rs"), Some(FileCoverage { total: 3, hit: 3 }));
}

#[test]
fn resolve_path_none_disables() {
    let p = resolve_path(Some("none"), "/ws", true);
    assert!(p.is_none());
    assert!(resolve_path(Some("NoNe"), "/ws", true).is_none());
}

#[test]
fn resolve_path_returns_explicit() {
    let p = resolve_path(Some("/etc/lcov.info"), "/ws", false);
    assert_eq!(p, Some("/etc/lcov.info".to_string()));
}

#[test]
fn resolve_path_falls_back_to_default_when_present() {
    assert_eq!(
        resolve_path(None, "/ws", true),
        Some("/ws/target/coverage/lcov.info".to_string())
    );
    assert_eq!(resolve_path(None, "/ws", false), None);
    assert_eq!(default_lcov_path("/ws/"), "/ws/target/coverage/lcov.info");
}

#[test]
fn make_relative_uses_forward_slash() {
    let rel = make_relative("/ws", "/ws/crates/foo/src/lib.rs");
    assert_eq!(rel, "crates/foo/src/lib.rs");
}

#[test]
fn make_relative_keeps_paths_outside_the_root() {
    // Outside the root every component is kept, the root one included,
    // and the components are joined with `/`.
    assert_eq!(make_relative("/ws", "/other/a.rs"), "//other/a.rs");
}

#[test]
fn rs_extension_follows_path_rules() {
    assert!(has_rs_extension("/ws/a.rs"));
    assert!(has_rs_extension("b.tar.rs"));
    assert!(!has_rs_extension("/ws/.rs"));
    assert!(!has_rs_extension("/ws/c.txt"));
    assert!(!has_rs_extension("/ws/rs"));
    assert!(!has_rs_extension("/ws/a.rs/.."));
}

#[test]
fn collect_rust_files_filters_and_sorts() {
    let walked = vec![
        ("/ws/b.rs".to_string(), true),
        ("/ws/c.txt".to_string(), true),
        ("/ws/a.rs".to_string(), true),
        ("/ws/dir.rs".to_string(), false),
    ];
    let files = collect_rust_files(walked, "/ws");
    let names: Vec<_> = files.iter().map(|f| f.relative.clone()).collect();
    assert_eq!(names, vec!["a.rs", "b.rs"]);
    assert_eq!(files[0].absolute, "/ws/a.rs");
}

#[test]
fn synthetic_file_path_is_under_target() {
    let p = synthetic_file_path("/ws");
    assert!(Path::new(&p).ends_with("target/.rustics-expanded.rs"));
    assert_eq!(p, "/ws/target/.rustics-expanded.rs");
}

#[test]
fn from_keyword_recognises_both() {
    assert_eq!(SnapshotMode::from_keyword("cache"), Some(SnapshotMode::Cache));
    assert_eq!(SnapshotMode::from_keyword("baseline"), Some(SnapshotMode::Baseline));
    assert_eq!(SnapshotMode::from_keyword("/tmp/foo.json"), None);
}

#[test]
fn path_in_uses_target_for_cache_and_root_for_baseline() {
    assert_eq!(
        SnapshotMode::Cache.path_in("/ws"),
        "/ws/target/.rustics-cache/snapshot.json",
    );
    assert_eq!(SnapshotMode::Baseline.path_in("/ws"), "/ws/rustics-snapshot.json");
}

#[test]
fn hex_lowercase_is_zero_padded() {
    assert_eq!(hex_lowercase(&[0x01, 0x0a, 0xff]), "010aff");
    assert_eq!(hex_lowercase(&[]), "");
}

#[test]
fn partition_handles_empty() {
    let files: Vec<u8> = vec![];
    assert!(partition(&files, 4).is_empty());
}

#[test]
fn partition_caps_chunk_count_at_files_len() {
    let files = vec!["a.rs", "b.rs"];
    let chunks = partition(&files, 16);
    assert_eq!(chunks.len(), 2);
}

#[test]
fn partition_with_one_thread_returns_one_chunk() {
    let files = vec!["a.rs", "b.rs", "c.rs"];
    let chunks = partition(&files, 1);
    assert_eq!(chunks.len(), 1);
    assert_eq!(chunks[0].len(), 3);
}

#[test]
fn partition_distributes_evenly() {
    let files = vec!["a.rs", "b.rs", "c.rs", "d.rs"];
    let chunks = partition(&files, 2);
    assert_eq!(chunks.len(), 2);
    assert_eq!(chunks[0].len(), 2);
    assert_eq!(chunks[1].len(), 2);
}

#[test]
fn partition_zero_concurrency_means_one_worker_and_uses_every_worker() {
    let files = vec![1, 2, 3, 4, 5];
    assert_eq!(partition(&files, 0).len(), 1);
    let chunks = partition(&files, 4);
    assert_eq!(chunks.len(), 4);
    let sizes: Vec<usize> = chunks.iter().map(|c| c.len()).collect();
    assert_eq!(sizes, vec![2, 1, 1, 1]);
    assert_eq!(chunks.concat(), files);
}

#[test]
fn partition_chunk_sizes_differ_by_at_most_one() {
    let files: Vec<u32> = (0..10).collect();
    let chunks = partition(&files, 3);
    let sizes: Vec<usize> = chunks.iter().map(|c| c.len()).collect();
    assert_eq!(sizes, vec![4, 3, 3]);
    assert_eq!(chunks.concat(), files);
}

#[test]
fn panic_marker_names_the_lock() {
    let e = panic_marker("file-counter lock");
    assert_eq!(e.relative, "<runner>");
    assert_eq!(
        e.message,
        "worker panic poisoned `file-counter lock` — partial results returned, treat exit as failure"
    );
}
