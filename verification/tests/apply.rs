use cargo_rustics::items::{is_well_placed, ItemKind, SourceItem};
use cargo_rustics::unused::apply::{
    apply_outcome_text, consume_trailing_newline, edit_file, extend_through_immediate_comma,
    find_const_in_impl, find_item_range, find_method_in_impl, group_by_file, is_test_path, line_of,
    locate_variant_in_enum, merge_ranges, record_edit, remove_ranges, LocatorResult,
    Outcome,
};
use cargo_rustics::unused::UnusedItem;

/// An item whose node is the first occurrence of `text` in `src`, named
/// `name` at the first occurrence of the name inside that text.
fn node(src: &str, kind: ItemKind, text: &str, name: Option<&str>, children: Vec<SourceItem>) -> SourceItem {
    let start = src.find(text).expect("node text in source");
    let name_start = match name {
        Some(n) => start + text.find(n).expect("name in node text"),
        None => 0,
    };
    SourceItem {
        kind,
        name: name.map(|n| n.to_string()),
        name_start,
        start,
        end: start + text.len(),
        docs: Vec::new(),
        children,
    }
}

fn item_with(file: &str, name: &str, kind: &str, parent: Option<&str>, line: usize) -> UnusedItem {
    UnusedItem {
        file: file.to_string(),
        line,
        name: name.to_string(),
        kind: kind.to_string(),
        parent: parent.map(|p| p.to_string()),
    }
}

fn abc_enum(src: &str, last: &str) -> Vec<SourceItem> {
    let text = &src[..src.len() - 1];
    vec![node(
        src,
        ItemKind::Enum,
        text,
        Some("E"),
        vec![
            node(src, ItemKind::Variant, "A", Some("A"), vec![]),
            node(src, ItemKind::Variant, "B", Some("B"), vec![]),
            node(src, ItemKind::Variant, last, Some("C"), vec![]),
        ],
    )]
}

fn item(file: &str, name: &str, kind: &str) -> UnusedItem {
    UnusedItem {
        file: file.to_string(),
        line: 1,
        name: name.to_string(),
        kind: kind.to_string(),
        parent: None,
    }
}

#[test]
fn is_test_path_recognises_workspace_and_crate_tests() {
    assert!(is_test_path("tests/foo.rs"));
    assert!(is_test_path("crates/foo/tests/bar.rs"));
    assert!(is_test_path("crates/foo/integration_test/baz.rs"));
    assert!(is_test_path("integration_test/qux.rs"));
    assert!(!is_test_path("crates/foo/src/lib.rs"));
    assert!(!is_test_path("src/main.rs"));
}

#[test]
fn merge_ranges_coalesces_nested() {
    let merged = merge_ranges(vec![(10, 20), (12, 18)]);
    assert_eq!(merged, [(10, 20)]);
}

#[test]
fn merge_ranges_coalesces_overlapping() {
    let merged = merge_ranges(vec![(10, 15), (12, 18)]);
    assert_eq!(merged, [(10, 18)]);
}

#[test]
fn merge_ranges_keeps_disjoint_separate() {
    let merged = merge_ranges(vec![(0, 5), (10, 15), (20, 25)]);
    assert_eq!(merged, [(0, 5), (10, 15), (20, 25)]);
}

#[test]
fn merge_ranges_handles_empty_input() {
    let merged: Vec<(usize, usize)> = merge_ranges(vec![]);
    assert!(merged.is_empty());
}

#[test]
fn merge_ranges_sorts_unsorted_input() {
    let merged = merge_ranges(vec![(20, 25), (10, 22), (0, 5)]);
    assert_eq!(merged, [(0, 5), (10, 25)]);
}

#[test]
fn merge_ranges_keeps_touching_ranges_apart() {
    // A range that starts exactly where the current one ends is not
    // folded in: `next.0 < current.1` is strict.
    assert_eq!(merge_ranges(vec![(5, 9), (0, 5)]), [(0, 5), (5, 9)]);
}

#[test]
fn extend_through_immediate_comma_consumes_only_when_present() {
    let src = "C,";
    assert_eq!(extend_through_immediate_comma(1, src), 2);
    let src = "C\n";
    assert_eq!(extend_through_immediate_comma(1, src), 1);
    let src = "C";
    assert_eq!(extend_through_immediate_comma(1, src), 1);
}

#[test]
fn consume_trailing_newline_consumes_one_newline() {
    assert_eq!(consume_trailing_newline(3, "abc\n\n"), 4);
    assert_eq!(consume_trailing_newline(2, "abc\n"), 2);
    assert_eq!(consume_trailing_newline(9, "abc\n"), 9);
}

#[test]
fn line_of_counts_newlines_before_offset() {
    let src = "a\nbb\nccc\n";
    assert_eq!(line_of(src, 0), 1);
    assert_eq!(line_of(src, 2), 2);
    assert_eq!(line_of(src, 5), 3);
    assert_eq!(line_of(src, 999), 1);
    // Inside a multi-byte character is no boundary.
    assert_eq!(line_of("\n─", 2), 1);
}

#[test]
fn locate_variant_middle_and_last() {
    let src = "pub enum E {\n    A,\n    B,\n    C,\n}\n";
    let e = &abc_enum(src, "C")[0];
    assert_eq!(locate_variant_in_enum(e, src, "B", 3), LocatorResult::Resolved(24, 31));
    assert_eq!(locate_variant_in_enum(e, src, "C", 4), LocatorResult::Resolved(25, 33));
    assert_eq!(locate_variant_in_enum(e, src, "C", 9), LocatorResult::NotFound);
    let solo_src = "pub enum E {\n    A,\n}\n";
    let solo = node(
        solo_src,
        ItemKind::Enum,
        "pub enum E {\n    A,\n}",
        Some("E"),
        vec![node(solo_src, ItemKind::Variant, "A", Some("A"), vec![])],
    );
    assert_eq!(locate_variant_in_enum(&solo, solo_src, "A", 2), LocatorResult::Unsupported);
}

#[test]
fn locate_member_takes_trailing_newline() {
    let src = "impl Foo {\n    fn m() {}\n}\n";
    let imp = node(
        src,
        ItemKind::Impl,
        "impl Foo {\n    fn m() {}\n}",
        Some("Foo"),
        vec![node(src, ItemKind::Fn, "fn m() {}", Some("m"), vec![])],
    );
    assert_eq!(find_method_in_impl(&imp, src, "m", 2), Some(LocatorResult::Resolved(15, 25)));
    assert_eq!(find_method_in_impl(&imp, src, "m", 3), None);
}

#[test]
fn find_item_range_looks_into_inline_modules() {
    let src = "mod inner {\n    pub struct S;\n    impl S {\n        fn go() {}\n    }\n}\n";
    let items = vec![node(
        src,
        ItemKind::Module,
        &src[..src.len() - 1],
        Some("inner"),
        vec![
            node(src, ItemKind::Struct, "pub struct S;", Some("S"), vec![]),
            node(
                src,
                ItemKind::Impl,
                "impl S {\n        fn go() {}\n    }",
                Some("S"),
                vec![node(src, ItemKind::Fn, "fn go() {}", Some("go"), vec![])],
            ),
        ],
    )];
    let s_start = src.find("pub struct S;").unwrap();
    assert_eq!(
        find_item_range(&items, src, &item_with("src/lib.rs", "S", "struct", None, 2)),
        LocatorResult::Resolved(s_start, s_start + "pub struct S;\n".len())
    );
    let go = src.find("fn go() {}").unwrap();
    assert_eq!(
        find_item_range(&items, src, &item_with("src/lib.rs", "go", "method", Some("S"), 4)),
        LocatorResult::Resolved(go, go + "fn go() {}\n".len())
    );
    assert_eq!(
        find_item_range(&items, src, &item_with("src/lib.rs", "S", "enum", None, 2)),
        LocatorResult::NotFound
    );
    assert_eq!(
        find_item_range(&items, src, &item_with("src/lib.rs", "go", "static-method", Some("S"), 4)),
        LocatorResult::NotFound
    );
}

#[test]
fn is_well_placed_rejects_out_of_order_siblings() {
    let src = "fn a() {}\nfn b() {}\n";
    let mut items = vec![
        node(src, ItemKind::Fn, "fn a() {}", Some("a"), vec![]),
        node(src, ItemKind::Fn, "fn b() {}", Some("b"), vec![]),
    ];
    assert!(is_well_placed(&items, src.len()));
    assert!(!is_well_placed(&items, 5));
    items.swap(0, 1);
    assert!(!is_well_placed(&items, src.len()));
}

#[test]
fn remove_ranges_keeps_the_gaps() {
    let out = remove_ranges(b"0123456789", &[(1, 3), (5, 5), (7, 10)]);
    assert_eq!(out, b"03456".to_vec());
}

#[test]
fn edit_file_counts_and_splices() {
    let src = "pub fn keep() {}\npub fn drop_me() {}\npub fn other() {}\n";
    let results = vec![
        LocatorResult::Resolved(17, 37),
        LocatorResult::NotFound,
        LocatorResult::Unsupported,
        LocatorResult::Resolved(20, 30),
    ];
    let e = edit_file(src, &results);
    assert_eq!(e.deleted, 2);
    assert_eq!(e.not_found, 1);
    assert_eq!(e.skipped_unsupported, 1);
    assert_eq!(
        String::from_utf8(e.new_source.unwrap()).unwrap(),
        "pub fn keep() {}\npub fn other() {}\n"
    );
    let none = edit_file(src, &[LocatorResult::NotFound]);
    assert!(none.new_source.is_none());
}

#[test]
fn group_by_file_skips_tests_and_groups_in_first_seen_order() {
    let items = vec![
        item("src/b.rs", "x", "fn"),
        item("tests/t.rs", "y", "fn"),
        item("src/a.rs", "z", "fn"),
        item("src/b.rs", "w", "struct"),
    ];
    let (skipped, groups) = group_by_file(&items, false);
    assert_eq!(skipped, 1);
    assert_eq!(groups.len(), 2);
    assert_eq!(groups[0].file, "src/b.rs");
    assert_eq!(groups[0].items, vec![0, 3]);
    assert_eq!(groups[1].file, "src/a.rs");
    assert_eq!(groups[1].items, vec![2]);
    let (skipped, groups) = group_by_file(&items, true);
    assert_eq!(skipped, 0);
    assert_eq!(groups.len(), 3);
}

#[test]
fn record_edit_counts_touched_files() {
    let mut o = Outcome::default();
    let e = edit_file("ab\n", &[LocatorResult::Resolved(0, 1)]);
    record_edit(&mut o, &e);
    let none = edit_file("ab\n", &[LocatorResult::NotFound]);
    record_edit(&mut o, &none);
    assert_eq!(o.deleted, 1);
    assert_eq!(o.touched_files, 1);
    assert_eq!(o.not_found, 1);
}

fn outcome_shape(
    deleted: usize,
    touched_files: usize,
    skipped_test_files: usize,
    skipped_unsupported: usize,
    not_found: usize,
) -> Outcome {
    Outcome { deleted, touched_files, skipped_test_files, skipped_unsupported, not_found }
}

const HEADLINE_ZERO: &str = "rustics unused --apply: deleted 0 item(s) across 0 file(s).\n";

#[test]
fn print_apply_outcome_handles_empty_outcome() {
    assert_eq!(apply_outcome_text(&outcome_shape(0, 0, 0, 0, 0)), HEADLINE_ZERO);
}

#[test]
fn print_apply_outcome_prints_deleted_summary() {
    assert_eq!(
        apply_outcome_text(&outcome_shape(3, 2, 0, 0, 0)),
        "rustics unused --apply: deleted 3 item(s) across 2 file(s).\n  Run `cargo fix --allow-staged` to clean up newly unused imports.\n"
    );
}

#[test]
fn print_apply_outcome_prints_skipped_test_files() {
    assert_eq!(
        apply_outcome_text(&outcome_shape(0, 0, 4, 0, 0)),
        format!("{HEADLINE_ZERO}  (4 test-file declaration(s) skipped; pass --include-tests to delete)\n")
    );
}

#[test]
fn print_apply_outcome_prints_skipped_unsupported() {
    assert_eq!(
        apply_outcome_text(&outcome_shape(0, 0, 0, 2, 0)),
        format!("{HEADLINE_ZERO}  (2 declaration(s) refused — would leave invalid Rust (e.g. only variant in an enum))\n")
    );
}

#[test]
fn print_apply_outcome_prints_not_found() {
    assert_eq!(
        apply_outcome_text(&outcome_shape(0, 0, 0, 0, 5)),
        format!("{HEADLINE_ZERO}  (5 declaration(s) not found in source — file may have changed since detect)\n")
    );
}

#[test]
fn print_apply_outcome_prints_every_branch_at_once() {
    let s = apply_outcome_text(&outcome_shape(7, 3, 1, 1, 2));
    let lines: Vec<&str> = s.lines().collect();
    assert_eq!(lines.len(), 5);
    assert_eq!(lines[0], "rustics unused --apply: deleted 7 item(s) across 3 file(s).");
    assert!(lines[1].starts_with("  (1 test-file"));
    assert!(lines[2].starts_with("  (1 declaration(s) refused"));
    assert!(lines[3].starts_with("  (2 declaration(s) not found"));
    assert!(lines[4].starts_with("  Run `cargo fix"));
}

#[test]
fn find_const_in_impl_skips_methods_of_the_same_name() {
    let src = "impl Foo {\n    fn K() {}\n    const K: u8 = 1;\n}\n";
    let imp = node(
        src,
        ItemKind::Impl,
        "impl Foo {\n    fn K() {}\n    const K: u8 = 1;\n}",
        Some("Foo"),
        vec![
            node(src, ItemKind::Fn, "fn K() {}", Some("K"), vec![]),
            node(src, ItemKind::Const, "const K: u8 = 1;", Some("K"), vec![]),
        ],
    );
    let c = src.find("const K").unwrap();
    assert_eq!(
        find_const_in_impl(&imp, src, "K", 3),
        Some(LocatorResult::Resolved(c, c + "const K: u8 = 1;\n".len()))
    );
    assert_eq!(find_const_in_impl(&imp, src, "K", 2), None);
}
