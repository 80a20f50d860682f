use cargo_rustics::unused;
use cargo_rustics::unused::{
    apply_kind_filter, convert_hir_item, parse_kind_filter, HirUnusedItem, UnusedItem, KNOWN_KINDS,
};

fn item(kind: &str, name: &str, file: &str, line: usize) -> UnusedItem {
    UnusedItem {
        file: file.into(),
        line,
        name: name.into(),
        kind: kind.into(),
        parent: None,
    }
}

#[test]
fn known_kinds_covers_every_classifier_output() {
    for kind in ["fn", "struct", "method", "assoc-const", "adt", "trait"] {
        assert!(
            KNOWN_KINDS.contains(&kind),
            "kind `{kind}` is emitted by the HIR walker but missing from KNOWN_KINDS"
        );
    }
}

#[test]
fn parse_kind_filter_none_when_empty() {
    assert!(parse_kind_filter(&[]).unwrap().is_none());
}

#[test]
fn parse_kind_filter_accepts_comma_separated() {
    let parsed = parse_kind_filter(&["fn,struct".into()]).unwrap().unwrap();
    assert!(parsed.contains("fn"));
    assert!(parsed.contains("struct"));
}

#[test]
fn parse_kind_filter_rejects_unknown_kind() {
    let err = parse_kind_filter(&["typoeneous".into()]).unwrap_err();
    assert!(err.message().contains("unknown kind"));
}

#[test]
fn parse_kind_filter_error_lists_valid_kinds() {
    let err = parse_kind_filter(&["fn".into(), "bogus,struct".into()]).unwrap_err();
    assert_eq!(err.kind, "bogus");
    assert_eq!(
        err.message(),
        "unused --filter: unknown kind `bogus`. Valid kinds: fn, struct, enum, trait, type, \
         const, static, union, variant, method, assoc-const, adt"
    );
}

#[test]
fn parse_kind_filter_ignores_only_whitespace_entries() {
    let parsed = parse_kind_filter(&["  , fn ,  ".into()]).unwrap().unwrap();
    assert_eq!(parsed.len(), 1);
    assert!(parsed.contains("fn"));
}

#[test]
fn parse_kind_filter_returns_none_when_every_chunk_empty() {
    let parsed = parse_kind_filter(&[",,".into()]).unwrap();
    assert!(parsed.is_none());
}

#[test]
fn apply_kind_filter_returns_input_unchanged_when_no_allowset() {
    let input = vec![item("fn", "a", "a.rs", 1)];
    let n = input.len();
    let out = apply_kind_filter(input, None);
    assert_eq!(out.len(), n);
}

#[test]
fn apply_kind_filter_keeps_only_allowed_kinds() {
    let input = vec![
        item("fn", "a", "a.rs", 1),
        item("struct", "S", "a.rs", 2),
        item("method", "m", "a.rs", 3),
    ];
    let allowed = parse_kind_filter(&["fn".to_string(), "method".to_string()])
        .unwrap()
        .unwrap();
    let out = apply_kind_filter(input, Some(&allowed));
    assert_eq!(out.len(), 2);
    assert!(out.iter().all(|i| i.kind == "fn" || i.kind == "method"));
}

#[test]
fn format_handles_empty_list() {
    assert_eq!(unused::format(&[]), "rustics unused: no candidates found.\n");
}

#[test]
fn format_renders_top_level_items_without_parent_prefix() {
    let body = unused::format(&[item("fn", "free", "a.rs", 7)]);
    assert!(body.contains("fn free — a.rs:7"), "got: {body}");
}

#[test]
fn format_renders_method_items_with_parent_prefix() {
    let mut m = item("method", "do_it", "a.rs", 9);
    m.parent = Some("Foo".into());
    let body = unused::format(&[m]);
    assert!(body.contains("method Foo::do_it — a.rs:9"), "got: {body}");
}

#[test]
fn format_counts_candidates_in_header() {
    let body = unused::format(&[item("fn", "a", "a.rs", 1), item("struct", "B", "b.rs", 12)]);
    assert_eq!(
        body,
        "rustics unused: 2 candidate(s):\n  fn a — a.rs:1\n  struct B — b.rs:12\n"
    );
}

#[test]
fn convert_hir_item_strips_workspace_prefix_and_renames_line() {
    let hir = HirUnusedItem {
        file: "/ws/crates/foo/src/lib.rs".into(),
        line: 41,
        name: "thing".into(),
        kind: "fn".into(),
        parent: None,
    };
    let item = convert_hir_item(hir, "/ws");
    assert_eq!(item.file, "crates/foo/src/lib.rs");
    assert_eq!(item.line, 42);
    assert_eq!(item.kind, "fn");
}

#[test]
fn convert_hir_item_passes_path_through_when_no_prefix_match() {
    let hir = HirUnusedItem {
        file: "absolute/elsewhere.rs".into(),
        line: 0,
        name: "x".into(),
        kind: "fn".into(),
        parent: None,
    };
    let item = convert_hir_item(hir, "/ws");
    assert_eq!(item.file, "absolute/elsewhere.rs");
    assert_eq!(item.line, 1);
}

#[test]
fn convert_hir_item_drops_every_leading_slash_and_keeps_the_parent() {
    let hir = HirUnusedItem {
        file: "/ws//src/a.rs".into(),
        line: 6,
        name: "Red".into(),
        kind: "variant".into(),
        parent: Some("Color".into()),
    };
    let item = convert_hir_item(hir, "/ws");
    assert_eq!(item.file, "src/a.rs");
    assert_eq!(item.line, 7);
    assert_eq!(item.parent.as_deref(), Some("Color"));
}
