use ra_ap_syntax::{Edition, SourceFile};
use cargo_rustics::items::ItemKind;
use cargo_rustics::syntax::parse_items;
use cargo_rustics::unused::apply::{apply_to_file, group_by_file, Outcome};
use cargo_rustics::unused::UnusedItem;

fn item(file: &str, name: &str, kind: &str, line: usize) -> UnusedItem {
    UnusedItem {
        file: file.to_string(),
        line,
        name: name.to_string(),
        kind: kind.to_string(),
        parent: None,
    }
}

fn copy(u: &UnusedItem) -> UnusedItem {
    UnusedItem {
        file: u.file.clone(),
        line: u.line,
        name: u.name.clone(),
        kind: u.kind.clone(),
        parent: u.parent.clone(),
    }
}

/// Runs a deletion over in-memory files the way `unused --apply` runs it
/// over the workspace: group by file (skipping test paths unless
/// included), edit each file, and collect the rewritten ones.
fn apply(files: &[(&str, &str)], items: &[UnusedItem], include_tests: bool) -> (Outcome, Vec<(String, String)>) {
    let (skipped, groups) = group_by_file(items, include_tests);
    let mut outcome = Outcome::default();
    outcome.skipped_test_files = skipped;
    let mut written = Vec::new();
    for g in &groups {
        let source = files.iter().find(|(f, _)| *f == g.file).expect("file").1;
        let requested: Vec<UnusedItem> = g.items.iter().map(|&i| copy(&items[i])).collect();
        if let Some(bytes) = apply_to_file(&mut outcome, source, &requested) {
            written.push((g.file.clone(), String::from_utf8(bytes).unwrap()));
        }
    }
    (outcome, written)
}

#[test]
fn apply_skips_test_paths_by_default() {
    let files = [("tests/helpers.rs", "pub fn helper() {}\n")];
    let (outcome, written) = apply(&files, &[item("tests/helpers.rs", "helper", "fn", 1)], false);
    assert_eq!(outcome.deleted, 0);
    assert_eq!(outcome.skipped_test_files, 1);
    assert_eq!(outcome.touched_files, 0);
    assert!(written.is_empty());
}

#[test]
fn apply_can_include_test_paths() {
    let files = [("tests/helpers.rs", "pub fn helper() {}\n")];
    let (outcome, written) = apply(&files, &[item("tests/helpers.rs", "helper", "fn", 1)], true);
    assert_eq!(outcome.deleted, 1);
    assert_eq!(outcome.skipped_test_files, 0);
    assert_eq!(outcome.touched_files, 1);
    assert_eq!(written, vec![("tests/helpers.rs".to_string(), String::new())]);
}

#[test]
fn apply_from_source_deletes_and_counts_touched_files() {
    let lib = "pub fn keep() {}\npub fn drop_me() {\n    println!(\"x\");\n}\npub fn other() {}\n";
    let main = "pub fn alive() {}\n";
    let files = [("src/lib.rs", lib), ("src/main.rs", main)];
    let items = [item("src/lib.rs", "drop_me", "fn", 2), item("src/main.rs", "ghost", "fn", 1)];
    let (outcome, written) = apply(&files, &items, false);
    assert_eq!(outcome.deleted, 1);
    assert_eq!(outcome.not_found, 1);
    assert_eq!(outcome.touched_files, 1);
    assert_eq!(written.len(), 1);
    let after = &written[0].1;
    assert_eq!(after, "pub fn keep() {}\npub fn other() {}\n");
    let reparsed = parse_items(after);
    let names: Vec<Option<&str>> = reparsed.iter().map(|i| i.name.as_deref()).collect();
    assert_eq!(names, vec![Some("keep"), Some("other")]);
    assert!(reparsed.iter().all(|i| i.kind == ItemKind::Fn));
}

#[test]
fn apply_from_source_deletes_two_items_in_one_file() {
    let lib = "pub fn one() {}\npub fn two() {}\npub fn three() {}\n";
    let files = [("src/lib.rs", lib)];
    let items = [item("src/lib.rs", "one", "fn", 1), item("src/lib.rs", "three", "fn", 3)];
    let (outcome, written) = apply(&files, &items, false);
    assert_eq!(outcome.deleted, 2);
    assert_eq!(outcome.touched_files, 1);
    assert_eq!(written[0].1, "pub fn two() {}\n");
    assert_eq!(parse_items(&written[0].1).len(), 1);
}

fn item_with(file: &str, name: &str, kind: &str, parent: Option<&str>, line: usize) -> UnusedItem {
    UnusedItem {
        file: file.to_string(),
        line,
        name: name.to_string(),
        kind: kind.to_string(),
        parent: parent.map(|p| p.to_string()),
    }
}

/// The post-splice source still parses as Rust.
fn parse_ok(src: &str) {
    let parsed = SourceFile::parse(src, Edition::CURRENT);
    let errors = parsed.errors();
    assert!(errors.is_empty(), "post-splice source has parse errors: {errors:?}\nsource:\n{src}");
}

/// Runs the deletion on one `src/lib.rs` and returns the outcome and the
/// file's text afterwards.
fn apply_lib(src: &str, items: &[UnusedItem]) -> (Outcome, String) {
    let files = [("src/lib.rs", src)];
    let (outcome, written) = apply(&files, items, false);
    let after = match written.first() {
        Some((_, text)) => text.clone(),
        None => src.to_string(),
    };
    (outcome, after)
}

#[test]
fn apply_deletes_top_level_fn() {
    let src = "pub fn keep() {}\npub fn drop_me() {\n    println!(\"x\");\n}\npub fn other() {}\n";
    let (outcome, after) = apply_lib(src, &[item("src/lib.rs", "drop_me", "fn", 1)]);
    assert_eq!(outcome.deleted, 1);
    assert_eq!(outcome.touched_files, 1);
    assert!(!after.contains("drop_me"), "after = {after:?}");
    assert!(after.contains("keep"));
    assert!(after.contains("other"));
    parse_ok(&after);
}

#[test]
fn apply_deletes_attributes_with_item() {
    let src = "/// Docstring.\n#[deprecated]\npub fn drop_me() {}\npub fn keep() {}\n";
    let (_, after) = apply_lib(src, &[item("src/lib.rs", "drop_me", "fn", 1)]);
    assert!(!after.contains("drop_me"));
    assert!(!after.contains("Docstring"));
    assert!(!after.contains("deprecated"));
    assert!(after.contains("keep"));
}

#[test]
fn apply_descending_order_keeps_offsets_valid() {
    let src = "pub fn one() {}\npub fn two() {}\npub fn three() {}\n";
    let (outcome, after) =
        apply_lib(src, &[item("src/lib.rs", "one", "fn", 1), item("src/lib.rs", "three", "fn", 1)]);
    assert_eq!(outcome.deleted, 2);
    assert!(!after.contains("one"));
    assert!(!after.contains("three"));
    assert!(after.contains("two"));
}

#[test]
fn apply_unknown_name_is_recorded_as_not_found() {
    let src = "pub fn alive() {}\n";
    let (outcome, after) = apply_lib(src, &[item("src/lib.rs", "ghost", "fn", 1)]);
    assert_eq!(outcome.deleted, 0);
    assert_eq!(outcome.not_found, 1);
    assert_eq!(outcome.touched_files, 0);
    assert_eq!(after, src);
}

#[test]
fn apply_deletes_inherent_method() {
    let src = "pub struct Foo;\nimpl Foo {\n    pub fn keep(&self) {}\n    pub fn drop_me(&self) {\n        println!(\"x\");\n    }\n}\n";
    let (outcome, after) = apply_lib(src, &[item_with("src/lib.rs", "drop_me", "method", Some("Foo"), 4)]);
    assert_eq!(outcome.deleted, 1);
    assert!(!after.contains("drop_me"));
    assert!(after.contains("keep"));
    assert!(after.contains("impl Foo"));
}

#[test]
fn apply_deletes_assoc_const() {
    let src = "pub struct Foo;\nimpl Foo {\n    pub const KEEP: u8 = 1;\n    pub const DROP_ME: u8 = 2;\n}\n";
    let (outcome, after) =
        apply_lib(src, &[item_with("src/lib.rs", "DROP_ME", "assoc-const", Some("Foo"), 4)]);
    assert_eq!(outcome.deleted, 1);
    assert!(!after.contains("DROP_ME"));
    assert!(after.contains("KEEP"));
}

#[test]
fn apply_deletes_middle_enum_variant_with_comma() {
    let src = "pub enum E {\n    A,\n    B,\n    C,\n}\n";
    let (outcome, after) = apply_lib(src, &[item_with("src/lib.rs", "B", "variant", Some("E"), 3)]);
    assert_eq!(outcome.deleted, 1);
    assert!(!after.contains(" B,"));
    assert!(after.contains(" A,"));
    assert!(after.contains(" C,"));
    parse_ok(&after);
}

#[test]
fn apply_deletes_first_enum_variant() {
    let src = "pub enum E {\n    A,\n    B,\n    C,\n}\n";
    let (outcome, after) = apply_lib(src, &[item_with("src/lib.rs", "A", "variant", Some("E"), 2)]);
    assert_eq!(outcome.deleted, 1);
    assert!(!after.contains(" A,"));
    assert!(after.contains(" B,"));
    parse_ok(&after);
}

#[test]
fn apply_deletes_last_enum_variant() {
    let src = "pub enum E {\n    A,\n    B,\n    C\n}\n";
    let (outcome, after) = apply_lib(src, &[item_with("src/lib.rs", "C", "variant", Some("E"), 4)]);
    assert_eq!(outcome.deleted, 1);
    assert!(!after.contains(" C"));
    assert!(after.contains(" A,"));
    assert!(after.contains(" B"));
    parse_ok(&after);
}

#[test]
fn apply_refuses_only_variant_in_enum() {
    let src = "pub enum E {\n    Solo,\n}\n";
    let (outcome, after) = apply_lib(src, &[item_with("src/lib.rs", "Solo", "variant", Some("E"), 2)]);
    assert_eq!(outcome.deleted, 0);
    assert_eq!(outcome.skipped_unsupported, 1);
    assert!(after.contains("Solo"));
}

#[test]
fn apply_method_without_parent_is_not_found() {
    let src = "pub struct Foo; impl Foo { pub fn m() {} }\n";
    let (outcome, _) = apply_lib(src, &[item_with("src/lib.rs", "m", "method", None, 1)]);
    assert_eq!(outcome.deleted, 0);
    assert_eq!(outcome.not_found, 1);
}

#[test]
fn apply_deletes_all_variants_with_trailing_comma() {
    let src = "pub enum E {\n    A,\n    B,\n    C,\n}\n";
    let (outcome, after) = apply_lib(
        src,
        &[
            item_with("src/lib.rs", "A", "variant", Some("E"), 2),
            item_with("src/lib.rs", "B", "variant", Some("E"), 3),
            item_with("src/lib.rs", "C", "variant", Some("E"), 4),
        ],
    );
    assert_eq!(outcome.deleted, 3);
    assert!(!after.contains(" A,"));
    assert!(!after.contains(" B,"));
    assert!(!after.contains(" C,"));
    parse_ok(&after);
}

#[test]
fn apply_handles_enum_and_variant_in_one_shot() {
    let src = "pub fn keep() {}\npub enum E {\n    A,\n    B,\n    C,\n}\npub fn other() {}\n";
    let (outcome, after) = apply_lib(
        src,
        &[
            item_with("src/lib.rs", "B", "variant", Some("E"), 4),
            item_with("src/lib.rs", "E", "enum", None, 2),
        ],
    );
    assert_eq!(outcome.deleted, 2);
    assert!(after.contains("pub fn keep"));
    assert!(after.contains("pub fn other"));
    assert!(!after.contains("enum E"));
    assert!(!after.contains(" A,"));
    assert!(!after.contains(" B,"));
    assert!(!after.contains(" C,"));
    parse_ok(&after);
}

#[test]
fn apply_method_in_trait_impl_is_not_found() {
    let src = "pub struct Foo; pub trait T { fn m(&self); }\nimpl T for Foo { fn m(&self) {} }\n";
    let (outcome, _) = apply_lib(src, &[item_with("src/lib.rs", "m", "method", Some("Foo"), 2)]);
    assert_eq!(outcome.deleted, 0);
    assert_eq!(outcome.not_found, 1);
}
