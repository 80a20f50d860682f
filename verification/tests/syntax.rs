use cargo_rustics::doc_comments::file_doc_dismissals;
use cargo_rustics::items::ItemKind;
use cargo_rustics::syntax::{doc_comment_text, parse_items, syntax_events};

const SOURCE: &str = r#"//! Crate docs.

/// Parses things.
/// rustics:dismiss cyclomatic-complexity reason="State machine: branching is intent."
pub fn parse() {}

/// A colour.
enum Color {
    /// Red.
    Red,
    Green,
}

trait Shape {
    /// rustics:dismiss method-length reason="Long enough reason here."
    fn area(&self) -> u32;
}

impl<'a> &'a crate::geo::Square {
    fn side(&self) -> u32 { 1 }
}

impl Shape for Square {
    fn area(&self) -> u32 { 1 }
}

mod inner {
    /// rustics:dismiss npath-complexity reason="Long enough reason here."
    struct Deep;
}

use std::fmt;
"#;

#[test]
fn parse_items_reads_every_top_level_item() {
    let items = parse_items(SOURCE);
    let kinds: Vec<ItemKind> = items.iter().map(|i| i.kind).collect();
    assert_eq!(
        kinds,
        vec![
            ItemKind::Fn,
            ItemKind::Enum,
            ItemKind::Trait,
            ItemKind::Impl,
            ItemKind::TraitImpl,
            ItemKind::Module,
            ItemKind::Other,
        ]
    );
    let f = &items[0];
    assert_eq!(f.name.as_deref(), Some("parse"));
    assert_eq!(&SOURCE[f.name_start..f.name_start + 5], "parse");
    assert_eq!(f.docs.len(), 2);
    assert_eq!(f.docs[0], " Parses things.");
    assert!(SOURCE[f.start..f.end].starts_with("/// Parses things."));
    assert!(SOURCE[f.start..f.end].ends_with("pub fn parse() {}"));
}

#[test]
fn parse_items_reads_variants_and_associated_items() {
    let items = parse_items(SOURCE);
    let e = &items[1];
    assert_eq!(e.name.as_deref(), Some("Color"));
    let variants: Vec<Option<&str>> = e.children.iter().map(|v| v.name.as_deref()).collect();
    assert_eq!(variants, vec![Some("Red"), Some("Green")]);
    assert_eq!(e.children[0].kind, ItemKind::Variant);
    assert_eq!(e.children[0].docs, vec![" Red.".to_string()]);
    let t = &items[2];
    assert_eq!(t.children.len(), 1);
    assert_eq!(t.children[0].kind, ItemKind::Fn);
    assert_eq!(t.children[0].name.as_deref(), Some("area"));
    let m = &items[5];
    assert_eq!(m.name.as_deref(), Some("inner"));
    assert_eq!(m.children[0].kind, ItemKind::Struct);
    assert_eq!(m.children[0].name.as_deref(), Some("Deep"));
}

#[test]
fn impl_self_type_name_looks_through_references_and_paths() {
    let items = parse_items(SOURCE);
    let inherent = &items[3];
    assert_eq!(inherent.name.as_deref(), Some("Square"));
    assert_eq!(&SOURCE[inherent.name_start..inherent.name_start + 6], "Square");
    assert_eq!(inherent.children[0].name.as_deref(), Some("side"));
    let trait_impl = &items[4];
    assert!(trait_impl.name.is_none());
    assert_eq!(trait_impl.children[0].name.as_deref(), Some("area"));
    let tuple = parse_items("impl (u8, u8) {}");
    assert_eq!(tuple[0].kind, ItemKind::Impl);
    assert!(tuple[0].name.is_none());
}

#[test]
fn file_doc_dismissals_reads_directives_from_source_text() {
    let out = file_doc_dismissals("src/geo/mod.rs", SOURCE);
    let scopes: Vec<(&str, &str)> = out.iter().map(|d| (d.scope.as_str(), d.metric.as_str())).collect();
    assert_eq!(
        scopes,
        vec![
            ("geo::parse", "cyclomatic-complexity"),
            ("geo::Shape::area", "method-length"),
            ("geo::inner::Deep", "npath-complexity"),
        ]
    );
    assert!(out.iter().all(|d| d.file == "src/geo/mod.rs"));
}

#[test]
fn doc_comment_text_follows_the_comment_kinds() {
    assert_eq!(doc_comment_text("/// a").as_deref(), Some(" a"));
    assert_eq!(doc_comment_text("//! a").as_deref(), Some(" a"));
    assert_eq!(doc_comment_text("/** a */").as_deref(), Some(" a "));
    assert_eq!(doc_comment_text("/*! a").as_deref(), Some(" a"));
    assert!(doc_comment_text("//// a").is_none());
    assert!(doc_comment_text("// a").is_none());
    assert!(doc_comment_text("/**/").is_none());
    assert!(doc_comment_text("/*** a */").is_none());
}

#[test]
fn syntax_events_are_well_nested() {
    let ev = syntax_events("fn f() {}");
    assert_eq!(ev[0].kind, "SOURCE_FILE");
    assert!(ev[0].enter);
    let mut depth: i64 = 0;
    for e in &ev {
        depth += if e.enter { 1 } else { -1 };
        assert!(depth >= 0);
    }
    assert_eq!(depth, 0);
    assert!(ev.iter().any(|e| e.kind == "IDENT" && e.text.as_deref() == Some("f")));
}
