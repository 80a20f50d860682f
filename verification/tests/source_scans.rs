use cargo_rustics::cross_file::{fanout_findings, impl_sites, ImplSite, TRAIT_IMPL_FANOUT_ERROR, TRAIT_IMPL_FANOUT_WARNING};
use cargo_rustics::items::TypeShape;
use cargo_rustics::report::Severity;
use cargo_rustics::items::ItemKind;
use cargo_rustics::scan::{unused_in_sources, ScanSource, TopItem};
use syn::visit::Visit;
use syn::{Ident, Item, Visibility};

/// The top-level items as `syn` reads them, one entry per item.
fn top_items(source: &str) -> Option<Vec<Option<TopItem>>> {
    let file = syn::parse_file(source).ok()?;
    let entry = |k: ItemKind, v: &Visibility, id: &Ident| {
        Some((k, id.to_string(), id.span().start().line, matches!(v, Visibility::Public(_))))
    };
    Some(
        file.items
            .iter()
            .map(|item| match item {
                Item::Fn(i) => entry(ItemKind::Fn, &i.vis, &i.sig.ident),
                Item::Struct(i) => entry(ItemKind::Struct, &i.vis, &i.ident),
                Item::Enum(i) => entry(ItemKind::Enum, &i.vis, &i.ident),
                Item::Trait(i) => entry(ItemKind::Trait, &i.vis, &i.ident),
                Item::Type(i) => entry(ItemKind::TypeAlias, &i.vis, &i.ident),
                Item::Const(i) => entry(ItemKind::Const, &i.vis, &i.ident),
                Item::Static(i) => entry(ItemKind::Static, &i.vis, &i.ident),
                Item::Union(i) => entry(ItemKind::Union, &i.vis, &i.ident),
                _ => None,
            })
            .collect(),
    )
}

fn sources(files: &[(&str, &str)]) -> Vec<ScanSource> {
    files
        .iter()
        .map(|(f, s)| ScanSource { relative: f.to_string(), source: s.to_string(), items: top_items(s) })
        .collect()
}

#[test]
fn item_kinds_recognised() {
    let src = "pub fn f() {} pub struct S; pub enum E {} pub trait T {}";
    let out = unused_in_sources(&sources(&[("t.rs", src)]));
    let kinds: Vec<&str> = out.iter().map(|d| d.kind).collect();
    assert!(kinds.contains(&"fn"));
    assert!(kinds.contains(&"struct"));
    assert!(kinds.contains(&"enum"));
    assert!(kinds.contains(&"trait"));
}

#[test]
fn private_items_not_collected() {
    let out = unused_in_sources(&sources(&[("t.rs", "fn f() {} struct S;")]));
    assert!(out.is_empty());
}

#[test]
fn ident_count_walks_groups() {
    // `f` appears once at its declaration and twice inside g's body.
    let out = unused_in_sources(&sources(&[("t.rs", "pub fn f() {} pub fn g() { f(); f(); }")]));
    let names: Vec<&str> = out.iter().map(|d| d.name.as_str()).collect();
    assert_eq!(names, vec!["g"]);
}

#[test]
fn unused_scan_counts_references_across_files_and_skips_unparsable_ones() {
    let out = unused_in_sources(&sources(&[
        ("src/b.rs", "pub struct Used;\n\npub const LONELY: u8 = 1;\n"),
        ("src/a.rs", "pub fn make() -> Used { Used }\npub(crate) fn hidden() {}\n"),
        ("src/junk.rs", ":: this is not :: rust :: LONELY"),
    ]));
    let found: Vec<(&str, usize, &str, &str)> =
        out.iter().map(|d| (d.file.as_str(), d.line, d.name.as_str(), d.kind)).collect();
    assert_eq!(found, vec![("src/a.rs", 1, "make", "fn"), ("src/b.rs", 3, "LONELY", "const")]);
}

#[test]
fn unused_scan_reads_every_declaration_kind_and_its_line() {
    let src = "pub type A = u8;\npub static B: u8 = 0;\npub union C { x: u8 }\nmod m { pub fn inner() {} }\n";
    let out = unused_in_sources(&sources(&[("k.rs", src)]));
    let found: Vec<(usize, &str, &str)> = out.iter().map(|d| (d.line, d.name.as_str(), d.kind)).collect();
    assert_eq!(found, vec![(1, "A", "type"), (2, "B", "static"), (3, "C", "union")]);
}

/// The self type and `impl` line of every impl block in `src`.
fn impls_of(src: &str) -> Vec<(TypeShape, usize)> {
    struct Collector(Vec<(TypeShape, usize)>);
    impl<'ast> Visit<'ast> for Collector {
        fn visit_item_impl(&mut self, node: &'ast syn::ItemImpl) {
            self.0.push((shape(&node.self_ty), node.impl_token.span.start().line));
        }
    }
    let ast = syn::parse_file(src).unwrap();
    let mut c = Collector(Vec::new());
    c.visit_file(&ast);
    c.0
}

fn shape(ty: &syn::Type) -> TypeShape {
    match ty {
        syn::Type::Path(tp) => TypeShape::Path(tp.path.segments.iter().map(|s| s.ident.to_string()).collect()),
        syn::Type::Reference(r) => TypeShape::Reference(Box::new(shape(&r.elem))),
        syn::Type::Paren(p) => TypeShape::Paren(Box::new(shape(&p.elem))),
        syn::Type::Group(g) => TypeShape::Group(Box::new(shape(&g.elem))),
        _ => TypeShape::Other,
    }
}

fn sites_of(files: &[(&str, &str)]) -> Vec<ImplSite> {
    let mut sites = Vec::new();
    for (f, src) in files {
        sites.extend(impl_sites(f, &impls_of(src)));
    }
    sites
}

#[test]
fn impl_sites_keep_named_self_types_with_their_lines() {
    let src = "impl Foo for Heavy {}\nimpl<'a> Bar for &'a Light {}\nimpl Baz for (u8, u16) {}\nmod m {\n    impl Inner {}\n}\n";
    let sites = impl_sites("src/a.rs", &impls_of(src));
    let found: Vec<(&str, &str, usize)> = sites.iter().map(|s| (s.target.as_str(), s.file.as_str(), s.line)).collect();
    assert_eq!(found, vec![("Heavy", "src/a.rs", 1), ("Light", "src/a.rs", 2), ("Inner", "src/a.rs", 5)]);
}

#[test]
fn trait_impl_fanout_emits_warning_for_heavy_type() {
    let body: String = (0..9).map(|i| format!("impl Trait{i} for Heavy {{}}\n")).collect();
    let out = fanout_findings(&sites_of(&[
        ("src/a.rs", &body),
        ("src/b.rs", "impl Foo for Light {}\nimpl Bar for Light {}\n"),
    ]));
    let heavy = out.iter().find(|v| v.name == "Heavy").expect("Heavy");
    assert_eq!(heavy.severity, Severity::Warning);
    assert_eq!(heavy.count, 9);
    assert_eq!(heavy.threshold, TRAIT_IMPL_FANOUT_WARNING);
    assert_eq!(heavy.file, "src/a.rs");
    assert!(out.iter().all(|v| v.name != "Light"));
}

#[test]
fn trait_impl_fanout_emits_error_above_error_threshold() {
    let body: String = (0..18).map(|i| format!("impl Trait{i} for Heavy {{}}\n")).collect();
    let out = fanout_findings(&sites_of(&[("src/a.rs", &body)]));
    let heavy = out.iter().find(|v| v.name == "Heavy").expect("Heavy");
    assert_eq!(heavy.severity, Severity::Error);
    assert_eq!(heavy.threshold, TRAIT_IMPL_FANOUT_ERROR);
}

#[test]
fn unused_scan_counts_doc_comments_as_doc_idents_and_skips_when_tokens_fail() {
    // A doc comment prints back as `#[doc = "..."]`, so `doc` is an
    // identifier token of the file.
    let out = unused_in_sources(&sources(&[("d.rs", "/// text\npub fn doc() {}\n")]));
    assert!(out.is_empty());
    // Entries given for a text that does not parse are not used.
    let bad = ScanSource {
        relative: "x.rs".into(),
        source: ":: not rust".into(),
        items: Some(vec![Some((ItemKind::Fn, "ghost".into(), 1, true))]),
    };
    assert!(unused_in_sources(&[bad]).is_empty());
}
