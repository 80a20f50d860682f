//! Unused public API by identifier count: a `pub` item whose name occurs
//! as an identifier token only once in the whole workspace (its own
//! declaration) is reported.
//!
//! This is a heuristic, not name resolution: items reached only through
//! macro expansion or reflection-style lookups are reported too.

use vstd::prelude::*;
use crate::analyze::strs;
use crate::discover::lex_lt;
use crate::text::{chars_of, decimal, owned, push_decimal, push_str, str_eq};
use crate::discover::lex_less;
use crate::items::ItemKind;
use proc_macro2::TokenTree;
use quote::ToTokens;

verus! {

/// One unused-public finding.
#[derive(Debug)]
pub struct UnusedItem {
    /// Workspace-relative path.
    pub file: String,
    /// 1-based line number of the declaration.
    pub line: usize,
    /// Item name.
    pub name: String,
    /// Item kind for display.
    pub kind: &'static str,
}

/// A `pub` declaration: where it is, its name and its kind.
#[derive(Debug)]
pub struct DeclSite {
    /// Workspace-relative path.
    pub file: String,
    /// 1-based line of the name.
    pub line: usize,
    /// Declared name.
    pub name: String,
    /// `fn`, `struct`, `enum`, `trait`, `type`, `const`, `static` or `union`.
    pub kind: &'static str,
}

/// Number of identifier tokens spelled `name`.
pub open spec fn count_of(tokens: Seq<Seq<char>>, name: Seq<char>) -> nat
    decreases tokens.len(),
{
    if tokens.len() == 0 {
        0
    } else {
        count_of(tokens.drop_last(), name) + if tokens.last() == name {
            1nat
        } else {
            0nat
        }
    }
}

/// How many identifier tokens are spelled `name`.
pub fn reference_count(tokens: &[String], name: &str) -> (n: usize)
    ensures
        n == count_of(strs(tokens@), name@),
{
    let ghost tv = strs(tokens@);
    let mut n: usize = 0;
    let mut i: usize = 0;
    assert(tv.take(0) =~= Seq::<Seq<char>>::empty());
    while i < tokens.len()
        invariant
            0 <= i <= tokens@.len(),
            tv == strs(tokens@),
            n == count_of(tv.take(i as int), name@),
            n <= i,
        decreases tokens@.len() - i,
    {
        proof {
            let t = tv.take(i + 1);
            assert(t.drop_last() =~= tv.take(i as int));
            assert(t.last() == tokens@[i as int]@);
        }
        if str_eq(tokens[i].as_str(), name) {
            n = n + 1;
        }
        i = i + 1;
    }
    assert(tv.take(i as int) =~= tv);
    n
}

/// A finding as `(file, line, name, kind)`.
pub type ItemView = (Seq<char>, usize, Seq<char>, Seq<char>);

/// The view of a finding.
pub open spec fn item_view(i: UnusedItem) -> ItemView {
    (i.file@, i.line, i.name@, i.kind@)
}

/// `a` sorts before `b`: by file, then by line.
pub open spec fn item_lt(a: ItemView, b: ItemView) -> bool {
    lex_lt(a.0, b.0) || (a.0 == b.0 && a.1 < b.1)
}

/// `sorted` with `x` inserted after every item that does not sort after
/// it.
pub open spec fn insert_item(sorted: Seq<ItemView>, x: ItemView) -> Seq<ItemView>
    decreases sorted.len(),
{
    if sorted.len() == 0 {
        seq![x]
    } else if item_lt(x, sorted.last()) {
        insert_item(sorted.drop_last(), x).push(sorted.last())
    } else {
        sorted.push(x)
    }
}

/// The stable sort of findings by file, then line.
pub open spec fn sort_items(s: Seq<ItemView>) -> Seq<ItemView>
    decreases s.len(),
{
    if s.len() == 0 {
        Seq::empty()
    } else {
        insert_item(sort_items(s.drop_last()), s.last())
    }
}

/// A declaration as `(file, line, name, kind)`.
pub open spec fn decl_view(d: DeclSite) -> ItemView {
    (d.file@, d.line, d.name@, d.kind@)
}

/// The views of a list of declarations.
pub open spec fn decl_views(v: Seq<DeclSite>) -> Seq<ItemView> {
    v.map_values(|d: DeclSite| decl_view(d))
}

/// The declarations referenced at most once, as findings, in
/// declaration order.
pub open spec fn unused_decls(decls: Seq<ItemView>, tokens: Seq<Seq<char>>) -> Seq<ItemView>
    decreases decls.len(),
{
    if decls.len() == 0 {
        Seq::empty()
    } else {
        let prev = unused_decls(decls.drop_last(), tokens);
        let d = decls.last();
        if count_of(tokens, d.2) <= 1 {
            prev.push(d)
        } else {
            prev
        }
    }
}

proof fn lemma_insert_item_at(s: Seq<ItemView>, x: ItemView, j: int)
    requires
        0 <= j <= s.len(),
        forall|k: int| j <= k < s.len() ==> item_lt(x, #[trigger] s[k]),
        j == 0 || !item_lt(x, s[j - 1]),
    ensures
        insert_item(s, x) == s.insert(j, x),
    decreases s.len(),
{
    if s.len() == 0 {
        assert(s.insert(j, x) =~= seq![x]);
    } else if j == s.len() {
        assert(s.insert(j, x) =~= s.push(x));
    } else {
        lemma_insert_item_at(s.drop_last(), x, j);
        assert(s.insert(j, x) =~= s.drop_last().insert(j, x).push(s.last()));
    }
}

/// The views of a list of findings.
pub open spec fn item_views(v: Seq<UnusedItem>) -> Seq<ItemView> {
    v.map_values(|i: UnusedItem| item_view(i))
}

/// Whether `x` sorts before `y`.
fn item_less(x: &UnusedItem, y: &UnusedItem) -> (b: bool)
    ensures
        b == item_lt(item_view(*x), item_view(*y)),
{
    let a = chars_of(x.file.as_str());
    let c = chars_of(y.file.as_str());
    if lex_less(a.as_slice(), c.as_slice()) {
        return true;
    }
    crate::text::chars_eq(a.as_slice(), c.as_slice()) && x.line < y.line
}

/// Every `pub` declaration whose name occurs at most once among the
/// identifier tokens of the workspace (the declaration's own), ordered by
/// file, then line.
pub fn select_unused(decls: &[DeclSite], tokens: &[String]) -> (out: Vec<UnusedItem>)
    ensures
        item_views(out@) == sort_items(unused_decls(decl_views(decls@), strs(tokens@))),
{
    let ghost tv = strs(tokens@);
    let mut out: Vec<UnusedItem> = Vec::new();
    let mut k: usize = 0;
    assert(item_views(out@) =~= Seq::<ItemView>::empty());
    while k < decls.len()
        invariant
            0 <= k <= decls@.len(),
            tv == strs(tokens@),
            item_views(out@) == sort_items(unused_decls(decl_views(decls@.take(k as int)), tv)),
        decreases decls@.len() - k,
    {
        let d = &decls[k];
        proof {
            let t = decls@.take(k + 1);
            assert(t.drop_last() =~= decls@.take(k as int));
            assert(t.last() == *d);
            assert(decl_views(t).drop_last() =~= decl_views(decls@.take(k as int)));
            assert(decl_views(t).last() == decl_view(*d));
        }
        if reference_count(tokens, d.name.as_str()) <= 1 {
            let item = UnusedItem {
                file: owned(d.file.as_str()),
                line: d.line,
                name: owned(d.name.as_str()),
                kind: d.kind,
            };
            let ghost s = item_views(out@);
            let ghost x = item_view(item);
            let mut j: usize = out.len();
            while j > 0 && item_less(&item, &out[j - 1])
                invariant
                    0 <= j <= s.len(),
                    s == item_views(out@),
                    x == item_view(item),
                    forall|t: int| j <= t < s.len() ==> item_lt(x, #[trigger] s[t]),
                decreases j,
            {
                assert(s[j - 1] == item_view(out@[j - 1]));
                j = j - 1;
            }
            proof {
                if j > 0 {
                    assert(s[j - 1] == item_view(out@[j - 1]));
                }
                lemma_insert_item_at(s, x, j as int);
            }
            out.insert(j, item);
            assert(item_views(out@) =~= s.insert(j as int, x));
            proof {
                let u = unused_decls(decl_views(decls@.take(k as int)), tv);
                assert(unused_decls(decl_views(decls@.take(k + 1)), tv) == u.push(x));
                assert(u.push(x).drop_last() =~= u);
            }
        }
        k = k + 1;
    }
    assert(decls@.take(k as int) =~= decls@);
    out
}

/// One report line per finding.
pub open spec fn scan_lines(items: Seq<ItemView>) -> Seq<char>
    decreases items.len(),
{
    if items.len() == 0 {
        Seq::empty()
    } else {
        let it = items.last();
        scan_lines(items.drop_last()) + "  "@ + it.3 + " "@ + it.2 + " \u{2014} "@ + it.0 + ":"@
            + decimal(it.1 as nat) + "\n"@
    }
}

/// The text dump of the findings.
pub open spec fn scan_format(items: Seq<ItemView>) -> Seq<char> {
    if items.len() == 0 {
        "rustics unused: no candidates found.\n"@
    } else {
        "rustics unused: "@ + decimal(items.len()) + " candidate(s):\n"@ + scan_lines(items)
    }
}

/// Renders the findings: a count header, then one line per item.
pub fn format(items: &[UnusedItem]) -> (s: String)
    ensures
        s@ == scan_format(item_views(items@)),
{
    if items.len() == 0 {
        return owned("rustics unused: no candidates found.\n");
    }
    let ghost iv = item_views(items@);
    let mut s = owned("rustics unused: ");
    push_decimal(&mut s, items.len() as u64);
    push_str(&mut s, " candidate(s):\n");
    let ghost head = s@;
    let mut i: usize = 0;
    assert(iv.take(0) =~= Seq::<ItemView>::empty());
    while i < items.len()
        invariant
            0 <= i <= items@.len(),
            iv == item_views(items@),
            s@ == head + scan_lines(iv.take(i as int)),
        decreases items@.len() - i,
    {
        let it = &items[i];
        proof {
            let t = iv.take(i + 1);
            assert(t.drop_last() =~= iv.take(i as int));
            assert(t.last() == item_view(*it));
        }
        push_str(&mut s, "  ");
        push_str(&mut s, it.kind);
        push_str(&mut s, " ");
        push_str(&mut s, it.name.as_str());
        push_str(&mut s, " \u{2014} ");
        push_str(&mut s, it.file.as_str());
        push_str(&mut s, ":");
        push_decimal(&mut s, it.line as u64);
        push_str(&mut s, "\n");
        i = i + 1;
    }
    assert(iv.take(i as int) =~= iv);
    s
}

// ----------------------------------------------------------------------
// Reading the workspace's sources
// ----------------------------------------------------------------------

/// One top-level item as plain values: its kind, identifier, the 1-based
/// line of the identifier, and whether it is declared `pub`.
pub type TopItem = (ItemKind, String, usize, bool);

/// A top-level item as plain values, with its name as characters.
pub type TopItemView = (ItemKind, Seq<char>, usize, bool);

/// The view of one top-level item's entry: `None` for an item that is
/// not a fn, struct, enum, trait, type alias, const, static or union.
pub open spec fn top_item_view(t: Option<TopItem>) -> Option<TopItemView> {
    match t {
        Some((k, n, l, p)) => Some((k, n@, l, p)),
        None => None,
    }
}

/// The views of a file's top-level item entries.
pub open spec fn top_item_views(v: Seq<Option<TopItem>>) -> Seq<Option<TopItemView>> {
    v.map_values(|t: Option<TopItem>| top_item_view(t))
}

/// The token trees of the file `syn::parse_file` reads from `source`,
/// printed back as tokens and walked in preorder (a group, then its
/// contents): an identifier's text for an identifier, `None` for any
/// other token tree; or `None` when the text does not parse.
pub uninterp spec fn syn_token_idents(source: Seq<char>) -> Option<Seq<Option<Seq<char>>>>;

/// The views of the entries of [`token_idents`].
pub open spec fn opt_strs(v: Seq<Option<String>>) -> Seq<Option<Seq<char>>> {
    v.map_values(|t: Option<String>| match t {
        Some(s) => Some(s@),
        None => None,
    })
}

/// Calls `syn::parse_file`, prints the file back with
/// `ToTokens::to_token_stream`, and walks its token trees in preorder,
/// entering every group. Trusted: the result is `syn_token_idents` of
/// the text, a function of the text alone.
#[verifier::external_body]
fn token_idents(source: &str) -> (r: Option<Vec<Option<String>>>)
    ensures
        match r {
            Some(v) => syn_token_idents(source@) == Some(opt_strs(v@)),
            None => syn_token_idents(source@) is None,
        },
{
    let file = syn::parse_file(source).ok()?;
    let mut stack = vec![file.to_token_stream().into_iter()];
    let mut out = Vec::new();
    while let Some(top) = stack.last_mut() {
        match top.next() {
            Some(TokenTree::Ident(id)) => out.push(Some(id.to_string())),
            Some(TokenTree::Group(g)) => { out.push(None); stack.push(g.stream().into_iter()); },
            Some(_) => out.push(None),
            None => { stack.pop(); },
        }
    }
    Some(out)
}

/// The word a declaration kind is reported as; `None` for a kind that is
/// not a declaration the scan reports.
pub open spec fn decl_kind_word(k: ItemKind) -> Option<Seq<char>> {
    match k {
        ItemKind::Fn => Some("fn"@),
        ItemKind::Struct => Some("struct"@),
        ItemKind::Enum => Some("enum"@),
        ItemKind::Trait => Some("trait"@),
        ItemKind::TypeAlias => Some("type"@),
        ItemKind::Const => Some("const"@),
        ItemKind::Static => Some("static"@),
        ItemKind::Union => Some("union"@),
        _ => None,
    }
}

/// [`decl_kind_word`].
fn kind_word(k: ItemKind) -> (w: Option<&'static str>)
    ensures
        match w {
            Some(s) => decl_kind_word(k) == Some(s@),
            None => decl_kind_word(k) is None,
        },
{
    match k {
        ItemKind::Fn => Some("fn"),
        ItemKind::Struct => Some("struct"),
        ItemKind::Enum => Some("enum"),
        ItemKind::Trait => Some("trait"),
        ItemKind::TypeAlias => Some("type"),
        ItemKind::Const => Some("const"),
        ItemKind::Static => Some("static"),
        ItemKind::Union => Some("union"),
        _ => None,
    }
}

/// The `pub` declarations among a file's top-level items, in order, as
/// findings of `file`.
pub open spec fn pub_decls(file: Seq<char>, items: Seq<Option<TopItemView>>) -> Seq<ItemView>
    decreases items.len(),
{
    if items.len() == 0 {
        Seq::empty()
    } else {
        let prev = pub_decls(file, items.drop_last());
        match items.last() {
            Some((k, name, line, is_pub)) => match decl_kind_word(k) {
                Some(w) => if is_pub {
                    prev.push((file, line, name, w))
                } else {
                    prev
                },
                None => prev,
            },
            None => prev,
        }
    }
}

/// The identifiers among a walk's token trees, in order.
pub open spec fn idents_of(toks: Seq<Option<Seq<char>>>) -> Seq<Seq<char>>
    decreases toks.len(),
{
    if toks.len() == 0 {
        Seq::empty()
    } else {
        let prev = idents_of(toks.drop_last());
        match toks.last() {
            Some(t) => prev.push(t),
            None => prev,
        }
    }
}

/// One file for the scan: its relative path, its text, and the entries
/// of its top-level items as `syn::parse_file` read them from the text
/// (`None` when the text does not parse).
#[derive(Debug)]
pub struct ScanSource {
    /// Workspace-relative path.
    pub relative: String,
    /// The file's text.
    pub source: String,
    /// One entry per top-level item, in order.
    pub items: Option<Vec<Option<TopItem>>>,
}

/// What the scan reads of one file: its `pub` declarations and its
/// identifiers, or nothing when the file does not parse.
pub open spec fn file_scan(f: ScanSource) -> Option<(Seq<ItemView>, Seq<Seq<char>>)> {
    match (f.items, syn_token_idents(f.source@)) {
        (Some(items), Some(toks)) => Some((pub_decls(f.relative@, top_item_views(items@)), idents_of(toks))),
        _ => None,
    }
}

/// The `pub` declarations and the identifiers of every file that parses,
/// in file order.
pub open spec fn sources_scan(sources: Seq<ScanSource>) -> (Seq<ItemView>, Seq<Seq<char>>)
    decreases sources.len(),
{
    if sources.len() == 0 {
        (Seq::empty(), Seq::empty())
    } else {
        let prev = sources_scan(sources.drop_last());
        match file_scan(sources.last()) {
            Some((ds, ts)) => (prev.0 + ds, prev.1 + ts),
            None => prev,
        }
    }
}

/// Appends the `pub` declarations among `items` to `decls`.
fn push_pub_decls(file: &str, items: &[Option<TopItem>], decls: &mut Vec<DeclSite>)
    ensures
        decl_views(final(decls)@) == decl_views(old(decls)@) + pub_decls(file@, top_item_views(items@)),
{
    let ghost iv = top_item_views(items@);
    let mut i: usize = 0;
    while i < items.len()
        invariant
            0 <= i <= items@.len(),
            iv == top_item_views(items@),
            decl_views(decls@) == decl_views(old(decls)@) + pub_decls(file@, iv.take(i as int)),
        decreases items@.len() - i,
    {
        proof {
            let t = iv.take(i + 1);
            assert(t.drop_last() =~= iv.take(i as int));
            assert(t.last() == top_item_view(items@[i as int]));
        }
        let ghost before = decls@;
        match &items[i] {
            Some((k, name, line, is_pub)) => {
                match kind_word(*k) {
                    Some(w) => {
                        if *is_pub {
                            decls.push(DeclSite { file: owned(file), line: *line, name: owned(name.as_str()), kind: w });
                            assert(decl_views(decls@) =~= decl_views(before).push(decl_views(decls@).last()));
                        }
                    },
                    None => {},
                }
            },
            None => {},
        }
        i = i + 1;
    }
    assert(iv.take(i as int) =~= iv);
}

/// Appends the identifiers among `toks` to `tokens`.
fn push_idents(toks: &[Option<String>], tokens: &mut Vec<String>)
    ensures
        strs(final(tokens)@) == strs(old(tokens)@) + idents_of(opt_strs(toks@)),
{
    let ghost tv = opt_strs(toks@);
    let mut i: usize = 0;
    while i < toks.len()
        invariant
            0 <= i <= toks@.len(),
            tv == opt_strs(toks@),
            strs(tokens@) == strs(old(tokens)@) + idents_of(tv.take(i as int)),
        decreases toks@.len() - i,
    {
        proof {
            let t = tv.take(i + 1);
            assert(t.drop_last() =~= tv.take(i as int));
        }
        let ghost before = tokens@;
        match &toks[i] {
            Some(name) => {
                tokens.push(owned(name.as_str()));
                assert(strs(tokens@) =~= strs(before).push(name@));
            },
            None => {},
        }
        i = i + 1;
    }
    assert(tv.take(i as int) =~= tv);
}

/// The name-based unused scan over the workspace's files: every `pub`
/// top-level declaration whose name occurs at most once among the
/// identifier tokens of all files that parse, ordered by file, then
/// line. A file that does not parse is skipped.
pub fn unused_in_sources(sources: &[ScanSource]) -> (out: Vec<UnusedItem>)
    ensures
        item_views(out@) == sort_items(unused_decls(sources_scan(sources@).0, sources_scan(sources@).1)),
{
    let mut decls: Vec<DeclSite> = Vec::new();
    let mut tokens: Vec<String> = Vec::new();
    let mut i: usize = 0;
    while i < sources.len()
        invariant
            0 <= i <= sources@.len(),
            decl_views(decls@) == sources_scan(sources@.take(i as int)).0,
            strs(tokens@) == sources_scan(sources@.take(i as int)).1,
        decreases sources@.len() - i,
    {
        proof {
            let t = sources@.take(i + 1);
            assert(t.drop_last() =~= sources@.take(i as int));
            assert(t.last() == sources@[i as int]);
        }
        let f = &sources[i];
        match (&f.items, token_idents(f.source.as_str())) {
            (Some(items), Some(toks)) => {
                push_pub_decls(f.relative.as_str(), items.as_slice(), &mut decls);
                push_idents(toks.as_slice(), &mut tokens);
            },
            _ => {},
        }
        i = i + 1;
    }
    assert(sources@.take(i as int) =~= sources@);
    select_unused(decls.as_slice(), tokens.as_slice())
}

} // verus!
