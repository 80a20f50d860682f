//! A source file's item tree, read off the preorder walk of its concrete
//! syntax tree.
//!
//! `ra_ap_syntax` parses the text; the walk enters and leaves every node
//! and token in order, and each step carries the element's kind (as its
//! `SyntaxKind` name), its byte range, and a token's text. The items, their
//! names, doc comments and children, and an inherent impl's self-type
//! name are found here, in verified code, the way `ra_ap_syntax`'s typed
//! accessors find them: the first child of a kind, the text of a name's
//! first token, the doc comments among an item's direct children.

use vstd::prelude::*;
use crate::analyze::strs;
use crate::items::{item_view, item_views, opt_str, ItemKind, ItemView, SourceItem};
use crate::text::{chars_of, ends_with, owned, starts_with, str_eq, string_from};
use vstd::slice::slice_subrange;

verus! {

/// One step of the walk: entering or leaving a node or token.
#[derive(Debug)]
pub struct SyntaxEvent {
    /// Entering (`true`) or leaving.
    pub enter: bool,
    /// The element's `SyntaxKind` name, such as `FN` or `IDENT`.
    pub kind: String,
    /// First byte of the element.
    pub start: usize,
    /// One past its last byte.
    pub end: usize,
    /// A token's text; `None` for a node.
    pub text: Option<String>,
}

/// A step of the walk as plain values.
pub struct EventView {
    /// Entering or leaving.
    pub enter: bool,
    /// The kind's name.
    pub kind: Seq<char>,
    /// First byte.
    pub start: usize,
    /// One past the last byte.
    pub end: usize,
    /// A token's text.
    pub text: Option<Seq<char>>,
}

/// The plain view of a step.
pub open spec fn event_view(e: SyntaxEvent) -> EventView {
    EventView { enter: e.enter, kind: e.kind@, start: e.start, end: e.end, text: opt_str(e.text) }
}

/// The plain views of a walk.
pub open spec fn event_views(s: Seq<SyntaxEvent>) -> Seq<EventView> {
    s.map_values(|e: SyntaxEvent| event_view(e))
}

/// The preorder walk, with tokens, of the syntax tree `ra_ap_syntax`
/// parses from `source` (current edition).
pub uninterp spec fn parsed_events(source: Seq<char>) -> Seq<EventView>;

/// Calls `ra_ap_syntax::SourceFile::parse` (current edition) and walks
/// the tree with `SyntaxNode::preorder_with_tokens`, each step converted
/// to plain values. Trusted: the walk is `parsed_events` of the text, a
/// function of the text alone.
#[verifier::external_body]
pub fn syntax_events(source: &str) -> (ev: Vec<SyntaxEvent>)
    ensures
        event_views(ev@) == parsed_events(source@),
{
    let root = ra_ap_syntax::SourceFile::parse(source, ra_ap_syntax::Edition::CURRENT).syntax_node();
    root.preorder_with_tokens().map(|step| match step {
        ra_ap_syntax::WalkEvent::Enter(el) => (true, el),
        ra_ap_syntax::WalkEvent::Leave(el) => (false, el),
    }).map(|(enter, el)| SyntaxEvent {
        enter,
        kind: format!("{:?}", el.kind()),
        start: el.text_range().start().into(),
        end: el.text_range().end().into(),
        text: el.as_token().map(|t| t.text().to_string()),
    }).collect()
}

// ----------------------------------------------------------------------
// Navigating the walk
// ----------------------------------------------------------------------

/// Where the element open at `j` with `depth` elements open closes: the
/// position of the matching leave, or the walk's length when it never
/// closes.
pub open spec fn close_from(ev: Seq<EventView>, j: int, depth: int) -> int
    decreases ev.len() - j,
{
    if j < 0 || j >= ev.len() {
        ev.len() as int
    } else if ev[j].enter {
        close_from(ev, j + 1, depth + 1)
    } else if depth <= 1 {
        j
    } else {
        close_from(ev, j + 1, depth - 1)
    }
}

/// Positions as integers.
pub open spec fn ints(ks: Seq<usize>) -> Seq<int> {
    ks.map_values(|k: usize| k as int)
}

/// The position of the leave that matches the enter at `i`.
pub open spec fn close(ev: Seq<EventView>, i: int) -> int {
    close_from(ev, i, 0)
}

/// The positions of the direct children entered from `j` on, before `end`.
pub open spec fn kids_from(ev: Seq<EventView>, j: int, end: int) -> Seq<int>
    decreases end - j,
{
    if j < 0 || j >= end || j >= ev.len() || !ev[j].enter {
        Seq::empty()
    } else {
        let c = close(ev, j);
        seq![j] + if j < c && c < end {
            kids_from(ev, c + 1, end)
        } else {
            Seq::empty()
        }
    }
}

/// The positions of the direct children of the element entered at `i`.
pub open spec fn kids(ev: Seq<EventView>, i: int) -> Seq<int> {
    kids_from(ev, i + 1, close(ev, i))
}

/// The first of `ks` whose kind is `kind`.
pub open spec fn first_of_kind(ev: Seq<EventView>, ks: Seq<int>, kind: Seq<char>) -> Option<int>
    decreases ks.len(),
{
    if ks.len() == 0 {
        None
    } else if 0 <= ks[0] < ev.len() && ev[ks[0]].kind == kind {
        Some(ks[0])
    } else {
        first_of_kind(ev, ks.drop_first(), kind)
    }
}

/// The first direct child of `i` of kind `kind`.
pub open spec fn child_of_kind(ev: Seq<EventView>, i: int, kind: Seq<char>) -> Option<int> {
    first_of_kind(ev, kids(ev, i), kind)
}

/// The text of the first token of the node entered at `n`, when its first
/// child is a token; empty otherwise.
pub open spec fn first_token_text(ev: Seq<EventView>, n: int) -> Seq<char> {
    if 0 <= n && n + 1 < ev.len() && ev[n + 1].enter {
        match ev[n + 1].text {
            Some(t) => t,
            None => Seq::empty(),
        }
    } else {
        Seq::empty()
    }
}

/// The position of the leave matching the enter at `i`.
fn close_of(ev: &Vec<SyntaxEvent>, i: usize) -> (c: usize)
    ensures
        c == close(event_views(ev@), i as int),
{
    let ghost evs = event_views(ev@);
    let mut j: usize = i;
    let mut depth: usize = 0;
    while j < ev.len()
        invariant
            evs == event_views(ev@),
            i <= j,
            depth <= j,
            close(evs, i as int) == close_from(evs, j as int, depth as int),
        decreases ev@.len() - j,
    {
        if ev[j].enter {
            depth = depth + 1;
        } else if depth <= 1 {
            return j;
        } else {
            depth = depth - 1;
        }
        j = j + 1;
    }
    ev.len()
}

/// The positions of the direct children of the element entered at `i`.
fn kids_of(ev: &Vec<SyntaxEvent>, i: usize) -> (out: Vec<usize>)
    ensures
        ints(out@) == kids(event_views(ev@), i as int),
{
    let ghost evs = event_views(ev@);
    let end = close_of(ev, i);
    let mut out: Vec<usize> = Vec::new();
    if i >= end {
        assert(ints(out@) =~= kids(evs, i as int));
        return out;
    }
    let mut j: usize = i + 1;
    while j < end
        invariant
            evs == event_views(ev@),
            end == close(evs, i as int),
            i < j,
            j <= end,
            ints(out@) + kids_from(evs, j as int, end as int) == kids(evs, i as int),
        decreases end - j,
    {
        let ghost before = ints(out@);
        if j >= ev.len() || !ev[j].enter {
            assert(kids_from(evs, j as int, end as int) =~= Seq::<int>::empty());
            assert(kids_from(evs, end as int, end as int) =~= Seq::<int>::empty());
            j = end;
        } else {
            let c = close_of(ev, j);
            out.push(j);
            assert(ints(out@) =~= before.push(j as int));
            if j < c && c < end {
                assert(before + kids_from(evs, j as int, end as int) =~= before.push(j as int) + kids_from(evs, c + 1, end as int));
                j = c + 1;
            } else {
                assert(kids_from(evs, end as int, end as int) =~= Seq::<int>::empty());
                assert(before + kids_from(evs, j as int, end as int) =~= before.push(j as int) + kids_from(evs, end as int, end as int));
                j = end;
            }
        }
    }
    assert(kids_from(evs, j as int, end as int) =~= Seq::<int>::empty());
    assert(ints(out@) =~= ints(out@) + Seq::<int>::empty());
    out
}

/// The first of `ks` whose kind is `kind`.
fn first_kid_of_kind(ev: &Vec<SyntaxEvent>, ks: &Vec<usize>, kind: &str) -> (r: Option<usize>)
    ensures
        match r {
            Some(k) => first_of_kind(event_views(ev@), ints(ks@), kind@) == Some(k as int),
            None => first_of_kind(event_views(ev@), ints(ks@), kind@) is None,
        },
{
    let ghost evs = event_views(ev@);
    let ghost all = ints(ks@);
    let mut t: usize = 0;
    assert(all.skip(0) =~= all);
    while t < ks.len()
        invariant
            evs == event_views(ev@),
            all == ints(ks@),
            0 <= t <= ks@.len(),
            first_of_kind(evs, all, kind@) == first_of_kind(evs, all.skip(t as int), kind@),
        decreases ks@.len() - t,
    {
        let k = ks[t];
        proof {
            let rest = all.skip(t as int);
            assert(rest[0] == k as int);
            assert(rest.drop_first() =~= all.skip(t + 1));
        }
        if k < ev.len() && str_eq(ev[k].kind.as_str(), kind) {
            return Some(k);
        }
        t = t + 1;
    }
    assert(all.skip(t as int) =~= Seq::<int>::empty());
    None
}

/// The first direct child of `i` of kind `kind`.
fn child_kind(ev: &Vec<SyntaxEvent>, i: usize, kind: &str) -> (r: Option<usize>)
    ensures
        match r {
            Some(k) => child_of_kind(event_views(ev@), i as int, kind@) == Some(k as int),
            None => child_of_kind(event_views(ev@), i as int, kind@) is None,
        },
{
    let ks = kids_of(ev, i);
    first_kid_of_kind(ev, &ks, kind)
}

/// The text of the first token of the node entered at `n`.
fn first_token_of(ev: &Vec<SyntaxEvent>, n: usize) -> (s: String)
    ensures
        s@ == first_token_text(event_views(ev@), n as int),
{
    if n < ev.len() && n + 1 < ev.len() && ev[n + 1].enter {
        match &ev[n + 1].text {
            Some(t) => owned(t.as_str()),
            None => String::new(),
        }
    } else {
        String::new()
    }
}

// ----------------------------------------------------------------------
// Doc comments
// ----------------------------------------------------------------------

/// The text of a doc comment without its prefix (and a block comment's
/// closing `*/`), as `ast::Comment::doc_comment` gives it; `None` for a
/// comment that is not a doc comment (`//`, `////`, `/*`, `/**/`, `/***`).
pub open spec fn doc_text(t: Seq<char>) -> Option<Seq<char>> {
    if t.len() >= 4 && (t.take(4) == "/**/"@ || t.take(4) == "/***"@ || t.take(4) == "////"@) {
        None
    } else if t.len() >= 3 && (t.take(3) == "///"@ || t.take(3) == "//!"@) {
        Some(t.skip(3))
    } else if t.len() >= 3 && (t.take(3) == "/**"@ || t.take(3) == "/*!"@) {
        let rest = t.skip(3);
        if rest.len() >= 2 && rest.skip(rest.len() - 2) == "*/"@ {
            Some(rest.take(rest.len() - 2))
        } else {
            Some(rest)
        }
    } else {
        None
    }
}

/// The doc comments among `ks`, in order.
pub open spec fn docs_among(ev: Seq<EventView>, ks: Seq<int>) -> Seq<Seq<char>>
    decreases ks.len(),
{
    if ks.len() == 0 {
        Seq::empty()
    } else {
        let k = ks.last();
        let here = if 0 <= k < ev.len() && ev[k].kind == "COMMENT"@ {
            match ev[k].text {
                Some(t) => match doc_text(t) {
                    Some(d) => seq![d],
                    None => Seq::empty(),
                },
                None => Seq::empty(),
            }
        } else {
            Seq::empty()
        };
        docs_among(ev, ks.drop_last()) + here
    }
}

/// Whether `t` starts with `p`, by characters.
fn has_prefix(t: &Vec<char>, p: &str) -> (b: bool)
    ensures
        b == (t@.len() >= p@.len() && t@.take(p@.len() as int) == p@),
{
    let pv = chars_of(p);
    let r = starts_with(t.as_slice(), pv.as_slice());
    proof {
        if t@.len() >= p@.len() {
            assert(t@.subrange(0, p@.len() as int) =~= t@.take(p@.len() as int));
        }
    }
    r
}

/// The text of a doc comment, as [`doc_text`] defines it.
pub fn doc_comment_text(t: &str) -> (r: Option<String>)
    ensures
        opt_str(r) == doc_text(t@),
{
    let v = chars_of(t);
    proof {
        reveal_strlit("/**/");
        reveal_strlit("/***");
        reveal_strlit("////");
        reveal_strlit("///");
        reveal_strlit("//!");
        reveal_strlit("/**");
        reveal_strlit("/*!");
        reveal_strlit("*/");
    }
    if has_prefix(&v, "/**/") || has_prefix(&v, "/***") || has_prefix(&v, "////") {
        None
    } else if has_prefix(&v, "///") || has_prefix(&v, "//!") {
        let rest = slice_subrange(v.as_slice(), 3, v.len());
        assert(rest@ =~= v@.skip(3));
        Some(string_from(rest))
    } else if has_prefix(&v, "/**") || has_prefix(&v, "/*!") {
        let rest = slice_subrange(v.as_slice(), 3, v.len());
        assert(rest@ =~= v@.skip(3));
        let close = ['*', '/'];
        assert(close@ =~= "*/"@);
        if rest.len() >= 2 && ends_with(rest, &close) {
            assert(rest@.subrange(rest@.len() - 2, rest@.len() as int) =~= rest@.skip(rest@.len() - 2));
            let inner = slice_subrange(rest, 0, rest.len() - 2);
            assert(inner@ =~= rest@.take(rest@.len() - 2));
            Some(string_from(inner))
        } else {
            proof {
                if rest@.len() >= 2 {
                    assert(rest@.subrange(rest@.len() - 2, rest@.len() as int) =~= rest@.skip(rest@.len() - 2));
                }
            }
            Some(string_from(rest))
        }
    } else {
        None
    }
}

/// The doc comments among the direct children of the element at `i`.
fn docs_of(ev: &Vec<SyntaxEvent>, i: usize) -> (out: Vec<String>)
    ensures
        strs(out@) == docs_among(event_views(ev@), kids(event_views(ev@), i as int)),
{
    let ghost evs = event_views(ev@);
    let ks = kids_of(ev, i);
    let ghost all = ints(ks@);
    let mut out: Vec<String> = Vec::new();
    let mut t: usize = 0;
    assert(all.take(0) =~= Seq::<int>::empty());
    assert(strs(out@) =~= Seq::<Seq<char>>::empty());
    while t < ks.len()
        invariant
            evs == event_views(ev@),
            all == ints(ks@),
            0 <= t <= ks@.len(),
            strs(out@) == docs_among(evs, all.take(t as int)),
        decreases ks@.len() - t,
    {
        let k = ks[t];
        proof {
            let tk = all.take(t + 1);
            assert(tk.drop_last() =~= all.take(t as int));
            assert(tk.last() == k as int);
        }
        let ghost before = strs(out@);
        if k < ev.len() && str_eq(ev[k].kind.as_str(), "COMMENT") {
            match &ev[k].text {
                Some(text) => match doc_comment_text(text.as_str()) {
                    Some(d) => {
                        out.push(d);
                        assert(strs(out@) =~= before.push(opt_str(Some(out@.last()))->0));
                    },
                    None => {},
                },
                None => {},
            }
        }
        assert(strs(out@) =~= docs_among(evs, all.take(t + 1)));
        t = t + 1;
    }
    assert(all.take(t as int) =~= all);
    out
}

// ----------------------------------------------------------------------
// Items
// ----------------------------------------------------------------------

/// Where a node sits, which decides what it is read as: an item of a file
/// or module, an associated item of a trait or impl, or an enum variant.
#[derive(Debug, Clone, Copy, PartialEq, Eq, Structural)]
pub enum Place {
    /// Among a file's or module's items.
    Item,
    /// Among a trait's or impl's associated items.
    Assoc,
    /// Among an enum's variants.
    Variant,
}

/// The node kinds `ast::Item` stands for.
pub open spec fn is_item_kind(k: Seq<char>) -> bool {
    k == "ASM_EXPR"@ || k == "CONST"@ || k == "ENUM"@ || k == "EXTERN_BLOCK"@ || k == "EXTERN_CRATE"@
        || k == "FN"@ || k == "IMPL"@ || k == "MACRO_CALL"@ || k == "MACRO_DEF"@ || k == "MACRO_RULES"@
        || k == "MODULE"@ || k == "STATIC"@ || k == "STRUCT"@ || k == "TRAIT"@ || k == "TYPE_ALIAS"@
        || k == "UNION"@ || k == "USE"@
}

/// The node kinds `ast::AssocItem` stands for.
pub open spec fn is_assoc_kind(k: Seq<char>) -> bool {
    k == "CONST"@ || k == "FN"@ || k == "MACRO_CALL"@ || k == "TYPE_ALIAS"@
}

/// The node kinds `ast::Type` stands for.
pub open spec fn is_type_kind(k: Seq<char>) -> bool {
    k == "ARRAY_TYPE"@ || k == "DYN_TRAIT_TYPE"@ || k == "FN_PTR_TYPE"@ || k == "FOR_TYPE"@
        || k == "IMPL_TRAIT_TYPE"@ || k == "INFER_TYPE"@ || k == "MACRO_TYPE"@ || k == "NEVER_TYPE"@
        || k == "PAREN_TYPE"@ || k == "PATH_TYPE"@ || k == "PTR_TYPE"@ || k == "REF_TYPE"@
        || k == "SLICE_TYPE"@ || k == "TUPLE_TYPE"@
}

/// Whether a node of kind `k` is read at `place`.
pub open spec fn belongs(k: Seq<char>, place: Place) -> bool {
    match place {
        Place::Item => is_item_kind(k),
        Place::Assoc => is_assoc_kind(k),
        Place::Variant => k == "VARIANT"@,
    }
}

/// The first type node among `ks`.
pub open spec fn first_type(ev: Seq<EventView>, ks: Seq<int>) -> Option<int>
    decreases ks.len(),
{
    if ks.len() == 0 {
        None
    } else if 0 <= ks[0] < ev.len() && is_type_kind(ev[ks[0]].kind) {
        Some(ks[0])
    } else {
        first_type(ev, ks.drop_first())
    }
}

/// The name of a self type and where it starts: the last segment of a
/// path type, looking through references and parentheses (as
/// `PathType::path`, `Path::segment` and `PathSegment::name_ref` find it);
/// none for any other type.
pub open spec fn self_type_name(ev: Seq<EventView>, t: int) -> Option<(Seq<char>, usize)>
    decreases ev.len() - t,
{
    if t < 0 || t >= ev.len() {
        None
    } else if ev[t].kind == "PATH_TYPE"@ {
        match child_of_kind(ev, t, "PATH"@) {
            Some(p) => match child_of_kind(ev, p, "PATH_SEGMENT"@) {
                Some(g) => match child_of_kind(ev, g, "NAME_REF"@) {
                    Some(r) => if 0 <= r < ev.len() {
                        Some((first_token_text(ev, r), ev[r].start))
                    } else {
                        None
                    },
                    None => None,
                },
                None => None,
            },
            None => None,
        }
    } else if ev[t].kind == "REF_TYPE"@ || ev[t].kind == "PAREN_TYPE"@ {
        match first_type(ev, kids(ev, t)) {
            Some(c) => if t < c < ev.len() {
                self_type_name(ev, c)
            } else {
                None
            },
            None => None,
        }
    } else {
        None
    }
}

/// Whether the impl at `i` implements a trait: it has a `for` and its
/// first type comes before it.
pub open spec fn has_trait(ev: Seq<EventView>, i: int) -> bool {
    match (child_of_kind(ev, i, "FOR_KW"@), first_type(ev, kids(ev, i))) {
        (Some(f), Some(t)) => 0 <= f < ev.len() && 0 <= t < ev.len() && ev[t].start < ev[f].start,
        _ => false,
    }
}

/// A named item: its name is the first token of its first `NAME` child,
/// its docs the doc comments among its direct children.
pub open spec fn named_view(ev: Seq<EventView>, i: int, kind: ItemKind, children: Seq<ItemView>) -> ItemView
    recommends
        0 <= i < ev.len(),
{
    let n = child_of_kind(ev, i, "NAME"@);
    ItemView {
        kind,
        name: match n {
            Some(m) => Some(first_token_text(ev, m)),
            None => None,
        },
        name_start: match n {
            Some(m) => if 0 <= m < ev.len() {
                ev[m].start
            } else {
                0usize
            },
            None => 0usize,
        },
        start: ev[i].start,
        end: ev[i].end,
        docs: docs_among(ev, kids(ev, i)),
        children,
    }
}

/// An item read for its range alone.
pub open spec fn unnamed_view(ev: Seq<EventView>, i: int, kind: ItemKind) -> ItemView
    recommends
        0 <= i < ev.len(),
{
    ItemView {
        kind,
        name: None,
        name_start: 0,
        start: ev[i].start,
        end: ev[i].end,
        docs: Seq::empty(),
        children: Seq::empty(),
    }
}

/// The items at `place` among the direct children `ks` of `parent`.
pub open spec fn items_among(ev: Seq<EventView>, parent: int, ks: Seq<int>, place: Place) -> Seq<ItemView>
    decreases ev.len() - parent, 0int, ks.len(),
{
    if ks.len() == 0 || parent < 0 {
        Seq::empty()
    } else {
        let k = ks.last();
        let prev = items_among(ev, parent, ks.drop_last(), place);
        if parent < k < ev.len() && belongs(ev[k].kind, place) {
            prev.push(item_at(ev, k, place))
        } else {
            prev
        }
    }
}

/// The items of the first child list of kind `list` of the node at `i`.
pub open spec fn list_items(ev: Seq<EventView>, i: int, list: Seq<char>, place: Place) -> Seq<ItemView>
    decreases ev.len() - i, 1int, 0nat,
{
    match child_of_kind(ev, i, list) {
        Some(l) => if i < l < ev.len() && i >= 0 {
            items_among(ev, l, kids(ev, l), place)
        } else {
            Seq::empty()
        },
        None => Seq::empty(),
    }
}

/// An impl block: a trait impl, or an inherent impl named after its self
/// type; its children are its associated items.
pub open spec fn impl_view(ev: Seq<EventView>, i: int) -> ItemView
    decreases ev.len() - i, 2int, 0nat,
{
    let children = list_items(ev, i, "ASSOC_ITEM_LIST"@, Place::Assoc);
    let docs = docs_among(ev, kids(ev, i));
    if has_trait(ev, i) {
        ItemView {
            kind: ItemKind::TraitImpl,
            name: None,
            name_start: 0,
            start: ev[i].start,
            end: ev[i].end,
            docs,
            children,
        }
    } else {
        let nm = match first_type(ev, kids(ev, i)) {
            Some(t) => self_type_name(ev, t),
            None => None,
        };
        ItemView {
            kind: ItemKind::Impl,
            name: match nm {
                Some(p) => Some(p.0),
                None => None,
            },
            name_start: match nm {
                Some(p) => p.1,
                None => 0usize,
            },
            start: ev[i].start,
            end: ev[i].end,
            docs,
            children,
        }
    }
}

/// The node at `i` read as an item at `place`.
pub open spec fn item_at(ev: Seq<EventView>, i: int, place: Place) -> ItemView
    decreases ev.len() - i, 3int, 0nat,
{
    if i < 0 || i >= ev.len() {
        ItemView {
            kind: ItemKind::Other,
            name: None,
            name_start: 0,
            start: 0,
            end: 0,
            docs: Seq::empty(),
            children: Seq::empty(),
        }
    } else {
        let k = ev[i].kind;
        match place {
            Place::Variant => named_view(ev, i, ItemKind::Variant, Seq::empty()),
            Place::Assoc => if k == "FN"@ {
                named_view(ev, i, ItemKind::Fn, Seq::empty())
            } else if k == "CONST"@ {
                named_view(ev, i, ItemKind::Const, Seq::empty())
            } else if k == "TYPE_ALIAS"@ {
                named_view(ev, i, ItemKind::TypeAlias, Seq::empty())
            } else {
                unnamed_view(ev, i, ItemKind::Other)
            },
            Place::Item => if k == "FN"@ {
                named_view(ev, i, ItemKind::Fn, Seq::empty())
            } else if k == "STRUCT"@ {
                named_view(ev, i, ItemKind::Struct, Seq::empty())
            } else if k == "ENUM"@ {
                named_view(ev, i, ItemKind::Enum, list_items(ev, i, "VARIANT_LIST"@, Place::Variant))
            } else if k == "TRAIT"@ {
                named_view(ev, i, ItemKind::Trait, list_items(ev, i, "ASSOC_ITEM_LIST"@, Place::Assoc))
            } else if k == "IMPL"@ {
                impl_view(ev, i)
            } else if k == "TYPE_ALIAS"@ {
                named_view(ev, i, ItemKind::TypeAlias, Seq::empty())
            } else if k == "CONST"@ {
                named_view(ev, i, ItemKind::Const, Seq::empty())
            } else if k == "STATIC"@ {
                named_view(ev, i, ItemKind::Static, Seq::empty())
            } else if k == "UNION"@ {
                named_view(ev, i, ItemKind::Union, Seq::empty())
            } else if k == "MODULE"@ {
                named_view(ev, i, ItemKind::Module, list_items(ev, i, "ITEM_LIST"@, Place::Item))
            } else {
                unnamed_view(ev, i, ItemKind::Other)
            },
        }
    }
}

/// The top-level items of a walk: the items among the root's children.
pub open spec fn tree_items(ev: Seq<EventView>) -> Seq<ItemView> {
    if ev.len() == 0 {
        Seq::empty()
    } else {
        items_among(ev, 0, kids(ev, 0), Place::Item)
    }
}

/// The top-level items `ra_ap_syntax` finds in `source`.
pub open spec fn parsed_items(source: Seq<char>) -> Seq<ItemView> {
    tree_items(parsed_events(source))
}

/// Whether `k` names an `ast::Item` node kind.
fn item_kind(k: &str) -> (b: bool)
    ensures
        b == is_item_kind(k@),
{
    str_eq(k, "ASM_EXPR") || str_eq(k, "CONST") || str_eq(k, "ENUM") || str_eq(k, "EXTERN_BLOCK") || str_eq(
        k,
        "EXTERN_CRATE",
    ) || str_eq(k, "FN") || str_eq(k, "IMPL") || str_eq(k, "MACRO_CALL") || str_eq(k, "MACRO_DEF") || str_eq(
        k,
        "MACRO_RULES",
    ) || str_eq(k, "MODULE") || str_eq(k, "STATIC") || str_eq(k, "STRUCT") || str_eq(k, "TRAIT") || str_eq(
        k,
        "TYPE_ALIAS",
    ) || str_eq(k, "UNION") || str_eq(k, "USE")
}

/// Whether `k` names an `ast::Type` node kind.
fn type_kind(k: &str) -> (b: bool)
    ensures
        b == is_type_kind(k@),
{
    str_eq(k, "ARRAY_TYPE") || str_eq(k, "DYN_TRAIT_TYPE") || str_eq(k, "FN_PTR_TYPE") || str_eq(k, "FOR_TYPE")
        || str_eq(k, "IMPL_TRAIT_TYPE") || str_eq(k, "INFER_TYPE") || str_eq(k, "MACRO_TYPE") || str_eq(
        k,
        "NEVER_TYPE",
    ) || str_eq(k, "PAREN_TYPE") || str_eq(k, "PATH_TYPE") || str_eq(k, "PTR_TYPE") || str_eq(k, "REF_TYPE")
        || str_eq(k, "SLICE_TYPE") || str_eq(k, "TUPLE_TYPE")
}

/// Whether a node of kind `k` is read at `place`.
fn belongs_at(k: &str, place: Place) -> (b: bool)
    ensures
        b == belongs(k@, place),
{
    match place {
        Place::Item => item_kind(k),
        Place::Assoc => str_eq(k, "CONST") || str_eq(k, "FN") || str_eq(k, "MACRO_CALL") || str_eq(k, "TYPE_ALIAS"),
        Place::Variant => str_eq(k, "VARIANT"),
    }
}

/// The first type node among `ks`.
fn first_type_in(ev: &Vec<SyntaxEvent>, ks: &Vec<usize>) -> (r: Option<usize>)
    ensures
        match r {
            Some(k) => first_type(event_views(ev@), ints(ks@)) == Some(k as int),
            None => first_type(event_views(ev@), ints(ks@)) is None,
        },
{
    let ghost evs = event_views(ev@);
    let ghost all = ints(ks@);
    let mut t: usize = 0;
    assert(all.skip(0) =~= all);
    while t < ks.len()
        invariant
            evs == event_views(ev@),
            all == ints(ks@),
            0 <= t <= ks@.len(),
            first_type(evs, all) == first_type(evs, all.skip(t as int)),
        decreases ks@.len() - t,
    {
        let k = ks[t];
        proof {
            let rest = all.skip(t as int);
            assert(rest[0] == k as int);
            assert(rest.drop_first() =~= all.skip(t + 1));
        }
        if k < ev.len() && type_kind(ev[k].kind.as_str()) {
            return Some(k);
        }
        t = t + 1;
    }
    assert(all.skip(t as int) =~= Seq::<int>::empty());
    None
}

/// The self-type name of the type node at `t`, as [`self_type_name`]
/// defines it.
fn self_type_name_at(ev: &Vec<SyntaxEvent>, t: usize) -> (r: Option<(String, usize)>)
    ensures
        match r {
            Some((n, s)) => self_type_name(event_views(ev@), t as int) == Some((n@, s)),
            None => self_type_name(event_views(ev@), t as int) is None,
        },
    decreases ev@.len() - t,
{
    let ghost evs = event_views(ev@);
    if t >= ev.len() {
        return None;
    }
    let k = ev[t].kind.as_str();
    if str_eq(k, "PATH_TYPE") {
        match child_kind(ev, t, "PATH") {
            Some(p) => match child_kind(ev, p, "PATH_SEGMENT") {
                Some(g) => match child_kind(ev, g, "NAME_REF") {
                    Some(n) => if n < ev.len() {
                        Some((first_token_of(ev, n), ev[n].start))
                    } else {
                        None
                    },
                    None => None,
                },
                None => None,
            },
            None => None,
        }
    } else if str_eq(k, "REF_TYPE") || str_eq(k, "PAREN_TYPE") {
        let ks = kids_of(ev, t);
        match first_type_in(ev, &ks) {
            Some(c) => if t < c && c < ev.len() {
                self_type_name_at(ev, c)
            } else {
                None
            },
            None => None,
        }
    } else {
        None
    }
}

/// Whether the impl at `i` implements a trait.
fn impl_has_trait(ev: &Vec<SyntaxEvent>, i: usize) -> (b: bool)
    ensures
        b == has_trait(event_views(ev@), i as int),
{
    let f = child_kind(ev, i, "FOR_KW");
    let ks = kids_of(ev, i);
    let t = first_type_in(ev, &ks);
    match (f, t) {
        (Some(f), Some(t)) => f < ev.len() && t < ev.len() && ev[t].start < ev[f].start,
        _ => false,
    }
}

/// The named item at `i` with `children`.
fn named_item(ev: &Vec<SyntaxEvent>, i: usize, kind: ItemKind, children: Vec<SourceItem>) -> (it: SourceItem)
    requires
        i < ev@.len(),
    ensures
        item_view(it) == named_view(event_views(ev@), i as int, kind, item_views(children@)),
{
    let n = child_kind(ev, i, "NAME");
    let (name, name_start) = match n {
        Some(m) => {
            let text = first_token_of(ev, m);
            let at = if m < ev.len() {
                ev[m].start
            } else {
                0
            };
            (Some(text), at)
        },
        None => (None, 0),
    };
    let docs = docs_of(ev, i);
    let it = SourceItem { kind, name, name_start, start: ev[i].start, end: ev[i].end, docs, children };
    assert(item_view(it) =~= named_view(event_views(ev@), i as int, kind, item_views(it.children@)));
    it
}

/// The item at `i` read for its range alone.
fn unnamed_item(ev: &Vec<SyntaxEvent>, i: usize, kind: ItemKind) -> (it: SourceItem)
    requires
        i < ev@.len(),
    ensures
        item_view(it) == unnamed_view(event_views(ev@), i as int, kind),
{
    let it = SourceItem {
        kind,
        name: None,
        name_start: 0,
        start: ev[i].start,
        end: ev[i].end,
        docs: Vec::new(),
        children: Vec::new(),
    };
    assert(crate::analyze::strs(it.docs@) =~= Seq::<Seq<char>>::empty());
    assert(item_views(it.children@) =~= Seq::<ItemView>::empty());
    it
}

/// The items at `place` among the direct children `ks` of `parent`.
fn build_items(ev: &Vec<SyntaxEvent>, parent: usize, ks: &Vec<usize>, place: Place) -> (out: Vec<SourceItem>)
    ensures
        item_views(out@) == items_among(event_views(ev@), parent as int, ints(ks@), place),
    decreases ev@.len() - parent, 0int, ks@.len(),
{
    let ghost evs = event_views(ev@);
    let ghost all = ints(ks@);
    let mut out: Vec<SourceItem> = Vec::new();
    let mut t: usize = 0;
    assert(all.take(0) =~= Seq::<int>::empty());
    while t < ks.len()
        invariant
            evs == event_views(ev@),
            all == ints(ks@),
            0 <= t <= ks@.len(),
            item_views(out@) == items_among(evs, parent as int, all.take(t as int), place),
        decreases ks@.len() - t,
    {
        let k = ks[t];
        proof {
            let tk = all.take(t + 1);
            assert(tk.drop_last() =~= all.take(t as int));
            assert(tk.last() == k as int);
        }
        let ghost before = out@;
        if parent < k && k < ev.len() && belongs_at(ev[k].kind.as_str(), place) {
            let it = build_item(ev, k, place);
            out.push(it);
            assert(out@.drop_last() =~= before);
        }
        t = t + 1;
    }
    assert(all.take(t as int) =~= all);
    out
}

/// The items of the first child list of kind `list` of the node at `i`.
fn build_list(ev: &Vec<SyntaxEvent>, i: usize, list: &str, place: Place) -> (out: Vec<SourceItem>)
    ensures
        item_views(out@) == list_items(event_views(ev@), i as int, list@, place),
    decreases ev@.len() - i, 1int, 0int,
{
    match child_kind(ev, i, list) {
        Some(l) => if i < l && l < ev.len() {
            let ks = kids_of(ev, l);
            build_items(ev, l, &ks, place)
        } else {
            let out: Vec<SourceItem> = Vec::new();
            assert(item_views(out@) =~= Seq::<ItemView>::empty());
            out
        },
        None => {
            let out: Vec<SourceItem> = Vec::new();
            assert(item_views(out@) =~= Seq::<ItemView>::empty());
            out
        },
    }
}

/// The impl block at `i`.
fn build_impl(ev: &Vec<SyntaxEvent>, i: usize) -> (it: SourceItem)
    requires
        i < ev@.len(),
    ensures
        item_view(it) == impl_view(event_views(ev@), i as int),
    decreases ev@.len() - i, 2int, 0int,
{
    let children = build_list(ev, i, "ASSOC_ITEM_LIST", Place::Assoc);
    let docs = docs_of(ev, i);
    if impl_has_trait(ev, i) {
        let it = SourceItem {
            kind: ItemKind::TraitImpl,
            name: None,
            name_start: 0,
            start: ev[i].start,
            end: ev[i].end,
            docs,
            children,
        };
        assert(item_view(it) =~= impl_view(event_views(ev@), i as int));
        it
    } else {
        let ks = kids_of(ev, i);
        let nm = match first_type_in(ev, &ks) {
            Some(t) => self_type_name_at(ev, t),
            None => None,
        };
        let (name, name_start) = match nm {
            Some((n, s)) => (Some(n), s),
            None => (None, 0),
        };
        let it = SourceItem { kind: ItemKind::Impl, name, name_start, start: ev[i].start, end: ev[i].end, docs, children };
        assert(item_view(it) =~= impl_view(event_views(ev@), i as int));
        it
    }
}

/// The node at `i` read as an item at `place`.
fn build_item(ev: &Vec<SyntaxEvent>, i: usize, place: Place) -> (it: SourceItem)
    requires
        i < ev@.len(),
    ensures
        item_view(it) == item_at(event_views(ev@), i as int, place),
    decreases ev@.len() - i, 3int, 0int,
{
    let k = ev[i].kind.as_str();
    match place {
        Place::Variant => named_item(ev, i, ItemKind::Variant, Vec::new()),
        Place::Assoc => if str_eq(k, "FN") {
            named_item(ev, i, ItemKind::Fn, Vec::new())
        } else if str_eq(k, "CONST") {
            named_item(ev, i, ItemKind::Const, Vec::new())
        } else if str_eq(k, "TYPE_ALIAS") {
            named_item(ev, i, ItemKind::TypeAlias, Vec::new())
        } else {
            unnamed_item(ev, i, ItemKind::Other)
        },
        Place::Item => if str_eq(k, "FN") {
            named_item(ev, i, ItemKind::Fn, Vec::new())
        } else if str_eq(k, "STRUCT") {
            named_item(ev, i, ItemKind::Struct, Vec::new())
        } else if str_eq(k, "ENUM") {
            let c = build_list(ev, i, "VARIANT_LIST", Place::Variant);
            named_item(ev, i, ItemKind::Enum, c)
        } else if str_eq(k, "TRAIT") {
            let c = build_list(ev, i, "ASSOC_ITEM_LIST", Place::Assoc);
            named_item(ev, i, ItemKind::Trait, c)
        } else if str_eq(k, "IMPL") {
            build_impl(ev, i)
        } else if str_eq(k, "TYPE_ALIAS") {
            named_item(ev, i, ItemKind::TypeAlias, Vec::new())
        } else if str_eq(k, "CONST") {
            named_item(ev, i, ItemKind::Const, Vec::new())
        } else if str_eq(k, "STATIC") {
            named_item(ev, i, ItemKind::Static, Vec::new())
        } else if str_eq(k, "UNION") {
            named_item(ev, i, ItemKind::Union, Vec::new())
        } else if str_eq(k, "MODULE") {
            let c = build_list(ev, i, "ITEM_LIST", Place::Item);
            named_item(ev, i, ItemKind::Module, c)
        } else {
            unnamed_item(ev, i, ItemKind::Other)
        },
    }
}

/// Parses `source` and reads off its top-level items, with their names,
/// doc comments and children.
pub fn parse_items(source: &str) -> (items: Vec<SourceItem>)
    ensures
        item_views(items@) == parsed_items(source@),
{
    let ev = syntax_events(source);
    if ev.len() == 0 {
        let out: Vec<SourceItem> = Vec::new();
        assert(item_views(out@) =~= Seq::<ItemView>::empty());
        return out;
    }
    let ks = kids_of(&ev, 0);
    build_items(&ev, 0, &ks, Place::Item)
}

} // verus!
