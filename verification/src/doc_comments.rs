//! Dismissals written in doc comments.
//!
//! A `/// rustics:dismiss <metric> reason="..."` line dismisses a metric for
//! the item it documents: a function, struct, enum or trait, an inherent
//! impl, or an associated function of a trait or inherent impl, at any
//! depth of inline modules. The scope a directive
//! applies to is the file's module path, the enclosing modules, traits and
//! impl self types, and the item's own name, joined with `::`.

use vstd::prelude::*;
use crate::analyze::{file_to_module_prefix, module_prefix, strs};
use crate::dismissal::{copy_string, directive, parse_directive_line, Dismissal};
use crate::items::{item_view, item_views, last_segment, opt_str, path_tail, ItemKind, ItemView, SourceItem, SourceItems, TypeShape};
use crate::syntax::{parse_items, parsed_items};
use crate::text::{chars_of, join, join_chars, owned, seqs, string_from};

verus! {

/// A dismissal as `(file, scope, metric, reason, neither author nor time)`.
pub open spec fn doc_view(d: Dismissal) -> (Seq<char>, Seq<char>, Seq<char>, Seq<char>, bool) {
    (d.file@, d.scope@, d.metric@, d.reason@, d.by is None && d.at is None)
}

/// The views of a list of dismissals.
pub open spec fn doc_views(s: Seq<Dismissal>) -> Seq<(Seq<char>, Seq<char>, Seq<char>, Seq<char>, bool)> {
    s.map_values(|d: Dismissal| doc_view(d))
}

/// The `(metric, reason)` pairs of the directive lines among `docs`, in order.
pub open spec fn directives(docs: Seq<Seq<char>>) -> Seq<(Seq<char>, Seq<char>)>
    decreases docs.len(),
{
    if docs.len() == 0 {
        Seq::empty()
    } else {
        directives(docs.drop_last()) + match directive(docs.last()) {
            Some(p) => seq![p],
            None => Seq::empty(),
        }
    }
}

/// The parts of a scope path: the module prefix when it is non-empty, the
/// enclosing names, and the item's name.
pub open spec fn scope_parts(prefix: Seq<char>, parent: Seq<Seq<char>>, name: Seq<char>) -> Seq<Seq<char>> {
    (if prefix.len() == 0 {
        Seq::empty()
    } else {
        seq![prefix]
    }) + parent + seq![name]
}

/// The scope path of an item, joined with `::`.
pub open spec fn scope_path(prefix: Seq<char>, parent: Seq<Seq<char>>, name: Seq<char>) -> Seq<char> {
    join(scope_parts(prefix, parent, name), "::"@)
}

/// The dismissals of one documented item: one per directive line.
pub open spec fn emitted(
    file: Seq<char>,
    prefix: Seq<char>,
    parent: Seq<Seq<char>>,
    name: Seq<char>,
    docs: Seq<Seq<char>>,
) -> Seq<(Seq<char>, Seq<char>, Seq<char>, Seq<char>, bool)> {
    directives(docs).map_values(
        |p: (Seq<char>, Seq<char>)| (file, scope_path(prefix, parent, name), p.0, p.1, true),
    )
}

/// The dismissals on the named associated functions among `items`.
pub open spec fn assoc_fn_dismissals(
    file: Seq<char>,
    prefix: Seq<char>,
    parent: Seq<Seq<char>>,
    items: Seq<SourceItem>,
) -> Seq<(Seq<char>, Seq<char>, Seq<char>, Seq<char>, bool)>
    decreases items.len(),
{
    if items.len() == 0 {
        Seq::empty()
    } else {
        let it = items.last();
        assoc_fn_dismissals(file, prefix, parent, items.drop_last()) + match (it.kind, it.name) {
            (ItemKind::Fn, Some(n)) => emitted(file, prefix, parent, n@, strs(it.docs@)),
            _ => Seq::empty(),
        }
    }
}

/// The name an inherent impl's dismissals are scoped under: the last
/// path segment of its self type, looking through references and
/// parentheses; none for any other type.
pub open spec fn impl_self_name(ty: TypeShape) -> Option<Seq<char>>
    decreases ty,
{
    match ty {
        TypeShape::Path(segs) => last_segment(segs@),
        TypeShape::Reference(inner) => impl_self_name(*inner),
        TypeShape::Paren(inner) => impl_self_name(*inner),
        _ => None,
    }
}

/// The self-type name of an inherent impl, as [`impl_self_name`]
/// defines it.
pub fn type_path_last_segment(ty: &TypeShape) -> (r: Option<String>)
    ensures
        opt_str(r) == impl_self_name(*ty),
    decreases ty,
{
    match ty {
        TypeShape::Path(segs) => path_tail(segs),
        TypeShape::Reference(inner) => type_path_last_segment(inner),
        TypeShape::Paren(inner) => type_path_last_segment(inner),
        _ => None,
    }
}

/// The enclosing names inside an inherent impl: the self type's name is
/// added when there is one.
pub open spec fn impl_parent(parent: Seq<Seq<char>>, name: Option<String>) -> Seq<Seq<char>> {
    match name {
        Some(n) => parent.push(n@),
        None => parent,
    }
}

/// Every doc-comment dismissal in `items` and below, in source order.
///
/// Functions, structs and enums with a name carry their own; a named trait
/// carries its own and those of its associated functions; an inherent impl
/// carries its own when its self type has a name, and those of its
/// associated functions; a named module carries those of its items. Trait
/// impls and other items carry none.
pub open spec fn item_dismissals(
    file: Seq<char>,
    prefix: Seq<char>,
    parent: Seq<Seq<char>>,
    items: Seq<SourceItem>,
) -> Seq<(Seq<char>, Seq<char>, Seq<char>, Seq<char>, bool)>
    decreases items,
{
    if items.len() == 0 {
        Seq::empty()
    } else {
        let it = items.last();
        let docs = strs(it.docs@);
        item_dismissals(file, prefix, parent, items.drop_last()) + match it.kind {
            ItemKind::Fn | ItemKind::Struct | ItemKind::Enum => match it.name {
                Some(n) => emitted(file, prefix, parent, n@, docs),
                None => Seq::empty(),
            },
            ItemKind::Trait => match it.name {
                Some(n) => emitted(file, prefix, parent, n@, docs) + assoc_fn_dismissals(
                    file,
                    prefix,
                    parent.push(n@),
                    it.children@,
                ),
                None => Seq::empty(),
            },
            ItemKind::Impl => (match it.name {
                Some(n) => emitted(file, prefix, parent, n@, docs),
                None => Seq::empty(),
            }) + assoc_fn_dismissals(file, prefix, impl_parent(parent, it.name), it.children@),
            ItemKind::Module => match it.name {
                Some(n) => item_dismissals(file, prefix, parent.push(n@), it.children@),
                None => Seq::empty(),
            },
            _ => Seq::empty(),
        }
    }
}

/// The views of a list of `(metric, reason)` pairs.
pub open spec fn pair_views(s: Seq<(String, String)>) -> Seq<(Seq<char>, Seq<char>)> {
    s.map_values(|p: (String, String)| (p.0@, p.1@))
}

/// Every doc-comment dismissal of one file: its module path is the prefix
/// of every scope.
pub open spec fn file_dismissals(f: SourceItems) -> Seq<(Seq<char>, Seq<char>, Seq<char>, Seq<char>, bool)> {
    item_dismissals(f.relative@, module_prefix(f.relative@), Seq::empty(), f.items@)
}

/// Every doc-comment dismissal of every file, file by file.
pub open spec fn all_file_dismissals(files: Seq<SourceItems>) -> Seq<(Seq<char>, Seq<char>, Seq<char>, Seq<char>, bool)>
    decreases files.len(),
{
    if files.len() == 0 {
        Seq::empty()
    } else {
        all_file_dismissals(files.drop_last()) + file_dismissals(files.last())
    }
}

/// The `(metric, reason)` pairs of the directive lines among `docs`.
pub fn parse_directives(docs: &Vec<String>) -> (out: Vec<(String, String)>)
    ensures
        pair_views(out@) == directives(strs(docs@)),
{
    let ghost ds = strs(docs@);
    let mut out: Vec<(String, String)> = Vec::new();
    let mut i: usize = 0;
    assert(pair_views(out@) =~= directives(ds.take(0)));
    while i < docs.len()
        invariant
            0 <= i <= docs@.len(),
            ds == strs(docs@),
            pair_views(out@) == directives(ds.take(i as int)),
        decreases docs@.len() - i,
    {
        proof {
            let t = ds.take(i + 1);
            assert(t.drop_last() =~= ds.take(i as int));
            assert(t.last() == docs@[i as int]@);
        }
        let ghost o = out@;
        match parse_directive_line(docs[i].as_str()) {
            Some(p) => {
                out.push(p);
                assert(pair_views(out@) =~= pair_views(o) + seq![(p.0@, p.1@)]);
            },
            None => {
                assert(pair_views(out@) =~= pair_views(o) + Seq::<(Seq<char>, Seq<char>)>::empty());
            },
        }
        i = i + 1;
    }
    assert(ds.take(i as int) =~= ds);
    out
}

/// The scope path of an item: the module prefix when non-empty, the
/// enclosing names and the item's name, joined with `::`.
pub fn scope_for(prefix: &str, parent: &Vec<String>, name: &str) -> (s: String)
    ensures
        s@ == scope_path(prefix@, strs(parent@), name@),
{
    let mut parts: Vec<Vec<char>> = Vec::new();
    let p = chars_of(prefix);
    if p.len() > 0 {
        parts.push(p);
    }
    let ghost head = seqs(parts@);
    assert(head =~= (if prefix@.len() == 0 {
        Seq::<Seq<char>>::empty()
    } else {
        seq![prefix@]
    }));
    let ghost ps = strs(parent@);
    let mut i: usize = 0;
    assert(seqs(parts@) =~= head + ps.take(0));
    while i < parent.len()
        invariant
            0 <= i <= parent@.len(),
            ps == strs(parent@),
            seqs(parts@) == head + ps.take(i as int),
        decreases parent@.len() - i,
    {
        let ghost before = seqs(parts@);
        parts.push(chars_of(parent[i].as_str()));
        assert(seqs(parts@) =~= before.push(ps[i as int]));
        assert(ps.take(i + 1) =~= ps.take(i as int).push(ps[i as int]));
        i = i + 1;
    }
    let ghost before = seqs(parts@);
    parts.push(chars_of(name));
    assert(seqs(parts@) =~= before.push(name@));
    assert(ps.take(i as int) =~= ps);
    assert(seqs(parts@) =~= scope_parts(prefix@, ps, name@));
    let sep = chars_of("::");
    let joined = join_chars(parts.as_slice(), sep.as_slice());
    string_from(joined.as_slice())
}

/// Appends one dismissal per directive line in `docs` for the item `name`.
fn emit(
    file: &str,
    prefix: &str,
    parent: &Vec<String>,
    docs: &Vec<String>,
    name: &str,
    out: &mut Vec<Dismissal>,
)
    ensures
        doc_views(final(out)@) == doc_views(old(out)@) + emitted(
            file@,
            prefix@,
            strs(parent@),
            name@,
            strs(docs@),
        ),
{
    let ds = parse_directives(docs);
    let scope = scope_for(prefix, parent, name);
    let ghost e = emitted(file@, prefix@, strs(parent@), name@, strs(docs@));
    let mut i: usize = 0;
    assert(doc_views(out@) =~= doc_views(old(out)@) + e.take(0));
    while i < ds.len()
        invariant
            0 <= i <= ds@.len(),
            pair_views(ds@) == directives(strs(docs@)),
            e == emitted(file@, prefix@, strs(parent@), name@, strs(docs@)),
            scope@ == scope_path(prefix@, strs(parent@), name@),
            doc_views(out@) == doc_views(old(out)@) + e.take(i as int),
        decreases ds@.len() - i,
    {
        let ghost before = doc_views(out@);
        let d = Dismissal {
            file: owned(file),
            scope: copy_string(&scope),
            metric: copy_string(&ds[i].0),
            reason: copy_string(&ds[i].1),
            by: None,
            at: None,
        };
        proof {
            assert(pair_views(ds@)[i as int] == (ds@[i as int].0@, ds@[i as int].1@));
            assert(doc_view(d) == e[i as int]);
        }
        out.push(d);
        assert(doc_views(out@) =~= before.push(doc_view(d)));
        assert(e.take(i + 1) =~= e.take(i as int).push(e[i as int]));
        i = i + 1;
    }
    assert(e.take(i as int) =~= e);
}

/// `parent` with `name` added at the end.
fn extended(parent: &Vec<String>, name: &str) -> (v: Vec<String>)
    ensures
        strs(v@) == strs(parent@).push(name@),
{
    let mut v: Vec<String> = Vec::new();
    let mut i: usize = 0;
    while i < parent.len()
        invariant
            0 <= i <= parent@.len(),
            strs(v@) == strs(parent@).take(i as int),
        decreases parent@.len() - i,
    {
        let ghost before = strs(v@);
        let c = copy_string(&parent[i]);
        v.push(c);
        assert(strs(v@) =~= before.push(c@));
        assert(strs(parent@).take(i + 1) =~= strs(parent@).take(i as int).push(parent@[i as int]@));
        i = i + 1;
    }
    let ghost before = strs(v@);
    let c = owned(name);
    v.push(c);
    assert(strs(v@) =~= before.push(c@));
    assert(strs(parent@).take(i as int) =~= strs(parent@));
    v
}

/// Appends the dismissals on the named associated functions among `items`.
fn collect_assoc_fns(
    file: &str,
    prefix: &str,
    parent: &Vec<String>,
    items: &Vec<SourceItem>,
    out: &mut Vec<Dismissal>,
)
    ensures
        doc_views(final(out)@) == doc_views(old(out)@) + assoc_fn_dismissals(
            file@,
            prefix@,
            strs(parent@),
            items@,
        ),
{
    let ghost pv = strs(parent@);
    let mut i: usize = 0;
    assert(doc_views(out@) =~= doc_views(old(out)@) + assoc_fn_dismissals(
        file@,
        prefix@,
        pv,
        items@.take(0),
    ));
    while i < items.len()
        invariant
            0 <= i <= items@.len(),
            pv == strs(parent@),
            doc_views(out@) == doc_views(old(out)@) + assoc_fn_dismissals(
                file@,
                prefix@,
                pv,
                items@.take(i as int),
            ),
        decreases items@.len() - i,
    {
        let it = &items[i];
        let ghost before = doc_views(out@);
        proof {
            let t = items@.take(i + 1);
            assert(t.drop_last() =~= items@.take(i as int));
            assert(t.last() == items@[i as int]);
        }
        let mut emitted_here = false;
        if it.kind == ItemKind::Fn {
            if let Some(n) = &it.name {
                emit(file, prefix, parent, &it.docs, n.as_str(), out);
                emitted_here = true;
            }
        }
        if !emitted_here {
            assert(doc_views(out@) =~= before + Seq::<
                (Seq<char>, Seq<char>, Seq<char>, Seq<char>, bool),
            >::empty());
        }
        assert(doc_views(out@) =~= doc_views(old(out)@) + assoc_fn_dismissals(
            file@,
            prefix@,
            pv,
            items@.take(i + 1),
        ));
        i = i + 1;
    }
    assert(items@.take(i as int) =~= items@);
}

/// Appends every doc-comment dismissal in `items` and below, in source
/// order, with `parent` as the enclosing names.
fn collect_in_items(
    file: &str,
    prefix: &str,
    parent: &Vec<String>,
    items: &Vec<SourceItem>,
    out: &mut Vec<Dismissal>,
)
    ensures
        doc_views(final(out)@) == doc_views(old(out)@) + item_dismissals(
            file@,
            prefix@,
            strs(parent@),
            items@,
        ),
    decreases items,
{
    let ghost pv = strs(parent@);
    let mut i: usize = 0;
    assert(doc_views(out@) =~= doc_views(old(out)@) + item_dismissals(
        file@,
        prefix@,
        pv,
        items@.take(0),
    ));
    while i < items.len()
        invariant
            0 <= i <= items@.len(),
            pv == strs(parent@),
            doc_views(out@) == doc_views(old(out)@) + item_dismissals(
                file@,
                prefix@,
                pv,
                items@.take(i as int),
            ),
        decreases items@.len() - i,
    {
        let it = &items[i];
        let ghost before = doc_views(out@);
        let ghost docs = strs(it.docs@);
        proof {
            let t = items@.take(i + 1);
            assert(t.drop_last() =~= items@.take(i as int));
            assert(t.last() == items@[i as int]);
        }
        match it.kind {
            ItemKind::Fn | ItemKind::Struct | ItemKind::Enum => {
                match &it.name {
                    Some(n) => {
                        emit(file, prefix, parent, &it.docs, n.as_str(), out);
                    },
                    None => {
                        assert(doc_views(out@) =~= before + Seq::<
                            (Seq<char>, Seq<char>, Seq<char>, Seq<char>, bool),
                        >::empty());
                    },
                }
            },
            ItemKind::Trait => {
                match &it.name {
                    Some(n) => {
                        emit(file, prefix, parent, &it.docs, n.as_str(), out);
                        let nested = extended(parent, n.as_str());
                        collect_assoc_fns(file, prefix, &nested, &it.children, out);
                    },
                    None => {
                        assert(doc_views(out@) =~= before + Seq::<
                            (Seq<char>, Seq<char>, Seq<char>, Seq<char>, bool),
                        >::empty());
                    },
                }
            },
            ItemKind::Impl => {
                match &it.name {
                    Some(n) => {
                        emit(file, prefix, parent, &it.docs, n.as_str(), out);
                        let nested = extended(parent, n.as_str());
                        collect_assoc_fns(file, prefix, &nested, &it.children, out);
                    },
                    None => {
                        collect_assoc_fns(file, prefix, parent, &it.children, out);
                        assert(Seq::<
                            (Seq<char>, Seq<char>, Seq<char>, Seq<char>, bool),
                        >::empty() + assoc_fn_dismissals(file@, prefix@, pv, it.children@)
                            =~= assoc_fn_dismissals(file@, prefix@, pv, it.children@));
                    },
                }
            },
            ItemKind::Module => {
                match &it.name {
                    Some(n) => {
                        let nested = extended(parent, n.as_str());
                        collect_in_items(file, prefix, &nested, &it.children, out);
                    },
                    None => {
                        assert(doc_views(out@) =~= before + Seq::<
                            (Seq<char>, Seq<char>, Seq<char>, Seq<char>, bool),
                        >::empty());
                    },
                }
            },
            _ => {
                assert(doc_views(out@) =~= before + Seq::<
                    (Seq<char>, Seq<char>, Seq<char>, Seq<char>, bool),
                >::empty());
            },
        }
        assert(doc_views(out@) =~= doc_views(old(out)@) + item_dismissals(
            file@,
            prefix@,
            pv,
            items@.take(i + 1),
        ));
        i = i + 1;
    }
    assert(items@.take(i as int) =~= items@);
}

/// Every doc-comment dismissal of one file, in source order. Scopes start
/// with the module path derived from the file's relative path.
pub fn collect_file_dismissals(file: &SourceItems) -> (out: Vec<Dismissal>)
    ensures
        doc_views(out@) == file_dismissals(*file),
{
    let prefix = file_to_module_prefix(file.relative.as_str());
    let parent: Vec<String> = Vec::new();
    let mut out: Vec<Dismissal> = Vec::new();
    assert(strs(parent@) =~= Seq::<Seq<char>>::empty());
    collect_in_items(file.relative.as_str(), prefix.as_str(), &parent, &file.items, &mut out);
    assert(doc_views(Seq::<Dismissal>::empty()) =~= Seq::empty());
    assert(doc_views(out@) =~= file_dismissals(*file));
    out
}

/// Every doc-comment dismissal of every file, file by file and in source
/// order within a file.
pub fn collect_doc_dismissals(files: &[SourceItems]) -> (out: Vec<Dismissal>)
    ensures
        doc_views(out@) == all_file_dismissals(files@),
{
    let parent: Vec<String> = Vec::new();
    let mut out: Vec<Dismissal> = Vec::new();
    let mut i: usize = 0;
    assert(strs(parent@) =~= Seq::<Seq<char>>::empty());
    assert(doc_views(out@) =~= all_file_dismissals(files@.take(0)));
    while i < files.len()
        invariant
            0 <= i <= files@.len(),
            strs(parent@) == Seq::<Seq<char>>::empty(),
            doc_views(out@) == all_file_dismissals(files@.take(i as int)),
        decreases files@.len() - i,
    {
        let f = &files[i];
        proof {
            let t = files@.take(i + 1);
            assert(t.drop_last() =~= files@.take(i as int));
            assert(t.last() == files@[i as int]);
        }
        let prefix = file_to_module_prefix(f.relative.as_str());
        collect_in_items(f.relative.as_str(), prefix.as_str(), &parent, &f.items, &mut out);
        i = i + 1;
    }
    assert(files@.take(i as int) =~= files@);
    out
}

// ----------------------------------------------------------------------
// From source text
// ----------------------------------------------------------------------

/// [`assoc_fn_dismissals`] over plain item views.
pub open spec fn view_assoc_fn_dismissals(
    file: Seq<char>,
    prefix: Seq<char>,
    parent: Seq<Seq<char>>,
    items: Seq<ItemView>,
) -> Seq<(Seq<char>, Seq<char>, Seq<char>, Seq<char>, bool)>
    decreases items.len(),
{
    if items.len() == 0 {
        Seq::empty()
    } else {
        let it = items.last();
        view_assoc_fn_dismissals(file, prefix, parent, items.drop_last()) + match (it.kind, it.name) {
            (ItemKind::Fn, Some(n)) => emitted(file, prefix, parent, n, it.docs),
            _ => Seq::empty(),
        }
    }
}

/// Every doc-comment dismissal in `items` and below, as
/// [`item_dismissals`] defines it, over plain item views.
pub open spec fn view_dismissals(
    file: Seq<char>,
    prefix: Seq<char>,
    parent: Seq<Seq<char>>,
    items: Seq<ItemView>,
) -> Seq<(Seq<char>, Seq<char>, Seq<char>, Seq<char>, bool)>
    decreases items,
{
    if items.len() == 0 {
        Seq::empty()
    } else {
        let it = items.last();
        view_dismissals(file, prefix, parent, items.drop_last()) + match it.kind {
            ItemKind::Fn | ItemKind::Struct | ItemKind::Enum => match it.name {
                Some(n) => emitted(file, prefix, parent, n, it.docs),
                None => Seq::empty(),
            },
            ItemKind::Trait => match it.name {
                Some(n) => emitted(file, prefix, parent, n, it.docs) + view_assoc_fn_dismissals(
                    file,
                    prefix,
                    parent.push(n),
                    it.children,
                ),
                None => Seq::empty(),
            },
            ItemKind::Impl => (match it.name {
                Some(n) => emitted(file, prefix, parent, n, it.docs),
                None => Seq::empty(),
            }) + view_assoc_fn_dismissals(
                file,
                prefix,
                match it.name {
                    Some(n) => parent.push(n),
                    None => parent,
                },
                it.children,
            ),
            ItemKind::Module => match it.name {
                Some(n) => view_dismissals(file, prefix, parent.push(n), it.children),
                None => Seq::empty(),
            },
            _ => Seq::empty(),
        }
    }
}

/// The associated-function dismissals read the same off items and their
/// views.
proof fn lemma_assoc_views(file: Seq<char>, prefix: Seq<char>, parent: Seq<Seq<char>>, items: Seq<SourceItem>)
    ensures
        assoc_fn_dismissals(file, prefix, parent, items) == view_assoc_fn_dismissals(
            file,
            prefix,
            parent,
            item_views(items),
        ),
    decreases items.len(),
{
    if items.len() > 0 {
        let v = item_views(items);
        let it = items.last();
        assert(v.drop_last() =~= item_views(items.drop_last()));
        assert(v.last() == item_view(it));
        lemma_assoc_views(file, prefix, parent, items.drop_last());
        match it.name {
            Some(n) => {
                assert(item_view(it).name == Some(n@));
            },
            None => {
                assert(item_view(it).name is None);
            },
        }
    }
}

/// The dismissals read the same off items and their views.
proof fn lemma_item_views(file: Seq<char>, prefix: Seq<char>, parent: Seq<Seq<char>>, items: Seq<SourceItem>)
    ensures
        item_dismissals(file, prefix, parent, items) == view_dismissals(file, prefix, parent, item_views(items)),
    decreases items,
{
    if items.len() > 0 {
        let v = item_views(items);
        let it = items.last();
        assert(v.drop_last() =~= item_views(items.drop_last()));
        assert(v.last() == item_view(it));
        lemma_item_views(file, prefix, parent, items.drop_last());
        match it.name {
            Some(n) => {
                lemma_assoc_views(file, prefix, parent.push(n@), it.children@);
                lemma_item_views(file, prefix, parent.push(n@), it.children@);
            },
            None => {},
        }
        lemma_assoc_views(file, prefix, parent, it.children@);
    }
}

/// Every doc-comment dismissal of one file given as its relative path and
/// its source text: the text is parsed, and the dismissals are read off
/// the items found.
pub fn file_doc_dismissals(relative: &str, source: &str) -> (out: Vec<Dismissal>)
    ensures
        doc_views(out@) == view_dismissals(relative@, module_prefix(relative@), Seq::empty(), parsed_items(source@)),
{
    let items = parse_items(source);
    let f = SourceItems { relative: owned(relative), items };
    let out = collect_file_dismissals(&f);
    proof {
        lemma_item_views(relative@, module_prefix(relative@), Seq::empty(), f.items@);
    }
    out
}

// ----------------------------------------------------------------------
// Laws
// ----------------------------------------------------------------------

/// Every entry names `file` and carries neither author nor time.
pub open spec fn all_in_file(ds: Seq<(Seq<char>, Seq<char>, Seq<char>, Seq<char>, bool)>, file: Seq<char>) -> bool {
    forall|k: int| 0 <= k < ds.len() ==> (#[trigger] ds[k]).0 == file && ds[k].4
}

proof fn lemma_concat_in_file(
    a: Seq<(Seq<char>, Seq<char>, Seq<char>, Seq<char>, bool)>,
    b: Seq<(Seq<char>, Seq<char>, Seq<char>, Seq<char>, bool)>,
    file: Seq<char>,
)
    requires
        all_in_file(a, file),
        all_in_file(b, file),
    ensures
        all_in_file(a + b, file),
{
    assert forall|k: int| 0 <= k < (a + b).len() implies (#[trigger] (a + b)[k]).0 == file && (a
        + b)[k].4 by {
        if k < a.len() {
            assert((a + b)[k] == a[k]);
        } else {
            assert((a + b)[k] == b[k - a.len()]);
        }
    }
}

proof fn lemma_assoc_in_file(file: Seq<char>, prefix: Seq<char>, parent: Seq<Seq<char>>, items: Seq<SourceItem>)
    ensures
        all_in_file(assoc_fn_dismissals(file, prefix, parent, items), file),
    decreases items.len(),
{
    if items.len() > 0 {
        lemma_assoc_in_file(file, prefix, parent, items.drop_last());
        let it = items.last();
        let here = match (it.kind, it.name) {
            (ItemKind::Fn, Some(n)) => emitted(file, prefix, parent, n@, strs(it.docs@)),
            _ => Seq::empty(),
        };
        lemma_concat_in_file(assoc_fn_dismissals(file, prefix, parent, items.drop_last()), here, file);
    }
}

proof fn lemma_emitted_in_file(file: Seq<char>, prefix: Seq<char>, parent: Seq<Seq<char>>, name: Seq<char>, docs: Seq<Seq<char>>)
    ensures
        all_in_file(emitted(file, prefix, parent, name, docs), file),
{
}

proof fn lemma_items_in_file(file: Seq<char>, prefix: Seq<char>, parent: Seq<Seq<char>>, items: Seq<SourceItem>)
    ensures
        all_in_file(item_dismissals(file, prefix, parent, items), file),
    decreases items,
{
    if items.len() > 0 {
        let it = items.last();
        lemma_items_in_file(file, prefix, parent, items.drop_last());
        let prev = item_dismissals(file, prefix, parent, items.drop_last());
        let whole = item_dismissals(file, prefix, parent, items);
        let docs = strs(it.docs@);
        let empty = Seq::<(Seq<char>, Seq<char>, Seq<char>, Seq<char>, bool)>::empty();
        if it.kind == ItemKind::Fn || it.kind == ItemKind::Struct || it.kind == ItemKind::Enum {
            let here = match it.name {
                Some(n) => emitted(file, prefix, parent, n@, docs),
                None => empty,
            };
            if let Some(n) = it.name {
                lemma_emitted_in_file(file, prefix, parent, n@, docs);
            }
            assert(whole == prev + here);
            lemma_concat_in_file(prev, here, file);
        } else if it.kind == ItemKind::Trait {
            let here = match it.name {
                Some(n) => emitted(file, prefix, parent, n@, docs) + assoc_fn_dismissals(
                    file,
                    prefix,
                    parent.push(n@),
                    it.children@,
                ),
                None => empty,
            };
            if let Some(n) = it.name {
                lemma_emitted_in_file(file, prefix, parent, n@, docs);
                lemma_assoc_in_file(file, prefix, parent.push(n@), it.children@);
                lemma_concat_in_file(
                    emitted(file, prefix, parent, n@, docs),
                    assoc_fn_dismissals(file, prefix, parent.push(n@), it.children@),
                    file,
                );
            }
            assert(whole == prev + here);
            lemma_concat_in_file(prev, here, file);
        } else if it.kind == ItemKind::Impl {
            let own = match it.name {
                Some(n) => emitted(file, prefix, parent, n@, docs),
                None => empty,
            };
            if let Some(n) = it.name {
                lemma_emitted_in_file(file, prefix, parent, n@, docs);
            }
            let assoc = assoc_fn_dismissals(file, prefix, impl_parent(parent, it.name), it.children@);
            lemma_assoc_in_file(file, prefix, impl_parent(parent, it.name), it.children@);
            lemma_concat_in_file(own, assoc, file);
            assert(whole == prev + (own + assoc));
            lemma_concat_in_file(prev, own + assoc, file);
        } else if it.kind == ItemKind::Module {
            let here = match it.name {
                Some(n) => item_dismissals(file, prefix, parent.push(n@), it.children@),
                None => empty,
            };
            if let Some(n) = it.name {
                lemma_items_in_file(file, prefix, parent.push(n@), it.children@);
            }
            assert(whole == prev + here);
            lemma_concat_in_file(prev, here, file);
        } else {
            assert(whole == prev + empty);
            lemma_concat_in_file(prev, empty, file);
        }
    }
}

/// A dismissal collected from a file's doc comments names that file, and
/// carries neither author nor time.
pub proof fn law_doc_dismissals_stay_in_their_file(f: SourceItems)
    ensures
        all_in_file(file_dismissals(f), f.relative@),
{
    lemma_items_in_file(f.relative@, module_prefix(f.relative@), Seq::empty(), f.items@);
}

} // verus!
