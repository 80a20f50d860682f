//! A parsed source file as the tree of its items.
//!
//! Each item records its kind, its name and where the name starts, the
//! byte range of its node (leading attributes and doc comments included),
//! the text of its doc comments, and its children: the items of an inline
//! module, the associated items of a trait or impl, the variants of an
//! enum. Byte offsets are into the file's UTF-8 source.

use vstd::prelude::*;

verus! {

/// What kind of item a [`SourceItem`] is.
#[derive(Debug, Clone, Copy, PartialEq, Eq, Structural)]
pub enum ItemKind {
    /// A free or associated function.
    Fn,
    /// A struct.
    Struct,
    /// An enum; its variants are its children.
    Enum,
    /// A trait; its associated items are its children.
    Trait,
    /// An inherent impl; its associated items are its children.
    Impl,
    /// A trait impl.
    TraitImpl,
    /// A type alias (free or associated).
    TypeAlias,
    /// A constant (free or associated).
    Const,
    /// A static.
    Static,
    /// A union.
    Union,
    /// A module; the items of its inline body are its children.
    Module,
    /// A variant of an enum.
    Variant,
    /// Any other item.
    Other,
}

/// The shape of a type expression, as far as naming the type goes.
#[derive(Debug)]
pub enum TypeShape {
    /// A path type, by the identifiers of its segments in order.
    Path(Vec<String>),
    /// A reference `&T` / `&mut T`.
    Reference(Box<TypeShape>),
    /// A parenthesised type `(T)`.
    Paren(Box<TypeShape>),
    /// An invisible group left by macro expansion.
    Group(Box<TypeShape>),
    /// Any other type: tuples, slices, arrays, pointers, `impl Trait`, …
    Other,
}

/// The last segment of a path, if the path has any.
pub open spec fn last_segment(segs: Seq<String>) -> Option<Seq<char>> {
    if segs.len() == 0 {
        None
    } else {
        Some(segs.last()@)
    }
}

/// The view of an optional string.
pub open spec fn opt_str(o: Option<String>) -> Option<Seq<char>> {
    match o {
        Some(s) => Some(s@),
        None => None,
    }
}

/// The last segment of a path, copied out.
pub fn path_tail(segs: &Vec<String>) -> (r: Option<String>)
    ensures
        opt_str(r) == last_segment(segs@),
{
    if segs.len() == 0 {
        None
    } else {
        Some(crate::text::owned(segs[segs.len() - 1].as_str()))
    }
}

/// One item of a source file.
#[derive(Debug)]
pub struct SourceItem {
    /// The item's kind.
    pub kind: ItemKind,
    /// The item's name. For an inherent impl, the last path segment of its
    /// self type, looking through references and parentheses; `None` when
    /// the self type is not a path.
    pub name: Option<String>,
    /// Byte offset at which the name starts; meaningful when there is a name.
    pub name_start: usize,
    /// First byte of the item's node.
    pub start: usize,
    /// One past the last byte of the item's node.
    pub end: usize,
    /// The text of each doc comment on the item, in source order.
    pub docs: Vec<String>,
    /// The items of an inline module, the associated items of a trait or
    /// impl, or the variants of an enum, in source order. Empty otherwise.
    pub children: Vec<SourceItem>,
}

/// One source file's items, named by its workspace-relative path.
#[derive(Debug)]
pub struct SourceItems {
    /// Workspace-relative path with `/` separators.
    pub relative: String,
    /// The file's top-level items in source order.
    pub items: Vec<SourceItem>,
}

/// The item is named `name`.
pub open spec fn has_name(it: SourceItem, name: Seq<char>) -> bool {
    match it.name {
        Some(n) => n@ == name,
        None => false,
    }
}

/// Every node of the forest lies within the first `len` bytes, starts no
/// later than it ends, and ends no later than its next sibling starts.
pub open spec fn well_placed(items: Seq<SourceItem>, len: int) -> bool
    decreases items,
{
    if items.len() == 0 {
        true
    } else {
        let it = items[0];
        &&& it.start <= it.end <= len
        &&& (items.len() > 1 ==> it.end <= items[1].start)
        &&& well_placed(it.children@, len)
        &&& well_placed(items.drop_first(), len)
    }
}

/// An item as plain values.
pub struct ItemView {
    /// The item's kind.
    pub kind: ItemKind,
    /// Its name, if it has one.
    pub name: Option<Seq<char>>,
    /// Where the name starts.
    pub name_start: usize,
    /// First byte of the node.
    pub start: usize,
    /// One past the last byte.
    pub end: usize,
    /// The texts of its doc comments.
    pub docs: Seq<Seq<char>>,
    /// Its children.
    pub children: Seq<ItemView>,
}

/// The plain view of an item and everything below it.
pub open spec fn item_view(it: SourceItem) -> ItemView
    decreases it,
{
    ItemView {
        kind: it.kind,
        name: opt_str(it.name),
        name_start: it.name_start,
        start: it.start,
        end: it.end,
        docs: crate::analyze::strs(it.docs@),
        children: item_views(it.children@),
    }
}

/// The plain views of a list of items.
pub open spec fn item_views(s: Seq<SourceItem>) -> Seq<ItemView>
    decreases s,
{
    if s.len() == 0 {
        Seq::empty()
    } else {
        item_views(s.drop_last()).push(item_view(s.last()))
    }
}

/// Whether an item is named `name`.
pub fn name_is(it: &SourceItem, name: &str) -> (b: bool)
    ensures
        b == has_name(*it, name@),
{
    match &it.name {
        Some(n) => crate::text::str_eq(n.as_str(), name),
        None => false,
    }
}

/// Whether every node of the forest lies within the first `len` bytes,
/// starts no later than it ends, and ends no later than its next sibling
/// starts.
pub fn is_well_placed(items: &Vec<SourceItem>, len: usize) -> (b: bool)
    ensures
        b == well_placed(items@, len as int),
    decreases items,
{
    let mut i: usize = items.len();
    let mut ok = true;
    // Scan from the back so each step adds one item in front of a suffix.
    assert(items@.skip(i as int) =~= Seq::<SourceItem>::empty());
    while i > 0
        invariant
            0 <= i <= items@.len(),
            ok == well_placed(items@.skip(i as int), len as int),
        decreases i,
    {
        let it = &items[i - 1];
        let sub = is_well_placed(&it.children, len);
        let next_ok = i == items.len() || it.end <= items[i].start;
        proof {
            let s = items@.skip(i - 1);
            assert(s[0] == items@[i - 1]);
            assert(s.drop_first() =~= items@.skip(i as int));
            if s.len() > 1 {
                assert(s[1] == items@[i as int]);
            }
        }
        ok = ok && it.start <= it.end && it.end <= len && next_ok && sub;
        i = i - 1;
    }
    assert(items@.skip(0) =~= items@);
    ok
}

} // verus!
