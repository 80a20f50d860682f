//! Public-API reachability findings: the kind filter and the text dump.

use vstd::prelude::*;
use crate::analyze::{expand_csv, expand_csv_spec, strs};
use crate::text::{chars_eq, chars_of, decimal, is_prefix, owned, push_decimal, push_str, starts_with, str_eq};

pub mod apply;

verus! {

/// One unused-public finding.
#[derive(Debug)]
pub struct UnusedItem {
    /// Workspace-relative path.
    pub file: String,
    /// 1-based line number of the declaration.
    pub line: usize,
    /// Item name.
    pub name: String,
    /// Item kind for display (one of [`KNOWN_KINDS`]).
    pub kind: String,
    /// Containing scope: the enum of a variant, the type of an inherent
    /// method or associated constant; `None` for top-level items.
    pub parent: Option<String>,
}

/// Every declaration kind the detector emits, in the spelling the CLI
/// accepts on `--filter`.
pub const KNOWN_KINDS: [&'static str; 12] = [
    "fn",
    "struct",
    "enum",
    "trait",
    "type",
    "const",
    "static",
    "union",
    "variant",
    "method",
    "assoc-const",
    "adt",
];

/// `k` is one of [`KNOWN_KINDS`].
pub open spec fn known_kind(k: Seq<char>) -> bool {
    exists|i: int| 0 <= i < 12 && (#[trigger] KNOWN_KINDS[i])@ == k
}

/// Whether `k` is one of [`KNOWN_KINDS`].
pub fn is_known_kind(k: &str) -> (b: bool)
    ensures
        b == known_kind(k@),
{
    let mut i: usize = 0;
    while i < 12
        invariant
            0 <= i <= 12,
            forall|j: int| 0 <= j < i ==> (#[trigger] KNOWN_KINDS[j])@ != k@,
        decreases 12 - i,
    {
        if str_eq(KNOWN_KINDS[i], k) {
            return true;
        }
        i = i + 1;
    }
    false
}

/// A set of kinds, held without repetition in first-seen order.
#[derive(Debug)]
pub struct KindSet {
    kinds: Vec<String>,
}

impl KindSet {
    /// The kinds, in first-seen order.
    pub closed spec fn view(&self) -> Seq<Seq<char>> {
        strs(self.kinds@)
    }

    /// No kind is held twice.
    #[verifier::type_invariant]
    spec fn wf(self) -> bool {
        self.view().no_duplicates()
    }

    /// The empty set.
    pub fn new() -> (s: Self)
        ensures
            s.view().len() == 0,
    {
        let s = KindSet { kinds: Vec::new() };
        assert(s.view() =~= Seq::<Seq<char>>::empty());
        s
    }

    /// Whether `k` is in the set.
    pub fn contains(&self, k: &str) -> (b: bool)
        ensures
            b == self.view().contains(k@),
    {
        let mut i: usize = 0;
        while i < self.kinds.len()
            invariant
                0 <= i <= self.kinds@.len(),
                forall|j: int| 0 <= j < i ==> self.view()[j] != k@,
            decreases self.kinds@.len() - i,
        {
            if str_eq(self.kinds[i].as_str(), k) {
                assert(self.view()[i as int] == k@);
                return true;
            }
            i = i + 1;
        }
        false
    }

    /// Number of distinct kinds.
    pub fn len(&self) -> (n: usize)
        ensures
            n == self.view().len(),
    {
        self.kinds.len()
    }

    /// Adds `k` unless it is already present.
    pub fn insert(&mut self, k: &str)
        ensures
            final(self).view() == (if old(self).view().contains(k@) {
                old(self).view()
            } else {
                old(self).view().push(k@)
            }),
    {
        proof {
            use_type_invariant(&*self);
        }
        if !self.contains(k) {
            let ghost v0 = self.view();
            let mut kinds: Vec<String> = Vec::new();
            std::mem::swap(&mut kinds, &mut self.kinds);
            kinds.push(owned(k));
            assert(strs(kinds@) =~= v0.push(k@));
            assert(strs(kinds@).no_duplicates()) by {
                assert forall|a: int, b: int| 0 <= a < b < strs(kinds@).len() implies strs(kinds@)[a] != strs(kinds@)[b] by {
                    if b == v0.len() {
                        assert(!v0.contains(k@));
                        assert(v0[a] == strs(kinds@)[a]);
                    }
                }
            }
            self.kinds = kinds;
        }
    }
}

/// The rejection of a `--filter` value.
#[derive(Debug)]
pub struct FilterError {
    /// The first kind that is not one of [`KNOWN_KINDS`].
    pub kind: String,
}

impl FilterError {
    /// The text the CLI prints.
    pub fn message(&self) -> (s: String)
        ensures
            s@ == "unused --filter: unknown kind `"@ + self.kind@ + "`. Valid kinds: "@
                + known_kinds_listing(),
    {
        let mut s = owned("unused --filter: unknown kind `");
        push_str(&mut s, self.kind.as_str());
        push_str(&mut s, "`. Valid kinds: ");
        let mut i: usize = 0;
        while i < 12
            invariant
                0 <= i <= 12,
                s@ == "unused --filter: unknown kind `"@ + self.kind@ + "`. Valid kinds: "@
                    + listing_prefix(i as int),
            decreases 12 - i,
        {
            let ghost s0 = s@;
            if i > 0 {
                push_str(&mut s, ", ");
            }
            push_str(&mut s, KNOWN_KINDS[i]);
            assert(s@ =~= s0 + (if i > 0 { ", "@ } else { Seq::empty() }) + KNOWN_KINDS[i as int]@);
            i = i + 1;
        }
        s
    }
}

/// The first `n` known kinds joined with `, `.
pub open spec fn listing_prefix(n: int) -> Seq<char>
    decreases n,
{
    if n <= 0 {
        Seq::empty()
    } else if n == 1 {
        KNOWN_KINDS[0]@
    } else {
        listing_prefix(n - 1) + ", "@ + KNOWN_KINDS[n - 1]@
    }
}

/// Every known kind joined with `, `.
pub open spec fn known_kinds_listing() -> Seq<char> {
    listing_prefix(12)
}

/// What `--filter` values mean: `None` when no value, or no non-blank
/// piece, was given; the first unknown kind as an error; otherwise the set
/// of kinds named.
pub open spec fn kind_filter_result(values: Seq<Seq<char>>) -> Result<Option<Set<Seq<char>>>, Seq<char>> {
    let items = expand_csv_spec(values);
    if values.len() == 0 {
        Ok(None)
    } else if exists|i: int| 0 <= i < items.len() && !known_kind(#[trigger] items[i]) {
        let i = choose|i: int| 0 <= i < items.len() && !known_kind(#[trigger] items[i]) && forall|j: int| 0 <= j < i ==> known_kind(items[j]);
        Err(items[i])
    } else if items.len() == 0 {
        Ok(None)
    } else {
        Ok(Some(items.to_set()))
    }
}

/// `s.push(x)` contains exactly what `s` contains, and `x`.
pub proof fn lemma_push_contains<A>(s: Seq<A>, x: A, a: A)
    ensures
        s.push(x).contains(a) == (s.contains(a) || a == x),
{
    if s.contains(a) {
        let k = choose|k: int| 0 <= k < s.len() && s[k] == a;
        assert(s.push(x)[k] == a);
    }
    if a == x {
        assert(s.push(x)[s.len() as int] == a);
    }
    if s.push(x).contains(a) {
        let k = choose|k: int| 0 <= k < s.len() + 1 && s.push(x)[k] == a;
        if k < s.len() {
            assert(s[k] == a);
        }
    }
}

/// Validates `--filter` values and returns the allow-set of kinds.
/// Comma-separated values are split and trimmed; blank pieces are skipped.
pub fn parse_kind_filter(values: &[String]) -> (r: Result<Option<KindSet>, FilterError>)
    ensures
        match (r, kind_filter_result(strs(values@))) {
            (Ok(None), Ok(None)) => true,
            (Ok(Some(s)), Ok(Some(t))) => s.view().no_duplicates() && s.view().to_set() == t,
            (Err(e), Err(k)) => e.kind@ == k,
            _ => false,
        },
{
    let ghost vals = strs(values@);
    if values.len() == 0 {
        return Ok(None);
    }
    let items = expand_csv(values);
    let ghost its = strs(items@);
    let mut set = KindSet::new();
    let mut i: usize = 0;
    while i < items.len()
        invariant
            0 <= i <= items@.len(),
            its == strs(items@),
            vals == strs(values@),
            values@.len() > 0,
            its == expand_csv_spec(vals),
            forall|a: Seq<char>| set.view().contains(a) <==> its.take(i as int).contains(a),
            forall|j: int| 0 <= j < i ==> known_kind(#[trigger] its[j]),
        decreases items@.len() - i,
    {
        assert(its[i as int] == items@[i as int]@);
        if !is_known_kind(items[i].as_str()) {
            proof {
                let p = |k: int| 0 <= k < its.len() && !known_kind(its[k]) && forall|j: int| 0 <= j < k ==> known_kind(its[j]);
                assert(p(i as int));
                let k = choose|k: int| 0 <= k < its.len() && !known_kind(#[trigger] its[k]) && forall|j: int| 0 <= j < k ==> known_kind(its[j]);
                assert(0 <= k < its.len() && !known_kind(its[k]) && forall|j: int| 0 <= j < k ==> known_kind(its[j]));
                if k < i {
                    assert(known_kind(its[k]));
                } else if k > i {
                    assert(known_kind(its[i as int]));
                }
                assert(k == i);
                assert(exists|j: int| 0 <= j < its.len() && !known_kind(#[trigger] its[j]));
                assert(vals.len() != 0);
                assert(kind_filter_result(vals) == Err::<Option<Set<Seq<char>>>, Seq<char>>(its[i as int]));
            }
            return Err(FilterError { kind: owned(items[i].as_str()) });
        }
        let ghost before = set.view();
        set.insert(items[i].as_str());
        proof {
            assert(its.take(i + 1) =~= its.take(i as int).push(its[i as int]));
            assert forall|a: Seq<char>| set.view().contains(a) <==> its.take(i + 1).contains(a) by {
                lemma_push_contains(its.take(i as int), its[i as int], a);
                if !before.contains(its[i as int]) {
                    lemma_push_contains(before, its[i as int], a);
                }
            }
        }
        i = i + 1;
    }
    assert(its.take(i as int) =~= its);
    assert(!exists|k: int| 0 <= k < its.len() && !known_kind(#[trigger] its[k]));
    if set.len() == 0 {
        proof {
            if its.len() > 0 {
                assert(its.contains(its[0]));
                assert(set.view().contains(its[0]));
            }
        }
        return Ok(None);
    }
    proof {
        use_type_invariant(&set);
        assert(set.view().contains(set.view()[0]));
        assert(its.len() > 0);
        assert(set.view().to_set() =~= its.to_set());
    }
    Ok(Some(set))
}

/// The items whose kind passes `allowed` (all of them when `None`).
pub open spec fn kind_filtered(items: Seq<UnusedItem>, allowed: Option<Seq<Seq<char>>>) -> Seq<UnusedItem> {
    match allowed {
        None => items,
        Some(set) => items.filter(|i: UnusedItem| set.contains(i.kind@)),
    }
}

/// Keeps the items whose kind is in `allowed`; with no filter the input
/// is returned unchanged.
pub fn apply_kind_filter(items: Vec<UnusedItem>, allowed: Option<&KindSet>) -> (out: Vec<UnusedItem>)
    ensures
        out@ == kind_filtered(
            items@,
            match allowed {
                Some(s) => Some(s.view()),
                None => None,
            },
        ),
{
    let set = match allowed {
        None => {
            return items;
        },
        Some(s) => s,
    };
    let ghost all = items@;
    let ghost pred = |i: UnusedItem| set.view().contains(i.kind@);
    let mut out: Vec<UnusedItem> = Vec::new();
    let mut rest = items;
    let ghost mut taken: int = 0;
    while rest.len() > 0
        invariant
            0 <= taken <= all.len(),
            rest@ == all.skip(taken),
            pred == (|i: UnusedItem| set.view().contains(i.kind@)),
            out@ == all.take(taken).filter(pred),
        decreases rest@.len(),
    {
        let it = rest.remove(0);
        proof {
            assert(it == all[taken]);
            assert(all.take(taken + 1) =~= all.take(taken).push(it));
            all.take(taken).lemma_filter_push(it, pred);
        }
        if set.contains(it.kind.as_str()) {
            out.push(it);
        }
        proof {
            taken = taken + 1;
            assert(rest@ =~= all.skip(taken));
        }
    }
    assert(all.take(taken) =~= all);
    out
}

/// The text line for one item: `  <kind> [<parent>::]<name> — <file>:<line>`.
pub open spec fn item_line(it: UnusedItem) -> Seq<char> {
    "  "@ + it.kind@ + " "@ + match it.parent {
        Some(p) => p@ + "::"@,
        None => Seq::empty(),
    } + it.name@ + " \u{2014} "@ + it.file@ + ":"@ + decimal(it.line as nat) + "\n"@
}

/// The lines of all items, in order.
pub open spec fn item_lines(items: Seq<UnusedItem>) -> Seq<char>
    decreases items.len(),
{
    if items.len() == 0 {
        Seq::empty()
    } else {
        item_lines(items.drop_last()) + item_line(items.last())
    }
}

/// The text dump of `cargo rustics unused`.
pub open spec fn format_spec(items: Seq<UnusedItem>) -> Seq<char> {
    if items.len() == 0 {
        "rustics unused: no candidates found.\n"@
    } else {
        "rustics unused: "@ + decimal(items.len()) + " candidate(s):\n"@ + item_lines(items)
    }
}

/// Renders the findings as text: a count header, then one line per item.
pub fn format(items: &[UnusedItem]) -> (s: String)
    ensures
        s@ == format_spec(items@),
{
    if items.len() == 0 {
        return owned("rustics unused: no candidates found.\n");
    }
    let mut s = owned("rustics unused: ");
    push_decimal(&mut s, items.len() as u64);
    push_str(&mut s, " candidate(s):\n");
    let ghost head = s@;
    let mut i: usize = 0;
    while i < items.len()
        invariant
            0 <= i <= items@.len(),
            s@ == head + item_lines(items@.take(i as int)),
        decreases items@.len() - i,
    {
        let it = &items[i];
        let ghost s0 = s@;
        push_str(&mut s, "  ");
        push_str(&mut s, it.kind.as_str());
        push_str(&mut s, " ");
        match &it.parent {
            Some(p) => {
                push_str(&mut s, p.as_str());
                push_str(&mut s, "::");
            },
            None => {},
        }
        push_str(&mut s, it.name.as_str());
        push_str(&mut s, " \u{2014} ");
        push_str(&mut s, it.file.as_str());
        push_str(&mut s, ":");
        push_decimal(&mut s, it.line as u64);
        push_str(&mut s, "\n");
        proof {
            assert(s@ =~= s0 + item_line(*it));
            let t = items@.take(i + 1);
            assert(t.drop_last() =~= items@.take(i as int));
            assert(t.last() == *it);
        }
        i = i + 1;
    }
    assert(items@.take(i as int) =~= items@);
    s
}

/// A finding as the whole-workspace detector reports it: an absolute
/// file path and a 0-based line.
#[derive(Debug)]
pub struct HirUnusedItem {
    /// Absolute path with `/` separators.
    pub file: String,
    /// 0-based line of the declaration.
    pub line: u32,
    /// Item name.
    pub name: String,
    /// Item kind.
    pub kind: String,
    /// Containing scope, if any.
    pub parent: Option<String>,
}

/// `s` without its leading `/`s.
pub open spec fn skip_slashes(s: Seq<char>) -> Seq<char>
    decreases s.len(),
{
    if s.len() > 0 && s[0] == '/' {
        skip_slashes(s.drop_first())
    } else {
        s
    }
}

/// A path made workspace-relative: under the workspace prefix, the rest
/// without leading `/`s; otherwise the path as it is.
pub open spec fn relative_to(file: Seq<char>, prefix: Seq<char>) -> Seq<char> {
    if is_prefix(prefix, file) {
        skip_slashes(file.skip(prefix.len() as int))
    } else {
        file
    }
}

/// `v[from..]` without its leading `/`s, as a string.
fn rest_without_slashes(v: &Vec<char>, from: usize) -> (s: String)
    requires
        from <= v@.len(),
    ensures
        s@ == skip_slashes(v@.skip(from as int)),
{
    let mut k: usize = from;
    while k < v.len() && v[k] == '/'
        invariant
            from <= k <= v@.len(),
            skip_slashes(v@.skip(from as int)) == skip_slashes(v@.skip(k as int)),
        decreases v@.len() - k,
    {
        assert(v@.skip(k as int).drop_first() =~= v@.skip(k + 1));
        k = k + 1;
    }
    let mut s = String::new();
    let mut j: usize = k;
    while j < v.len()
        invariant
            k <= j <= v@.len(),
            s@ == v@.subrange(k as int, j as int),
        decreases v@.len() - j,
    {
        crate::text::push_char(&mut s, v[j]);
        j = j + 1;
        assert(s@ =~= v@.subrange(k as int, j as int));
    }
    assert(s@ =~= v@.skip(k as int));
    s
}

/// A path made workspace-relative, as [`relative_to`] defines it.
pub fn strip_workspace_prefix(file: &str, workspace_prefix: &str) -> (r: String)
    ensures
        r@ == relative_to(file@, workspace_prefix@),
{
    let v = chars_of(file);
    let p = chars_of(workspace_prefix);
    if starts_with(v.as_slice(), p.as_slice()) {
        rest_without_slashes(&v, p.len())
    } else {
        owned(file)
    }
}

/// Turns a whole-workspace finding into a report finding: the file made
/// workspace-relative, the line made 1-based (saturating).
pub fn convert_hir_item(hir: HirUnusedItem, workspace_prefix: &str) -> (u: UnusedItem)
    ensures
        u.file@ == relative_to(hir.file@, workspace_prefix@),
        u.line == (if hir.line as int + 1 <= usize::MAX { hir.line as int + 1 } else { usize::MAX as int }),
        u.name == hir.name,
        u.kind == hir.kind,
        u.parent == hir.parent,
{
    let file = strip_workspace_prefix(hir.file.as_str(), workspace_prefix);
    let line = (hir.line as usize).saturating_add(1);
    UnusedItem { file, line, name: hir.name, kind: hir.kind, parent: hir.parent }
}

} // verus!
