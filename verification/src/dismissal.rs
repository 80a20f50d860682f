//! Dismissals — "this violation is fine, here's why".
//!
//! Two surfaces feed the same [`DismissalIndex`]: the sidecar file at the
//! workspace root and `rustics:dismiss <metric> reason="..."` lines in doc
//! comments. On a `(file, scope, metric)` collision the sidecar wins.
//!
//! A dismissal whose trimmed reason is shorter (in UTF-8 bytes) than the
//! configured minimum is *rejected*: it never suppresses a violation. A
//! valid dismissal that matched no live violation is *stale*.

use vstd::prelude::*;
use crate::text::{
    chars_of, is_prefix, is_whitespace, is_ws, owned, push_str, starts_with, str_eq, string_from, trim,
    trim_chars, trim_start, trim_start_chars, find_char, first_index, lemma_first_index,
};
use vstd::slice::slice_subrange;
use vstd::slice::slice_to_vec;

verus! {

/// One dismissal record.
#[derive(Debug)]
pub struct Dismissal {
    /// Workspace-relative file path with `/` separators.
    pub file: String,
    /// Scope path (`module::Type::method`).
    pub scope: String,
    /// Metric id (`cyclomatic-complexity`).
    pub metric: String,
    /// Free-form reason.
    pub reason: String,
    /// Author handle.
    pub by: Option<String>,
    /// ISO-8601 timestamp.
    pub at: Option<String>,
}

/// The sidecar file: `[[dismissals]]` entries in source order.
#[derive(Debug)]
pub struct DismissalsFile {
    /// Entries in source order.
    pub dismissals: Vec<Dismissal>,
}

/// Configuration knobs for dismissal validation.
#[derive(Debug, Clone, Copy)]
pub struct DismissalRules {
    /// Reject dismissals whose reason is below the minimum length.
    pub require_reason: bool,
    /// Minimum acceptable reason length, in UTF-8 bytes, after trimming.
    pub min_reason_length: usize,
    /// Report valid entries that matched no live violation.
    pub warn_stale: bool,
}

/// Default for `require_reason`.
pub fn default_require_reason() -> (b: bool)
    ensures
        b,
{
    true
}

/// Default for `min_reason_length`.
pub fn default_min_reason_length() -> (n: usize)
    ensures
        n == 20,
{
    20
}

/// Default for `warn_stale`.
pub fn default_warn_stale() -> (b: bool)
    ensures
        b,
{
    true
}

impl Default for DismissalRules {
    fn default() -> (r: Self)
        ensures
            r.require_reason,
            r.min_reason_length == 20,
            r.warn_stale,
    {
        DismissalRules {
            require_reason: default_require_reason(),
            min_reason_length: default_min_reason_length(),
            warn_stale: default_warn_stale(),
        }
    }
}

impl Default for DismissalsFile {
    /// An empty sidecar (what a missing file reads as).
    fn default() -> (f: Self)
        ensures
            f.dismissals@.len() == 0,
    {
        DismissalsFile { dismissals: Vec::new() }
    }
}

// ----------------------------------------------------------------------
// Keys and reason length
// ----------------------------------------------------------------------

/// The `(file, scope, metric)` key that identifies the violation a
/// dismissal targets.
pub open spec fn key_of(d: Dismissal) -> (Seq<char>, Seq<char>, Seq<char>) {
    (d.file@, d.scope@, d.metric@)
}

/// Number of bytes of `c` in UTF-8.
pub open spec fn utf8_width(c: char) -> nat {
    let u = c as u32;
    if u < 0x80 {
        1
    } else if u < 0x800 {
        2
    } else if u < 0x10000 {
        3
    } else {
        4
    }
}

/// Length of `s` in UTF-8 bytes (`str::len`).
pub open spec fn utf8_len(s: Seq<char>) -> nat
    decreases s.len(),
{
    if s.len() == 0 {
        0
    } else {
        utf8_len(s.drop_last()) + utf8_width(s.last())
    }
}

/// A dismissal is rejected when a reason is required and its trimmed
/// reason is shorter than the minimum.
pub open spec fn is_rejected(reason: Seq<char>, rules: DismissalRules) -> bool {
    rules.require_reason && utf8_len(trim(reason)) < rules.min_reason_length
}

/// `str::len` of the characters in `s`, saturating at `usize::MAX`.
fn utf8_len_exec(s: &[char]) -> (n: usize)
    ensures
        n == (if utf8_len(s@) <= usize::MAX {
            utf8_len(s@)
        } else {
            usize::MAX as nat
        }),
{
    let mut n: usize = 0;
    let mut i: usize = 0;
    let mut saturated = false;
    while i < s.len()
        invariant
            0 <= i <= s.len(),
            !saturated ==> n == utf8_len(s@.take(i as int)),
            saturated ==> n == usize::MAX && utf8_len(s@.take(i as int)) > usize::MAX,
        decreases s.len() - i,
    {
        let u = s[i] as u32;
        let w: usize = if u < 0x80 {
            1
        } else if u < 0x800 {
            2
        } else if u < 0x10000 {
            3
        } else {
            4
        };
        proof {
            assert(s@.take(i + 1).drop_last() =~= s@.take(i as int));
            assert(s@.take(i + 1).last() == s@[i as int]);
        }
        if !saturated {
            if n > usize::MAX - w {
                n = usize::MAX;
                saturated = true;
            } else {
                n = n + w;
            }
        }
        i = i + 1;
    }
    assert(s@.take(i as int) =~= s@);
    n
}

/// Whether a dismissal with this reason is rejected under `rules`.
pub fn reason_rejected(reason: &str, rules: &DismissalRules) -> (b: bool)
    ensures
        b == is_rejected(reason@, *rules),
{
    if !rules.require_reason {
        return false;
    }
    let chars = chars_of(reason);
    let t = trim_chars(chars.as_slice());
    let n = utf8_len_exec(t.as_slice());
    n < rules.min_reason_length
}

/// Copies a `String` with a proved result.
pub fn copy_string(s: &String) -> (r: String)
    ensures
        r@ == s@,
{
    owned(s.as_str())
}

/// Copies an optional `String`.
pub fn copy_opt(s: &Option<String>) -> (r: Option<String>)
    ensures
        match (s, r) {
            (Some(a), Some(b)) => a@ == b@,
            (None, None) => true,
            _ => false,
        },
{
    match s {
        Some(a) => Some(copy_string(a)),
        None => None,
    }
}

impl Dismissal {
    /// A field-by-field copy.
    pub fn duplicate(&self) -> (d: Dismissal)
        ensures
            key_of(d) == key_of(*self),
            d.reason@ == self.reason@,
            same_opt(d.by, self.by),
            same_opt(d.at, self.at),
    {
        Dismissal {
            file: copy_string(&self.file),
            scope: copy_string(&self.scope),
            metric: copy_string(&self.metric),
            reason: copy_string(&self.reason),
            by: copy_opt(&self.by),
            at: copy_opt(&self.at),
        }
    }
}

/// Two optional strings hold the same text.
pub open spec fn same_opt(a: Option<String>, b: Option<String>) -> bool {
    match (a, b) {
        (Some(x), Some(y)) => x@ == y@,
        (None, None) => true,
        _ => false,
    }
}

/// The key of `d` equals the given strings.
pub fn has_key(d: &Dismissal, file: &str, scope: &str, metric: &str) -> (b: bool)
    ensures
        b == (key_of(*d) == (file@, scope@, metric@)),
{
    str_eq(d.file.as_str(), file) && str_eq(d.scope.as_str(), scope) && str_eq(
        d.metric.as_str(),
        metric,
    )
}

// ----------------------------------------------------------------------
// The index
// ----------------------------------------------------------------------

/// Indexed dismissal set with hit-tracking for stale detection.
pub struct DismissalIndex<'a> {
    entries: Vec<DismissalEntry<'a>>,
    rules: DismissalRules,
    strict: bool,
}

/// One indexed dismissal.
pub struct DismissalEntry<'a> {
    dismissal: &'a Dismissal,
    valid: bool,
    rejection_reason: Option<&'static str>,
    used: bool,
}

/// Display row for the rejected-dismissals block.
pub struct DismissalRejection<'a> {
    /// The dismissal as written.
    pub dismissal: &'a Dismissal,
    /// One-line rejection reason.
    pub reason: &'static str,
}

/// Abstract state of one entry.
pub struct EntryView {
    /// The dismissal the entry refers to.
    pub dismissal: Dismissal,
    /// Whether it may suppress a violation.
    pub valid: bool,
    /// Whether it has suppressed one.
    pub used: bool,
}

impl<'a> DismissalEntry<'a> {
    /// Abstract state of the entry.
    pub closed spec fn view(&self) -> EntryView {
        EntryView { dismissal: *self.dismissal, valid: self.valid, used: self.used }
    }

    /// Classifies `d` under `rules`; a new entry is unused.
    pub fn new(d: &'a Dismissal, rules: &DismissalRules) -> (e: Self)
        ensures
            e.view().dismissal == *d,
            e.view().valid == !is_rejected(d.reason@, *rules),
            !e.view().used,
    {
        let rejected = reason_rejected(d.reason.as_str(), rules);
        let rejection: Option<&'static str> = if rejected {
            Some("reason too short")
        } else {
            None
        };
        DismissalEntry {
            dismissal: d,
            valid: rejection.is_none(),
            rejection_reason: rejection,
            used: false,
        }
    }

    /// The rejection text is present exactly for invalid entries, and
    /// only a valid entry is ever used.
    #[verifier::type_invariant]
    spec fn wf(self) -> bool {
        &&& (self.rejection_reason is Some) == !self.valid
        &&& (self.rejection_reason is Some ==> self.rejection_reason == Some(
            "reason too short",
        ))
        &&& (self.used ==> self.valid)
    }
}

impl<'a> DismissalIndex<'a> {
    /// Abstract state: every entry, in source order.
    pub closed spec fn entries_view(&self) -> Seq<EntryView> {
        self.entries@.map_values(|e: DismissalEntry<'a>| e.view())
    }

    /// The rules the index was built with.
    pub closed spec fn rules_view(&self) -> DismissalRules {
        self.rules
    }

    /// Whether strict mode (every dismissal ignored) is on.
    pub closed spec fn strict_view(&self) -> bool {
        self.strict
    }

    /// Builds an index from a sidecar file and the rules. Every entry
    /// starts unused; an entry is valid iff its reason is not rejected.
    pub fn new(file: &'a DismissalsFile, rules: DismissalRules, strict: bool) -> (idx: Self)
        ensures
            idx.rules_view() == rules,
            idx.strict_view() == strict,
            idx.entries_view().len() == file.dismissals@.len(),
            forall|i: int|
                0 <= i < file.dismissals@.len() ==> {
                    &&& (#[trigger] idx.entries_view()[i]).dismissal == file.dismissals@[i]
                    &&& idx.entries_view()[i].valid == !is_rejected(
                        file.dismissals@[i].reason@,
                        rules,
                    )
                    &&& !idx.entries_view()[i].used
                },
    {
        let mut entries: Vec<DismissalEntry<'a>> = Vec::new();
        let n = file.dismissals.len();
        let mut i: usize = 0;
        while i < n
            invariant
                n == file.dismissals@.len(),
                0 <= i <= n,
                entries@.len() == i,
                forall|k: int|
                    0 <= k < i ==> {
                        &&& (#[trigger] entries@[k]).view().dismissal == file.dismissals@[k]
                        &&& entries@[k].view().valid == !is_rejected(
                            file.dismissals@[k].reason@,
                            rules,
                        )
                        &&& !entries@[k].view().used
                    },
            decreases n - i,
        {
            let e = DismissalEntry::new(&file.dismissals[i], &rules);
            entries.push(e);
            i = i + 1;
        }
        DismissalIndex { entries, rules, strict }
    }
}

/// Entry `i` is the first valid entry whose key is `k`.
pub open spec fn first_valid_match(es: Seq<EntryView>, k: (Seq<char>, Seq<char>, Seq<char>), i: int) -> bool {
    &&& 0 <= i < es.len()
    &&& es[i].valid
    &&& key_of(es[i].dismissal) == k
    &&& forall|j: int| 0 <= j < i ==> !(#[trigger] es[j].valid && key_of(es[j].dismissal) == k)
}

/// Some valid entry has key `k`.
pub open spec fn any_valid_match(es: Seq<EntryView>, k: (Seq<char>, Seq<char>, Seq<char>)) -> bool {
    exists|i: int| 0 <= i < es.len() && #[trigger] es[i].valid && key_of(es[i].dismissal) == k
}

/// The dismissals of the rejected entries, in source order.
pub open spec fn rejected_list(es: Seq<EntryView>) -> Seq<Dismissal> {
    es.filter(|e: EntryView| !e.valid).map_values(|e: EntryView| e.dismissal)
}

/// The dismissals of the valid, unused entries, in source order (or none
/// when stale reporting is off).
pub open spec fn stale_list(es: Seq<EntryView>, warn_stale: bool) -> Seq<Dismissal> {
    if warn_stale {
        es.filter(|e: EntryView| e.valid && !e.used).map_values(|e: EntryView| e.dismissal)
    } else {
        Seq::empty()
    }
}

/// `e` with its hit flag set.
pub open spec fn mark_used(e: EntryView) -> EntryView {
    EntryView { dismissal: e.dismissal, valid: e.valid, used: true }
}

proof fn lemma_push_map<A, B>(s: Seq<A>, x: A, f: spec_fn(A) -> B)
    ensures
        s.push(x).map_values(f) == s.map_values(f).push(f(x)),
{
    assert(s.push(x).map_values(f) =~= s.map_values(f).push(f(x)));
}

impl<'a> DismissalIndex<'a> {
    /// Whether any *valid* dismissal matches the violation identified by
    /// `(file, scope, metric)`. The first such entry is marked as used.
    /// In strict mode nothing matches and nothing is marked.
    pub fn matches(&mut self, file: &str, scope: &str, metric: &str) -> (r: bool)
        ensures
            final(self).rules_view() == old(self).rules_view(),
            final(self).strict_view() == old(self).strict_view(),
            r == (!old(self).strict_view() && any_valid_match(
                old(self).entries_view(),
                (file@, scope@, metric@),
            )),
            !r ==> final(self).entries_view() == old(self).entries_view(),
            r ==> exists|i: int|
                first_valid_match(old(self).entries_view(), (file@, scope@, metric@), i)
                    && final(self).entries_view() == old(self).entries_view().update(
                    i,
                    mark_used(old(self).entries_view()[i]),
                ),
    {
        let ghost k = (file@, scope@, metric@);
        let ghost es = old(self).entries_view();
        if self.strict {
            return false;
        }
        let n = self.entries.len();
        let mut i: usize = 0;
        while i < n
            invariant
                n == self.entries@.len(),
                0 <= i <= n,
                *self == *old(self),
                !self.strict,
                k == (file@, scope@, metric@),
                es == self.entries_view(),
                es.len() == n,
                forall|j: int| 0 <= j < i ==> !(#[trigger] es[j].valid && key_of(es[j].dismissal) == k),
            decreases n - i,
        {
            let e = &self.entries[i];
            assert(es[i as int] == self.entries@[i as int].view());
            proof {
                use_type_invariant(e);
            }
            let hk = has_key(e.dismissal, file, scope, metric);
            assert(hk == (key_of(*e.dismissal) == k));
            if e.valid && hk {
                assert(*e == self.entries@[i as int]);
                assert(es[i as int].valid);
                assert(es[i as int].dismissal == *e.dismissal);
                assert(key_of(*e.dismissal) == k);
                assert(first_valid_match(es, k, i as int));
                assert(any_valid_match(es, k));
                let updated = DismissalEntry {
                    dismissal: e.dismissal,
                    valid: e.valid,
                    rejection_reason: e.rejection_reason,
                    used: true,
                };
                self.entries.set(i, updated);
                proof {
                    assert(self.entries_view() =~= es.update(i as int, mark_used(es[i as int])));
                }
                return true;
            }
            i = i + 1;
        }
        assert(!any_valid_match(es, k));
        false
    }

    /// Entries that were rejected (reason missing or too short), in source
    /// order, each with the text `reason too short`.
    pub fn rejected(&self) -> (out: Vec<DismissalRejection<'a>>)
        ensures
            out@.map_values(|r: DismissalRejection<'a>| *r.dismissal) == rejected_list(
                self.entries_view(),
            ),
            forall|i: int| 0 <= i < out@.len() ==> (#[trigger] out@[i]).reason@ == "reason too short"@,
    {
        let ghost es = self.entries_view();
        let ghost pred = |e: EntryView| !e.valid;
        let ghost f = |e: EntryView| e.dismissal;
        let mut out: Vec<DismissalRejection<'a>> = Vec::new();
        let n = self.entries.len();
        let mut i: usize = 0;
        while i < n
            invariant
                n == self.entries@.len(),
                0 <= i <= n,
                es == self.entries_view(),
                pred == (|e: EntryView| !e.valid),
                f == (|e: EntryView| e.dismissal),
                out@.map_values(|r: DismissalRejection<'a>| *r.dismissal) == es.take(i as int).filter(pred).map_values(f),
                forall|j: int| 0 <= j < out@.len() ==> (#[trigger] out@[j]).reason@ == "reason too short"@,
            decreases n - i,
        {
            let e = &self.entries[i];
            proof {
                assert(es.take(i + 1) =~= es.take(i as int).push(es[i as int]));
                es.take(i as int).lemma_filter_push(es[i as int], pred);
                assert(es[i as int] == self.entries@[i as int].view());
                use_type_invariant(e);
            }
            if let Some(r) = e.rejection_reason {
                let ghost before = out@;
                out.push(DismissalRejection { dismissal: e.dismissal, reason: r });
                proof {
                    lemma_push_map(before, out@.last(), |r: DismissalRejection<'a>| *r.dismissal);
                    lemma_push_map(es.take(i as int).filter(pred), es[i as int], f);
                    assert(out@ == before.push(out@.last()));
                }
            }
            i = i + 1;
        }
        assert(es.take(n as int) =~= es);
        out
    }

    /// Valid entries that matched no live violation, in source order;
    /// empty when stale reporting is off.
    pub fn stale(&self) -> (out: Vec<&'a Dismissal>)
        ensures
            out@.map_values(|d: &'a Dismissal| *d) == stale_list(
                self.entries_view(),
                self.rules_view().warn_stale,
            ),
    {
        let ghost es = self.entries_view();
        let ghost pred = |e: EntryView| e.valid && !e.used;
        let ghost f = |e: EntryView| e.dismissal;
        let mut out: Vec<&'a Dismissal> = Vec::new();
        if !self.rules.warn_stale {
            assert(out@.map_values(|d: &'a Dismissal| *d) =~= Seq::<Dismissal>::empty());
            return out;
        }
        let n = self.entries.len();
        let mut i: usize = 0;
        while i < n
            invariant
                n == self.entries@.len(),
                0 <= i <= n,
                es == self.entries_view(),
                pred == (|e: EntryView| e.valid && !e.used),
                f == (|e: EntryView| e.dismissal),
                out@.map_values(|d: &'a Dismissal| *d) == es.take(i as int).filter(pred).map_values(f),
            decreases n - i,
        {
            let e = &self.entries[i];
            proof {
                assert(es.take(i + 1) =~= es.take(i as int).push(es[i as int]));
                es.take(i as int).lemma_filter_push(es[i as int], pred);
                assert(es[i as int] == self.entries@[i as int].view());
            }
            if e.valid && !e.used {
                let ghost before = out@;
                out.push(e.dismissal);
                proof {
                    lemma_push_map(before, e.dismissal, |d: &'a Dismissal| *d);
                    lemma_push_map(es.take(i as int).filter(pred), es[i as int], f);
                }
            }
            i = i + 1;
        }
        assert(es.take(n as int) =~= es);
        out
    }
}

// ----------------------------------------------------------------------
// Sidecar / doc-comment merge
// ----------------------------------------------------------------------

/// Some entry of `s` has key `k`.
pub open spec fn key_in(s: Seq<Dismissal>, k: (Seq<char>, Seq<char>, Seq<char>)) -> bool {
    exists|i: int| 0 <= i < s.len() && key_of(#[trigger] s[i]) == k
}

/// The doc-comment entries whose key is not already in the sidecar.
pub open spec fn doc_only(sidecar: Seq<Dismissal>, docs: Seq<Dismissal>) -> Seq<Dismissal> {
    docs.filter(|d: Dismissal| !key_in(sidecar, key_of(d)))
}

/// Whether one of the first `n` entries of `v` has the key of `d`.
fn key_in_prefix(v: &Vec<Dismissal>, n: usize, d: &Dismissal) -> (b: bool)
    requires
        n <= v@.len(),
    ensures
        b == key_in(v@.take(n as int), key_of(*d)),
{
    let mut i: usize = 0;
    while i < n
        invariant
            n <= v@.len(),
            0 <= i <= n,
            forall|j: int| 0 <= j < i ==> key_of(#[trigger] v@[j]) != key_of(*d),
        decreases n - i,
    {
        if has_key(&v[i], d.file.as_str(), d.scope.as_str(), d.metric.as_str()) {
            assert(v@.take(n as int)[i as int] == v@[i as int]);
            return true;
        }
        i = i + 1;
    }
    assert forall|j: int| 0 <= j < n implies key_of(#[trigger] v@.take(n as int)[j]) != key_of(*d) by {
        assert(v@.take(n as int)[j] == v@[j]);
    }
    false
}

/// Combines sidecar dismissals with doc-comment ones. The sidecar entries
/// come first, unchanged; a doc-comment entry follows only when no sidecar
/// entry has its `(file, scope, metric)` key (the sidecar wins).
pub fn merge_with_sidecar(sidecar: DismissalsFile, doc_dismissals: Vec<Dismissal>) -> (merged: DismissalsFile)
    ensures
        merged.dismissals@ == sidecar.dismissals@ + doc_only(
            sidecar.dismissals@,
            doc_dismissals@,
        ),
{
    let ghost side = sidecar.dismissals@;
    let ghost docs = doc_dismissals@;
    let ghost pred = |d: Dismissal| !key_in(side, key_of(d));
    let mut out = sidecar.dismissals;
    let n0 = out.len();
    let mut rest = doc_dismissals;
    let ghost mut taken: int = 0;
    while rest.len() > 0
        invariant
            n0 == side.len(),
            pred == (|d: Dismissal| !key_in(side, key_of(d))),
            0 <= taken <= docs.len(),
            rest@ == docs.skip(taken),
            out@ == side + docs.take(taken).filter(pred),
        decreases rest@.len(),
    {
        let d = rest.remove(0);
        proof {
            assert(d == docs[taken]);
            assert(docs.take(taken + 1) =~= docs.take(taken).push(d));
            docs.take(taken).lemma_filter_push(d, pred);
            assert(out@.take(n0 as int) =~= side);
        }
        let dup = key_in_prefix(&out, n0, &d);
        if !dup {
            out.push(d);
            proof {
                assert(out@ =~= side + docs.take(taken + 1).filter(pred));
            }
        }
        proof {
            taken = taken + 1;
            assert(rest@ =~= docs.skip(taken));
        }
    }
    assert(docs.take(taken) =~= docs);
    DismissalsFile { dismissals: out }
}

// ----------------------------------------------------------------------
// Doc-comment directives
// ----------------------------------------------------------------------

/// The text that opens a directive line.
pub open spec fn directive_prefix() -> Seq<char> {
    "rustics:dismiss"@
}

/// The text that opens a reason clause.
pub open spec fn reason_prefix() -> Seq<char> {
    "reason=\""@
}

/// Position of the first whitespace character of `s`, if any.
pub open spec fn first_ws(s: Seq<char>) -> Option<nat>
    decreases s.len(),
{
    if s.len() == 0 {
        None
    } else if is_ws(s[0]) {
        Some(0)
    } else {
        match first_ws(s.drop_first()) {
            Some(i) => Some(i + 1),
            None => None,
        }
    }
}

/// `first_ws` finds exactly the first whitespace character.
pub proof fn lemma_first_ws_is(s: Seq<char>, i: int)
    requires
        0 <= i <= s.len(),
        forall|k: int| 0 <= k < i ==> !is_ws(#[trigger] s[k]),
        i == s.len() || is_ws(s[i]),
    ensures
        first_ws(s) == (if i == s.len() {
            None::<nat>
        } else {
            Some(i as nat)
        }),
    decreases i,
{
    if s.len() > 0 && i > 0 {
        let t = s.drop_first();
        assert forall|k: int| 0 <= k < i - 1 implies !is_ws(#[trigger] t[k]) by {
            assert(t[k] == s[k + 1]);
        }
        if i < s.len() {
            assert(t[i - 1] == s[i]);
        }
        assert(!is_ws(s[0]));
        lemma_first_ws_is(t, i - 1);
    }
}

/// The first whitespace-delimited token and what follows it; `None` when
/// there is no whitespace or the token is empty.
pub open spec fn first_token(s: Seq<char>) -> Option<(Seq<char>, Seq<char>)> {
    match first_ws(s) {
        Some(e) => if e == 0 {
            None
        } else {
            Some((s.take(e as int), s.skip(e as int)))
        },
        None => None,
    }
}

/// A metric id is non-empty kebab-case: `[a-z0-9-]+`.
pub open spec fn valid_metric_id(s: Seq<char>) -> bool {
    s.len() > 0 && forall|i: int| 0 <= i < s.len() ==> is_metric_char(#[trigger] s[i])
}

/// `[a-z0-9-]`.
pub open spec fn is_metric_char(c: char) -> bool {
    ('a' <= c && c <= 'z') || ('0' <= c && c <= '9') || c == '-'
}

/// The reason text of a `reason="<text>"` clause that nothing but
/// whitespace follows.
pub open spec fn reason_clause(rest: Seq<char>) -> Option<Seq<char>> {
    if is_prefix(reason_prefix(), rest) {
        let body = rest.skip(reason_prefix().len() as int);
        match first_index(body, '"') {
            Some(close) => if trim(body.skip(close as int + 1)).len() == 0 {
                Some(body.take(close as int))
            } else {
                None
            },
            None => None,
        }
    } else {
        None
    }
}

/// The `(metric, reason)` a doc-comment line carries, if it is a
/// well-formed directive.
pub open spec fn directive(line: Seq<char>) -> Option<(Seq<char>, Seq<char>)> {
    let t = trim(line);
    if is_prefix(directive_prefix(), t) {
        let s = trim_start(t.skip(directive_prefix().len() as int));
        match first_token(s) {
            Some((metric, rest)) => if valid_metric_id(metric) {
                match reason_clause(trim_start(rest)) {
                    Some(reason) => Some((metric, reason)),
                    None => None,
                }
            } else {
                None
            },
            None => None,
        }
    } else {
        None
    }
}

/// Whether `c` may appear in a metric id.
fn metric_char(c: char) -> (b: bool)
    ensures
        b == is_metric_char(c),
{
    ('a' <= c && c <= 'z') || ('0' <= c && c <= '9') || c == '-'
}

/// Non-empty and made of `[a-z0-9-]` only.
pub fn is_valid_metric_id(s: &str) -> (b: bool)
    ensures
        b == valid_metric_id(s@),
{
    let v = chars_of(s);
    valid_metric_id_chars(v.as_slice())
}

fn valid_metric_id_chars(v: &[char]) -> (b: bool)
    ensures
        b == valid_metric_id(v@),
{
    if v.len() == 0 {
        return false;
    }
    let mut i: usize = 0;
    while i < v.len()
        invariant
            0 <= i <= v.len(),
            forall|k: int| 0 <= k < i ==> is_metric_char(#[trigger] v@[k]),
        decreases v.len() - i,
    {
        if !metric_char(v[i]) {
            return false;
        }
        i = i + 1;
    }
    true
}

/// Splits off the first whitespace-delimited token.
pub fn split_first_token(s: &[char]) -> (r: Option<(Vec<char>, Vec<char>)>)
    ensures
        match (r, first_token(s@)) {
            (Some((a, b)), Some((x, y))) => a@ == x && b@ == y,
            (None, None) => true,
            _ => false,
        },
{
    let mut i: usize = 0;
    while i < s.len() && !is_whitespace(s[i])
        invariant
            0 <= i <= s.len(),
            forall|k: int| 0 <= k < i ==> !is_ws(#[trigger] s@[k]),
        decreases s.len() - i,
    {
        i = i + 1;
    }
    proof {
        lemma_first_ws_is(s@, i as int);
    }
    if i == s.len() || i == 0 {
        return None;
    }
    let head = slice_to_vec(slice_subrange(s, 0, i));
    let tail = slice_to_vec(slice_subrange(s, i, s.len()));
    assert(head@ =~= s@.take(i as int));
    assert(tail@ =~= s@.skip(i as int));
    Some((head, tail))
}

/// Pulls the reason out of `reason="<text>"`, requiring that only
/// whitespace follows the closing quote.
pub fn parse_reason_clause(rest: &[char]) -> (r: Option<Vec<char>>)
    ensures
        match (r, reason_clause(rest@)) {
            (Some(a), Some(x)) => a@ == x,
            (None, None) => true,
            _ => false,
        },
{
    let pre = chars_of("reason=\"");
    if !starts_with(rest, pre.as_slice()) {
        return None;
    }
    let body = slice_subrange(rest, pre.len(), rest.len());
    assert(body@ =~= rest@.skip(reason_prefix().len() as int));
    let close = match find_char(body, '"') {
        Some(c) => c,
        None => {
            return None;
        },
    };
    proof {
        lemma_first_index(body@, '"');
    }
    let after = slice_subrange(body, close + 1, body.len());
    assert(after@ =~= body@.skip(close + 1));
    let t = trim_chars(after);
    if t.len() != 0 {
        return None;
    }
    let reason = slice_to_vec(slice_subrange(body, 0, close));
    assert(reason@ =~= body@.take(close as int));
    Some(reason)
}

/// Parses one doc-comment line for `rustics:dismiss <metric-id>
/// reason="<text>"`. Lines that merely mention the directive in prose,
/// use a placeholder id, lack the reason clause, or carry anything but
/// whitespace after the closing quote give `None`.
pub fn parse_directive_line(line: &str) -> (r: Option<(String, String)>)
    ensures
        match (r, directive(line@)) {
            (Some((m, why)), Some((x, y))) => m@ == x && why@ == y,
            (None, None) => true,
            _ => false,
        },
{
    let chars = chars_of(line);
    let t = trim_chars(chars.as_slice());
    let pre = chars_of("rustics:dismiss");
    if !starts_with(t.as_slice(), pre.as_slice()) {
        return None;
    }
    let after = slice_subrange(t.as_slice(), pre.len(), t.len());
    assert(after@ =~= t@.skip(directive_prefix().len() as int));
    let s = trim_start_chars(after);
    let (metric, rest) = match split_first_token(s.as_slice()) {
        Some(p) => p,
        None => {
            return None;
        },
    };
    if !valid_metric_id_chars(metric.as_slice()) {
        return None;
    }
    let rest_t = trim_start_chars(rest.as_slice());
    let reason = match parse_reason_clause(rest_t.as_slice()) {
        Some(x) => x,
        None => {
            return None;
        },
    };
    Some((string_from(metric.as_slice()), string_from(reason.as_slice())))
}

// ----------------------------------------------------------------------
// Laws
// ----------------------------------------------------------------------

/// Rejected and stale dismissals are disjoint: an entry whose reason is
/// rejected is never reported stale, whatever has matched.
pub proof fn law_rejected_and_stale_disjoint(es: Seq<EntryView>, rules: DismissalRules, warn_stale: bool, d: Dismissal)
    requires
        forall|i: int|
            0 <= i < es.len() ==> (#[trigger] es[i]).valid == !is_rejected(
                es[i].dismissal.reason@,
                rules,
            ),
    ensures
        !(rejected_list(es).contains(d) && stale_list(es, warn_stale).contains(d)),
{
    let rp = |e: EntryView| !e.valid;
    let sp = |e: EntryView| e.valid && !e.used;
    let f = |e: EntryView| e.dismissal;
    if rejected_list(es).contains(d) && stale_list(es, warn_stale).contains(d) {
        let rl = es.filter(rp);
        let sl = es.filter(sp);
        let a = choose|a: int| 0 <= a < rl.map_values(f).len() && rl.map_values(f)[a] == d;
        assert(warn_stale);
        let b = choose|b: int| 0 <= b < sl.map_values(f).len() && sl.map_values(f)[b] == d;
        es.lemma_filter_pred(rp, a);
        es.lemma_filter_pred(sp, b);
        assert(rp(rl[a]));
        assert(sp(sl[b]));
        assert(rl[a].dismissal == d && sl[b].dismissal == d);
        assert(es.contains(rl[a])) by {
            es.lemma_filter_contains_rev(rp, rl[a]);
        }
        assert(es.contains(sl[b])) by {
            es.lemma_filter_contains_rev(sp, sl[b]);
        }
        let ia = choose|i: int| 0 <= i < es.len() && es[i] == rl[a];
        let ib = choose|i: int| 0 <= i < es.len() && es[i] == sl[b];
        assert(es[ia].valid == !is_rejected(d.reason@, rules));
        assert(es[ib].valid == !is_rejected(d.reason@, rules));
    }
}

/// The sidecar wins: the merged file starts with the sidecar unchanged,
/// and no entry after it has a key the sidecar already has.
pub proof fn law_sidecar_wins(sidecar: Seq<Dismissal>, docs: Seq<Dismissal>)
    ensures
        (sidecar + doc_only(sidecar, docs)).take(sidecar.len() as int) == sidecar,
        forall|i: int|
            sidecar.len() <= i < (sidecar + doc_only(sidecar, docs)).len() ==> !key_in(
                sidecar,
                key_of(#[trigger] (sidecar + doc_only(sidecar, docs))[i]),
            ),
{
    let pred = |d: Dismissal| !key_in(sidecar, key_of(d));
    let m = sidecar + doc_only(sidecar, docs);
    assert(m.take(sidecar.len() as int) =~= sidecar);
    assert forall|i: int| sidecar.len() <= i < m.len() implies !key_in(sidecar, key_of(
        #[trigger] m[i],
    )) by {
        docs.lemma_filter_pred(pred, i - sidecar.len());
        assert(m[i] == docs.filter(pred)[i - sidecar.len()]);
        assert(pred(docs.filter(pred)[i - sidecar.len()]));
    }
}

/// The warning printed for a rejected dismissal.
pub open spec fn rejected_line_text(r: Seq<char>, d: Dismissal) -> Seq<char> {
    "rustics: dismissal rejected ("@ + r + ") \u{2014} file="@ + d.file@ + " scope="@ + d.scope@ + " metric="@
        + d.metric@
}

/// Renders the warning for a rejected dismissal.
pub fn rejected_line(r: &DismissalRejection) -> (s: String)
    ensures
        s@ == rejected_line_text(r.reason@, *r.dismissal),
{
    let mut s = owned("rustics: dismissal rejected (");
    push_str(&mut s, r.reason);
    push_str(&mut s, ") \u{2014} file=");
    push_str(&mut s, r.dismissal.file.as_str());
    push_str(&mut s, " scope=");
    push_str(&mut s, r.dismissal.scope.as_str());
    push_str(&mut s, " metric=");
    push_str(&mut s, r.dismissal.metric.as_str());
    s
}

/// The warning printed for a stale dismissal.
pub open spec fn stale_line_text(d: Dismissal) -> Seq<char> {
    "rustics: stale dismissal \u{2014} file="@ + d.file@ + " scope="@ + d.scope@ + " metric="@ + d.metric@
}

/// Renders the warning for a stale dismissal.
pub fn stale_line(d: &Dismissal) -> (s: String)
    ensures
        s@ == stale_line_text(*d),
{
    let mut s = owned("rustics: stale dismissal \u{2014} file=");
    push_str(&mut s, d.file.as_str());
    push_str(&mut s, " scope=");
    push_str(&mut s, d.scope.as_str());
    push_str(&mut s, " metric=");
    push_str(&mut s, d.metric.as_str());
    s
}

} // verus!
