//! `cargo rustics unused --apply` — orphan deletion.
//!
//! Every finding is located in its file's syntax tree; its byte range
//! (leading attributes and doc comments included, plus one trailing
//! newline) is spliced out. Ranges of one file are coalesced first, so a
//! variant inside an enum that is itself deleted is not cut twice.
//!
//! Variants are comma-aware: a variant other than the last takes
//! `[start(self) .. start(next))`; the last takes
//! `[end(prev) .. end(self))` plus an immediately following comma. The
//! only variant of an enum is never removed.
//!
//! Files under `tests/` or an `integration_test` directory are skipped
//! unless test files are included.

use vstd::prelude::*;
use crate::items::{has_name, is_well_placed, item_views, name_is, well_placed, ItemKind, SourceItem};
use crate::syntax::{parse_items, parsed_items};
use crate::text::{chars_of, contains, decimal, has_sub, is_prefix, owned, push_decimal, push_str, starts_with, str_eq};
use vstd::string::StringSliceAdditionalSpecFns;
use vstd::utf8::is_char_boundary;
use super::UnusedItem;

verus! {

/// Tally of what one deletion run did.
#[derive(Debug, Clone, Copy, PartialEq, Eq, Structural)]
pub struct Outcome {
    /// Declarations whose source range was deleted.
    pub deleted: usize,
    /// Number of distinct files mutated.
    pub touched_files: usize,
    /// Items skipped because they live under test scaffolding.
    pub skipped_test_files: usize,
    /// Items the locator declined to remove (it would leave invalid or
    /// uninhabited Rust).
    pub skipped_unsupported: usize,
    /// Items the locator could not find in the freshly parsed source.
    pub not_found: usize,
}

impl Default for Outcome {
    fn default() -> (o: Self)
        ensures
            o.deleted == 0 && o.touched_files == 0 && o.skipped_test_files == 0
                && o.skipped_unsupported == 0 && o.not_found == 0,
    {
        Outcome {
            deleted: 0,
            touched_files: 0,
            skipped_test_files: 0,
            skipped_unsupported: 0,
            not_found: 0,
        }
    }
}

/// One summary line: `(<n> <what>)`, indented, when `n` is positive.
pub open spec fn count_line(n: usize, what: Seq<char>) -> Seq<char> {
    if n > 0 {
        "  ("@ + decimal(n as nat) + what + ")\n"@
    } else {
        Seq::empty()
    }
}

/// The summary printed after a deletion run: the headline, one line per
/// kind of skip that happened, and a hint to clean up imports when
/// anything was deleted.
pub open spec fn outcome_text(o: Outcome) -> Seq<char> {
    "rustics unused --apply: deleted "@ + decimal(o.deleted as nat) + " item(s) across "@ + decimal(
        o.touched_files as nat,
    ) + " file(s).\n"@ + count_line(
        o.skipped_test_files,
        " test-file declaration(s) skipped; pass --include-tests to delete"@,
    ) + count_line(
        o.skipped_unsupported,
        " declaration(s) refused — would leave invalid Rust (e.g. only variant in an enum)"@,
    ) + count_line(
        o.not_found,
        " declaration(s) not found in source — file may have changed since detect"@,
    ) + if o.deleted > 0 {
        "  Run `cargo fix --allow-staged` to clean up newly unused imports.\n"@
    } else {
        Seq::empty()
    }
}

fn push_count_line(s: &mut String, n: usize, what: &str)
    ensures
        final(s)@ == old(s)@ + count_line(n, what@),
{
    if n > 0 {
        push_str(s, "  (");
        push_decimal(s, n as u64);
        push_str(s, what);
        push_str(s, ")\n");
    }
}

/// The summary of a deletion run, as printed after `--apply`.
pub fn apply_outcome_text(o: &Outcome) -> (s: String)
    ensures
        s@ == outcome_text(*o),
{
    let mut s = owned("rustics unused --apply: deleted ");
    push_decimal(&mut s, o.deleted as u64);
    push_str(&mut s, " item(s) across ");
    push_decimal(&mut s, o.touched_files as u64);
    push_str(&mut s, " file(s).\n");
    push_count_line(
        &mut s,
        o.skipped_test_files,
        " test-file declaration(s) skipped; pass --include-tests to delete",
    );
    push_count_line(
        &mut s,
        o.skipped_unsupported,
        " declaration(s) refused — would leave invalid Rust (e.g. only variant in an enum)",
    );
    push_count_line(
        &mut s,
        o.not_found,
        " declaration(s) not found in source — file may have changed since detect",
    );
    if o.deleted > 0 {
        push_str(&mut s, "  Run `cargo fix --allow-staged` to clean up newly unused imports.\n");
    }
    s
}

/// Test scaffolding: a path under `tests/` (at the root or in a crate)
/// or under an `integration_test` directory.
pub open spec fn is_test_path_spec(rel: Seq<char>) -> bool {
    is_prefix("tests/"@, rel) || has_sub(rel, "/tests/"@) || has_sub(rel, "/integration_test/"@)
        || is_prefix("integration_test/"@, rel)
}

/// Whether `rel` is test scaffolding.
pub fn is_test_path(rel: &str) -> (b: bool)
    ensures
        b == is_test_path_spec(rel@),
{
    let r = chars_of(rel);
    let t1 = chars_of("tests/");
    let t2 = chars_of("/tests/");
    let t3 = chars_of("/integration_test/");
    let t4 = chars_of("integration_test/");
    starts_with(r.as_slice(), t1.as_slice()) || contains(r.as_slice(), t2.as_slice()) || contains(
        r.as_slice(),
        t3.as_slice(),
    ) || starts_with(r.as_slice(), t4.as_slice())
}

/// `end`, moved past the byte at `end` when that byte is `b`.
pub open spec fn extend_past(bytes: Seq<u8>, end: int, b: u8) -> int {
    if 0 <= end < bytes.len() && bytes[end] == b {
        end + 1
    } else {
        end
    }
}

/// If `end` lands directly on a `,` byte, consumes it; whitespace is not
/// skipped.
pub fn extend_through_immediate_comma(end: usize, source: &str) -> (r: usize)
    ensures
        r == extend_past(source.spec_bytes(), end as int, 44u8),
{
    let bytes = source.as_bytes();
    if end < bytes.len() && bytes[end] == 44u8 {
        end + 1
    } else {
        end
    }
}

/// If `end` lands directly on a `\n` byte, consumes it, so a deletion
/// does not leave a blank line behind.
pub fn consume_trailing_newline(end: usize, source: &str) -> (r: usize)
    ensures
        r == extend_past(source.spec_bytes(), end as int, 10u8),
{
    let bytes = source.as_bytes();
    if end < bytes.len() && bytes[end] == 10u8 {
        end + 1
    } else {
        end
    }
}

/// Number of `\n` bytes in `bytes`.
pub open spec fn count_newlines(bytes: Seq<u8>) -> nat
    decreases bytes.len(),
{
    if bytes.len() == 0 {
        0
    } else {
        count_newlines(bytes.drop_last()) + if bytes.last() == 10u8 {
            1nat
        } else {
            0nat
        }
    }
}

/// The 1-based line on which byte `offset` lies: one more than the
/// newlines before it, or 1 when `offset` is not a character boundary of
/// the source.
pub open spec fn line_at(bytes: Seq<u8>, offset: int) -> nat {
    if is_char_boundary(bytes, offset) {
        count_newlines(bytes.take(offset)) + 1
    } else {
        1
    }
}

/// The 1-based line of byte `offset` of `source`.
pub fn line_of(source: &str, offset: usize) -> (line: usize)
    requires
        source.spec_bytes().len() < usize::MAX,
    ensures
        line == line_at(source.spec_bytes(), offset as int),
{
    if !source.is_char_boundary(offset) {
        return 1;
    }
    let bytes = source.as_bytes();
    let ghost bs = source.spec_bytes();
    proof {
        vstd::utf8::encode_utf8_valid_utf8(source@);
        assert(offset <= bs.len());
    }
    let mut n: usize = 0;
    let mut i: usize = 0;
    assert(bs.take(0) =~= Seq::<u8>::empty());
    while i < offset
        invariant
            i <= offset,
            offset <= bs.len(),
            bytes@ == bs,
            bs.len() < usize::MAX,
            n == count_newlines(bs.take(i as int)),
            n <= i,
        decreases offset - i,
    {
        proof {
            let t = bs.take(i + 1);
            assert(t.drop_last() =~= bs.take(i as int));
        }
        if bytes[i] == 10u8 {
            n = n + 1;
        }
        i = i + 1;
    }
    n + 1
}

// ----------------------------------------------------------------------
// Coalescing ranges
// ----------------------------------------------------------------------

/// `sorted` with `x` inserted after every range that does not start
/// after it.
pub open spec fn insert_by_start(sorted: Seq<(usize, usize)>, x: (usize, usize)) -> Seq<(usize, usize)>
    decreases sorted.len(),
{
    if sorted.len() == 0 {
        seq![x]
    } else if x.0 < sorted.last().0 {
        insert_by_start(sorted.drop_last(), x).push(sorted.last())
    } else {
        sorted.push(x)
    }
}

/// The stable sort of ranges by start (`sort_by_key(|r| r.0)`).
pub open spec fn sort_by_start(s: Seq<(usize, usize)>) -> Seq<(usize, usize)>
    decreases s.len(),
{
    if s.len() == 0 {
        Seq::empty()
    } else {
        insert_by_start(sort_by_start(s.drop_last()), s.last())
    }
}

/// One step of the sweep: a range starting inside the current one
/// extends it, any other closes it and becomes current.
pub open spec fn merge_step(st: (Seq<(usize, usize)>, (usize, usize)), next: (usize, usize)) -> (
    Seq<(usize, usize)>,
    (usize, usize),
) {
    let (out, cur) = st;
    if next.0 < cur.1 {
        (out, (cur.0, if next.1 > cur.1 { next.1 } else { cur.1 }))
    } else {
        (out.push(cur), next)
    }
}

/// The sweep state after the first `n` ranges of `s` (`n >= 1`).
pub open spec fn merge_from(s: Seq<(usize, usize)>, n: int) -> (Seq<(usize, usize)>, (usize, usize))
    decreases n,
{
    if n <= 1 {
        (Seq::empty(), s[0])
    } else {
        merge_step(merge_from(s, n - 1), s[n - 1])
    }
}

/// The coalesced ranges of a list sorted by start.
pub open spec fn merge_sorted(s: Seq<(usize, usize)>) -> Seq<(usize, usize)> {
    if s.len() == 0 {
        Seq::empty()
    } else {
        let st = merge_from(s, s.len() as int);
        st.0.push(st.1)
    }
}

/// What [`merge_ranges`] returns.
pub open spec fn merge_ranges_spec(input: Seq<(usize, usize)>) -> Seq<(usize, usize)> {
    merge_sorted(sort_by_start(input))
}

proof fn lemma_insert_start_at(s: Seq<(usize, usize)>, x: (usize, usize), j: int)
    requires
        0 <= j <= s.len(),
        forall|k: int| j <= k < s.len() ==> x.0 < #[trigger] s[k].0,
        j == 0 || !(x.0 < s[j - 1].0),
    ensures
        insert_by_start(s, x) == s.insert(j, x),
    decreases s.len(),
{
    if s.len() == 0 {
        assert(s.insert(j, x) =~= seq![x]);
    } else if j == s.len() {
        assert(s.insert(j, x) =~= s.push(x));
    } else {
        lemma_insert_start_at(s.drop_last(), x, j);
        assert(s.insert(j, x) =~= s.drop_last().insert(j, x).push(s.last()));
    }
}

/// Sorts ranges by start, keeping the order of ranges with equal starts.
fn sort_ranges(input: &Vec<(usize, usize)>) -> (v: Vec<(usize, usize)>)
    ensures
        v@ == sort_by_start(input@),
{
    let mut v: Vec<(usize, usize)> = Vec::new();
    let mut i: usize = 0;
    while i < input.len()
        invariant
            0 <= i <= input@.len(),
            v@ == sort_by_start(input@.take(i as int)),
        decreases input@.len() - i,
    {
        let x = input[i];
        proof {
            let t = input@.take(i + 1);
            assert(t.drop_last() =~= input@.take(i as int));
            assert(t.last() == x);
        }
        let ghost s = v@;
        let mut j: usize = v.len();
        while j > 0 && x.0 < v[j - 1].0
            invariant
                0 <= j <= s.len(),
                v@ == s,
                forall|k: int| j <= k < s.len() ==> x.0 < #[trigger] s[k].0,
            decreases j,
        {
            j = j - 1;
        }
        proof {
            lemma_insert_start_at(s, x, j as int);
        }
        v.insert(j, x);
        i = i + 1;
    }
    assert(input@.take(i as int) =~= input@);
    v
}

/// Coalesces overlapping or nested byte ranges: sorted by start, a range
/// that starts before the current one ends is folded into it. The
/// result is ordered and non-overlapping, and covers exactly the bytes
/// the input covers.
pub fn merge_ranges(input: Vec<(usize, usize)>) -> (out: Vec<(usize, usize)>)
    ensures
        out@ == merge_ranges_spec(input@),
{
    if input.len() == 0 {
        return input;
    }
    let sorted = sort_ranges(&input);
    let ghost ss = sorted@;
    proof {
        lemma_sort_len(input@);
    }
    let mut out: Vec<(usize, usize)> = Vec::new();
    let mut current = sorted[0];
    let mut i: usize = 1;
    assert(merge_from(ss, 1) == (out@, current));
    while i < sorted.len()
        invariant
            1 <= i <= ss.len(),
            ss == sorted@,
            merge_from(ss, i as int) == (out@, current),
        decreases ss.len() - i,
    {
        let next = sorted[i];
        if next.0 < current.1 {
            if next.1 > current.1 {
                current.1 = next.1;
            }
        } else {
            out.push(current);
            current = next;
        }
        i = i + 1;
    }
    out.push(current);
    out
}

/// Sorting keeps the length.
proof fn lemma_insert_len(s: Seq<(usize, usize)>, x: (usize, usize))
    ensures
        insert_by_start(s, x).len() == s.len() + 1,
    decreases s.len(),
{
    if s.len() > 0 && x.0 < s.last().0 {
        lemma_insert_len(s.drop_last(), x);
    }
}

/// Sorting keeps the length.
proof fn lemma_sort_len(s: Seq<(usize, usize)>)
    ensures
        sort_by_start(s).len() == s.len(),
    decreases s.len(),
{
    if s.len() > 0 {
        lemma_sort_len(s.drop_last());
        lemma_insert_len(sort_by_start(s.drop_last()), s.last());
    }
}

/// Some range of `s` covers byte `x`.
pub open spec fn covered(s: Seq<(usize, usize)>, x: int) -> bool {
    exists|i: int| 0 <= i < s.len() && (#[trigger] s[i]).0 <= x < s[i].1
}

/// Starts never decrease along `s`.
pub open spec fn starts_sorted(s: Seq<(usize, usize)>) -> bool {
    forall|i: int, j: int| 0 <= i <= j < s.len() ==> (#[trigger] s[i]).0 <= (#[trigger] s[j]).0
}

proof fn lemma_covered_push(s: Seq<(usize, usize)>, r: (usize, usize), x: int)
    ensures
        covered(s.push(r), x) <==> (covered(s, x) || (r.0 <= x < r.1)),
{
    if covered(s, x) {
        let i = choose|i: int| 0 <= i < s.len() && (#[trigger] s[i]).0 <= x < s[i].1;
        assert(s.push(r)[i] == s[i]);
    }
    if r.0 <= x < r.1 {
        assert(s.push(r)[s.len() as int] == r);
    }
    if covered(s.push(r), x) {
        let i = choose|i: int| 0 <= i < s.len() + 1 && (#[trigger] s.push(r)[i]).0 <= x < s.push(r)[i].1;
        if i < s.len() {
            assert(s[i] == s.push(r)[i]);
        }
    }
}

/// Inserting by start keeps the starts sorted and adds exactly `x`.
proof fn lemma_insert_start_props(s: Seq<(usize, usize)>, x: (usize, usize))
    requires
        starts_sorted(s),
    ensures
        starts_sorted(insert_by_start(s, x)),
        forall|r: (usize, usize)| insert_by_start(s, x).contains(r) <==> (s.contains(r) || r == x),
    decreases s.len(),
{
    let t = insert_by_start(s, x);
    if s.len() == 0 {
        assert(t =~= seq![x]);
        assert forall|r: (usize, usize)| t.contains(r) <==> (s.contains(r) || r == x) by {
            if r == x {
                assert(t[0] == x);
            }
        }
    } else if x.0 < s.last().0 {
        let init = s.drop_last();
        assert(starts_sorted(init)) by {
            assert forall|i: int, j: int| 0 <= i <= j < init.len() implies (#[trigger] init[i]).0
                <= (#[trigger] init[j]).0 by {
                assert(init[i] == s[i] && init[j] == s[j]);
            }
        }
        lemma_insert_start_props(init, x);
        let u = insert_by_start(init, x);
        lemma_insert_len(init, x);
        assert(t == u.push(s.last()));
        assert forall|i: int, j: int| 0 <= i <= j < t.len() implies (#[trigger] t[i]).0 <= (
        #[trigger] t[j]).0 by {
            if j == t.len() - 1 && i < j {
                assert(t[i] == u[i]);
                assert(u.contains(u[i]));
                if u[i] == x {
                } else {
                    assert(init.contains(u[i]));
                    let k = choose|k: int| 0 <= k < init.len() && init[k] == u[i];
                    assert(s[k] == init[k]);
                    assert(s[k].0 <= s[s.len() - 1].0);
                }
            } else if j < t.len() - 1 {
                assert(t[i] == u[i] && t[j] == u[j]);
            }
        }
        assert forall|r: (usize, usize)| t.contains(r) <==> (s.contains(r) || r == x) by {
            lemma_push_contains_pair(u, s.last(), r);
            lemma_push_contains_pair(init, s.last(), r);
            assert(init.push(s.last()) =~= s);
        }
    } else {
        assert(t == s.push(x));
        assert forall|i: int, j: int| 0 <= i <= j < t.len() implies (#[trigger] t[i]).0 <= (
        #[trigger] t[j]).0 by {
            if j == t.len() - 1 && i < j {
                assert(t[i] == s[i]);
                assert(s[i].0 <= s[s.len() - 1].0);
            } else if j < t.len() - 1 {
                assert(t[i] == s[i] && t[j] == s[j]);
            }
        }
        assert forall|r: (usize, usize)| t.contains(r) <==> (s.contains(r) || r == x) by {
            lemma_push_contains_pair(s, x, r);
        }
    }
}

proof fn lemma_push_contains_pair(s: Seq<(usize, usize)>, x: (usize, usize), a: (usize, usize))
    ensures
        s.push(x).contains(a) == (s.contains(a) || a == x),
{
    if s.contains(a) {
        let k = choose|k: int| 0 <= k < s.len() && s[k] == a;
        assert(s.push(x)[k] == a);
    }
    if a == x {
        assert(s.push(x)[s.len() as int] == a);
    }
    if s.push(x).contains(a) {
        let k = choose|k: int| 0 <= k < s.len() + 1 && s.push(x)[k] == a;
        if k < s.len() {
            assert(s[k] == a);
        }
    }
}

/// Sorting by start orders the starts and keeps the same ranges.
proof fn lemma_sort_props(s: Seq<(usize, usize)>)
    ensures
        starts_sorted(sort_by_start(s)),
        forall|r: (usize, usize)| sort_by_start(s).contains(r) <==> s.contains(r),
    decreases s.len(),
{
    if s.len() > 0 {
        lemma_sort_props(s.drop_last());
        lemma_insert_start_props(sort_by_start(s.drop_last()), s.last());
        assert forall|r: (usize, usize)| sort_by_start(s).contains(r) <==> s.contains(r) by {
            lemma_push_contains_pair(s.drop_last(), s.last(), r);
            assert(s.drop_last().push(s.last()) =~= s);
        }
    }
}

/// What the sweep keeps true after each range of a start-sorted list.
proof fn lemma_merge_invariant(s: Seq<(usize, usize)>, n: int)
    requires
        starts_sorted(s),
        1 <= n <= s.len(),
    ensures
        ({
            let st = merge_from(s, n);
            &&& forall|i: int| 0 <= i < st.0.len() - 1 ==> (#[trigger] st.0[i]).1 <= st.0[i + 1].0
            &&& st.0.len() > 0 ==> st.0.last().1 <= st.1.0
            &&& starts_sorted(st.0)
            &&& st.0.len() > 0 ==> st.0.last().0 <= st.1.0
            &&& exists|k: int| 0 <= k < n && st.1.0 == (#[trigger] s[k]).0
            &&& forall|x: int| covered(st.0.push(st.1), x) <==> covered(s.take(n), x)
        }),
    decreases n,
{
    if n == 1 {
        let st = merge_from(s, 1);
        assert(st.1.0 == s[0].0);
        assert forall|x: int| covered(st.0.push(st.1), x) <==> covered(s.take(1), x) by {
            assert(st.0.push(st.1) =~= s.take(1));
        }
    } else {
        lemma_merge_invariant(s, n - 1);
        let prev = merge_from(s, n - 1);
        let (out, cur) = prev;
        let next = s[n - 1];
        let st = merge_from(s, n);
        let k = choose|k: int| 0 <= k < n - 1 && cur.0 == (#[trigger] s[k]).0;
        assert(cur.0 <= next.0);
        assert(s.take(n) =~= s.take(n - 1).push(next));
        if next.0 < cur.1 {
            let cur2 = (cur.0, if next.1 > cur.1 { next.1 } else { cur.1 });
            assert(st == (out, cur2));
            assert forall|x: int| covered(st.0.push(st.1), x) <==> covered(s.take(n), x) by {
                lemma_covered_push(out, cur2, x);
                lemma_covered_push(out, cur, x);
                lemma_covered_push(s.take(n - 1), next, x);
            }
        } else {
            assert(st == (out.push(cur), next));
            assert(s[n - 1] == next);
            assert(starts_sorted(st.0)) by {
                assert forall|i: int, j: int| 0 <= i <= j < st.0.len() implies (#[trigger] st.0[i]).0 <= (
                #[trigger] st.0[j]).0 by {
                    if j < out.len() {
                        assert(st.0[i] == out[i] && st.0[j] == out[j]);
                    } else if i < out.len() {
                        assert(st.0[i] == out[i]);
                        assert(out.last().0 <= cur.0);
                        assert(out[i].0 <= out.last().0);
                    }
                }
            }
            assert forall|i: int| 0 <= i < st.0.len() - 1 implies (#[trigger] st.0[i]).1 <= st.0[i
                + 1].0 by {
                if i < out.len() - 1 {
                    assert(st.0[i] == out[i] && st.0[i + 1] == out[i + 1]);
                } else {
                    assert(st.0[i] == out.last());
                    assert(st.0[i + 1] == cur);
                }
            }
            assert forall|x: int| covered(st.0.push(st.1), x) <==> covered(s.take(n), x) by {
                lemma_covered_push(out.push(cur), next, x);
                lemma_covered_push(out, cur, x);
                lemma_covered_push(s.take(n - 1), next, x);
            }
        }
    }
}

/// The coalesced ranges are in order and never overlap: their starts
/// never decrease, and each ends no later than the next one starts.
pub proof fn law_merge_ranges_disjoint(input: Seq<(usize, usize)>)
    ensures
        starts_sorted(merge_ranges_spec(input)),
        forall|i: int|
            0 <= i < merge_ranges_spec(input).len() - 1 ==> (#[trigger] merge_ranges_spec(
                input,
            )[i]).1 <= merge_ranges_spec(input)[i + 1].0,
{
    let s = sort_by_start(input);
    lemma_sort_props(input);
    lemma_sort_len(input);
    if s.len() > 0 {
        lemma_merge_invariant(s, s.len() as int);
        let st = merge_from(s, s.len() as int);
        let out = st.0.push(st.1);
        assert forall|i: int, j: int| 0 <= i <= j < out.len() implies (#[trigger] out[i]).0 <= (#[trigger] out[j]).0 by {
            if j < st.0.len() {
                assert(out[i] == st.0[i] && out[j] == st.0[j]);
            } else if i < st.0.len() {
                assert(out[i] == st.0[i]);
                assert(st.0[i].0 <= st.0.last().0);
            }
        }
        assert forall|i: int| 0 <= i < out.len() - 1 implies (#[trigger] out[i]).1 <= out[i + 1].0 by {
            if i < st.0.len() - 1 {
                assert(out[i] == st.0[i] && out[i + 1] == st.0[i + 1]);
            } else {
                assert(out[i] == st.0.last());
            }
        }
    }
}

/// Coalescing neither loses nor adds a byte: a byte is covered by some
/// coalesced range exactly when some input range covers it.
pub proof fn law_merge_ranges_coverage(input: Seq<(usize, usize)>, x: int)
    ensures
        covered(merge_ranges_spec(input), x) <==> covered(input, x),
{
    let s = sort_by_start(input);
    lemma_sort_props(input);
    lemma_sort_len(input);
    if s.len() > 0 {
        lemma_merge_invariant(s, s.len() as int);
        assert(s.take(s.len() as int) =~= s);
    }
    if covered(input, x) {
        let i = choose|i: int| 0 <= i < input.len() && (#[trigger] input[i]).0 <= x < input[i].1;
        assert(input.contains(input[i]));
        assert(s.contains(input[i]));
        let j = choose|j: int| 0 <= j < s.len() && s[j] == input[i];
        assert(covered(s, x));
    }
    if covered(s, x) {
        let j = choose|j: int| 0 <= j < s.len() && (#[trigger] s[j]).0 <= x < s[j].1;
        assert(s.contains(s[j]));
        assert(input.contains(s[j]));
        let i = choose|i: int| 0 <= i < input.len() && input[i] == s[j];
        assert(covered(input, x));
    }
}

// ----------------------------------------------------------------------
// Locating declarations
// ----------------------------------------------------------------------

/// Outcome of one declaration's locator pass.
#[derive(Debug, Clone, Copy, PartialEq, Eq, Structural)]
pub enum LocatorResult {
    /// Byte range to splice out: first byte and one past the last.
    Resolved(usize, usize),
    /// The locator declined to remove it (would leave an uninhabited
    /// enum).
    Unsupported,
    /// The declaration is not in the freshly parsed source.
    NotFound,
}

/// The item is named `name` and its name lies on `line`.
pub open spec fn named_on_line(it: SourceItem, name: Seq<char>, line: usize, bytes: Seq<u8>) -> bool {
    has_name(it, name) && line_at(bytes, it.name_start as int) == line
}

/// The range deleted for a whole declaration: its node plus one trailing
/// newline.
pub open spec fn item_range(it: SourceItem, bytes: Seq<u8>) -> (usize, usize) {
    (it.start, extend_past(bytes, it.end as int, 10u8) as usize)
}

/// The deletion range of a declaration node.
pub fn item_byte_range(it: &SourceItem, source: &str) -> (r: (usize, usize))
    ensures
        r == item_range(*it, source.spec_bytes()),
{
    (it.start, consume_trailing_newline(it.end, source))
}

/// The comma-aware range of variant `idx` among `variants`: up to the
/// next variant's start, or, for the last, from the previous variant's
/// end through an immediately following comma.
pub open spec fn variant_range(variants: Seq<SourceItem>, idx: int, bytes: Seq<u8>) -> (usize, usize) {
    if idx + 1 < variants.len() {
        (variants[idx].start, variants[idx + 1].start)
    } else {
        (variants[idx - 1].end, extend_past(bytes, variants[idx].end as int, 44u8) as usize)
    }
}

/// Comma-aware splice range for one variant of an enum with at least two.
pub fn variant_byte_range(variants: &[SourceItem], idx: usize, source: &str) -> (r: (usize, usize))
    requires
        idx < variants@.len(),
        variants@.len() >= 2,
    ensures
        r == variant_range(variants@, idx as int, source.spec_bytes()),
{
    if idx < variants.len() - 1 {
        return (variants[idx].start, variants[idx + 1].start);
    }
    let start = variants[idx - 1].end;
    let end = extend_through_immediate_comma(variants[idx].end, source);
    (start, end)
}

/// Position of the first of `items` of kind `kind` named `name` with its
/// name on `line`.
pub open spec fn first_member(
    items: Seq<SourceItem>,
    kind: ItemKind,
    name: Seq<char>,
    line: usize,
    bytes: Seq<u8>,
) -> Option<int>
    decreases items.len(),
{
    if items.len() == 0 {
        None
    } else if items[0].kind == kind && named_on_line(items[0], name, line, bytes) {
        Some(0)
    } else {
        match first_member(items.drop_first(), kind, name, line, bytes) {
            Some(i) => Some(i + 1),
            None => None,
        }
    }
}

proof fn lemma_first_member_at(
    items: Seq<SourceItem>,
    kind: ItemKind,
    name: Seq<char>,
    line: usize,
    bytes: Seq<u8>,
    i: int,
)
    requires
        0 <= i <= items.len(),
        forall|k: int|
            0 <= k < i ==> !((#[trigger] items[k]).kind == kind && named_on_line(
                items[k],
                name,
                line,
                bytes,
            )),
    ensures
        i < items.len() && items[i].kind == kind && named_on_line(items[i], name, line, bytes)
            ==> first_member(items, kind, name, line, bytes) == Some(i),
        i == items.len() ==> first_member(items, kind, name, line, bytes) == None::<int>,
    decreases i,
{
    if i > 0 {
        let t = items.drop_first();
        assert forall|k: int| 0 <= k < i - 1 implies !((#[trigger] t[k]).kind == kind && named_on_line(
            t[k],
            name,
            line,
            bytes,
        )) by {
            assert(t[k] == items[k + 1]);
        }
        lemma_first_member_at(t, kind, name, line, bytes, i - 1);
    }
}

proof fn lemma_first_member_bound(
    items: Seq<SourceItem>,
    kind: ItemKind,
    name: Seq<char>,
    line: usize,
    bytes: Seq<u8>,
)
    ensures
        match first_member(items, kind, name, line, bytes) {
            Some(i) => 0 <= i < items.len(),
            None => true,
        },
    decreases items.len(),
{
    if items.len() > 0 {
        lemma_first_member_bound(items.drop_first(), kind, name, line, bytes);
    }
}

/// Finds the first of `items` of kind `kind` named `name` on `line`.
fn find_member(items: &Vec<SourceItem>, kind: ItemKind, name: &str, line: usize, source: &str) -> (r:
    Option<usize>)
    requires
        source.spec_bytes().len() < usize::MAX,
    ensures
        match r {
            Some(i) => first_member(items@, kind, name@, line, source.spec_bytes()) == Some(
                i as int,
            ),
            None => first_member(items@, kind, name@, line, source.spec_bytes()) == None::<int>,
        },
{
    let ghost bytes = source.spec_bytes();
    let mut i: usize = 0;
    while i < items.len()
        invariant
            0 <= i <= items@.len(),
            bytes == source.spec_bytes(),
            bytes.len() < usize::MAX,
            forall|k: int|
                0 <= k < i ==> !((#[trigger] items@[k]).kind == kind && named_on_line(
                    items@[k],
                    name@,
                    line,
                    bytes,
                )),
        decreases items@.len() - i,
    {
        let it = &items[i];
        if it.kind == kind && name_is(it, name) && line_of(source, it.name_start) == line {
            proof {
                lemma_first_member_at(items@, kind, name@, line, bytes, i as int);
            }
            return Some(i);
        }
        i = i + 1;
    }
    proof {
        lemma_first_member_at(items@, kind, name@, line, bytes, i as int);
    }
    None
}

/// What locating a variant of an enum gives: not found when no variant
/// of that name is on that line, unsupported when it is the only
/// variant, else its comma-aware range.
pub open spec fn variant_located(e: SourceItem, name: Seq<char>, line: usize, bytes: Seq<u8>) -> LocatorResult {
    let vs = e.children@;
    match first_member(vs, ItemKind::Variant, name, line, bytes) {
        None => LocatorResult::NotFound,
        Some(i) => if vs.len() == 1 {
            LocatorResult::Unsupported
        } else {
            LocatorResult::Resolved(variant_range(vs, i, bytes).0, variant_range(vs, i, bytes).1)
        },
    }
}

/// Locates variant `name` (declared on `line`) in the enum `e`.
pub fn locate_variant_in_enum(e: &SourceItem, source: &str, name: &str, line: usize) -> (r: LocatorResult)
    requires
        source.spec_bytes().len() < usize::MAX,
    ensures
        r == variant_located(*e, name@, line, source.spec_bytes()),
{
    proof {
        lemma_first_member_bound(e.children@, ItemKind::Variant, name@, line, source.spec_bytes());
    }
    match find_member(&e.children, ItemKind::Variant, name, line, source) {
        None => LocatorResult::NotFound,
        Some(idx) => {
            if e.children.len() == 1 {
                LocatorResult::Unsupported
            } else {
                let r = variant_byte_range(e.children.as_slice(), idx, source);
                LocatorResult::Resolved(r.0, r.1)
            }
        },
    }
}

/// What locating a member of kind `kind` in an impl gives: the range of
/// the first one named `name` on `line`, if any.
pub open spec fn member_located(
    imp: SourceItem,
    kind: ItemKind,
    name: Seq<char>,
    line: usize,
    bytes: Seq<u8>,
) -> Option<LocatorResult> {
    match first_member(imp.children@, kind, name, line, bytes) {
        None => None,
        Some(i) => Some(
            LocatorResult::Resolved(
                item_range(imp.children@[i], bytes).0,
                item_range(imp.children@[i], bytes).1,
            ),
        ),
    }
}

fn find_member_in_impl(imp: &SourceItem, kind: ItemKind, source: &str, name: &str, line: usize) -> (r:
    Option<LocatorResult>)
    requires
        source.spec_bytes().len() < usize::MAX,
    ensures
        r == member_located(*imp, kind, name@, line, source.spec_bytes()),
{
    proof {
        lemma_first_member_bound(imp.children@, kind, name@, line, source.spec_bytes());
    }
    match find_member(&imp.children, kind, name, line, source) {
        None => None,
        Some(i) => {
            let r = item_byte_range(&imp.children[i], source);
            Some(LocatorResult::Resolved(r.0, r.1))
        },
    }
}

/// Locates method `name` (declared on `line`) among the members of one
/// inherent impl.
pub fn find_method_in_impl(imp: &SourceItem, source: &str, name: &str, line: usize) -> (r: Option<
    LocatorResult,
>)
    requires
        source.spec_bytes().len() < usize::MAX,
    ensures
        r == member_located(*imp, ItemKind::Fn, name@, line, source.spec_bytes()),
{
    find_member_in_impl(imp, ItemKind::Fn, source, name, line)
}

/// Locates associated constant `name` (declared on `line`) among the
/// members of one inherent impl.
pub fn find_const_in_impl(imp: &SourceItem, source: &str, name: &str, line: usize) -> (r: Option<
    LocatorResult,
>)
    requires
        source.spec_bytes().len() < usize::MAX,
    ensures
        r == member_located(*imp, ItemKind::Const, name@, line, source.spec_bytes()),
{
    find_member_in_impl(imp, ItemKind::Const, source, name, line)
}

/// The detector's spelling `kind` names the kind of this top-level item.
pub open spec fn top_level_kind(k: ItemKind, kind: Seq<char>) -> bool {
    match k {
        ItemKind::Fn => kind == "fn"@,
        ItemKind::Struct => kind == "struct"@,
        ItemKind::Enum => kind == "enum"@,
        ItemKind::Trait => kind == "trait"@,
        ItemKind::TypeAlias => kind == "type"@,
        ItemKind::Const => kind == "const"@,
        ItemKind::Static => kind == "static"@,
        ItemKind::Union => kind == "union"@,
        _ => false,
    }
}

/// Whether `item` is a declaration of kind `kind` named `name`.
pub fn matches_top_level(item: &SourceItem, name: &str, kind: &str) -> (b: bool)
    ensures
        b == (top_level_kind(item.kind, kind@) && has_name(*item, name@)),
{
    let kind_ok = match item.kind {
        ItemKind::Fn => str_eq(kind, "fn"),
        ItemKind::Struct => str_eq(kind, "struct"),
        ItemKind::Enum => str_eq(kind, "enum"),
        ItemKind::Trait => str_eq(kind, "trait"),
        ItemKind::TypeAlias => str_eq(kind, "type"),
        ItemKind::Const => str_eq(kind, "const"),
        ItemKind::Static => str_eq(kind, "static"),
        ItemKind::Union => str_eq(kind, "union"),
        _ => false,
    };
    kind_ok && name_is(item, name)
}

/// The first declaration of kind `kind` named `name` among `items`,
/// looking into inline modules in place.
pub open spec fn top_level_found(items: Seq<SourceItem>, name: Seq<char>, kind: Seq<char>, bytes: Seq<
    u8,
>) -> LocatorResult
    decreases items,
{
    if items.len() == 0 {
        LocatorResult::NotFound
    } else {
        let it = items[0];
        if top_level_kind(it.kind, kind) && has_name(it, name) {
            LocatorResult::Resolved(item_range(it, bytes).0, item_range(it, bytes).1)
        } else {
            let nested = if it.kind == ItemKind::Module {
                top_level_found(it.children@, name, kind, bytes)
            } else {
                LocatorResult::NotFound
            };
            if nested != LocatorResult::NotFound {
                nested
            } else {
                top_level_found(items.drop_first(), name, kind, bytes)
            }
        }
    }
}

/// Finds the first declaration of kind `kind` named `name`, looking into
/// inline modules in place.
pub fn find_top_level_in(items: &Vec<SourceItem>, source: &str, name: &str, kind: &str) -> (r:
    LocatorResult)
    ensures
        r == top_level_found(items@, name@, kind@, source.spec_bytes()),
    decreases items,
{
    let ghost bytes = source.spec_bytes();
    let mut i: usize = 0;
    assert(items@.skip(0) =~= items@);
    while i < items.len()
        invariant
            0 <= i <= items@.len(),
            bytes == source.spec_bytes(),
            top_level_found(items@, name@, kind@, bytes) == top_level_found(
                items@.skip(i as int),
                name@,
                kind@,
                bytes,
            ),
        decreases items@.len() - i,
    {
        let it = &items[i];
        proof {
            let s = items@.skip(i as int);
            assert(s[0] == items@[i as int]);
            assert(s.drop_first() =~= items@.skip(i + 1));
        }
        if matches_top_level(it, name, kind) {
            let r = item_byte_range(it, source);
            return LocatorResult::Resolved(r.0, r.1);
        }
        if it.kind == ItemKind::Module {
            let nested = find_top_level_in(&it.children, source, name, kind);
            match nested {
                LocatorResult::NotFound => {},
                _ => {
                    return nested;
                },
            }
        }
        i = i + 1;
    }
    assert(items@.skip(i as int) =~= Seq::<SourceItem>::empty());
    LocatorResult::NotFound
}

/// Finds the first declaration of kind `kind` named `name` in the file.
pub fn find_top_level(items: &Vec<SourceItem>, source: &str, name: &str, kind: &str) -> (r: LocatorResult)
    ensures
        r == top_level_found(items@, name@, kind@, source.spec_bytes()),
{
    find_top_level_in(items, source, name, kind)
}

/// The item is an inherent impl of the type named `parent`.
pub open spec fn is_inherent_impl_of(it: SourceItem, parent: Seq<char>) -> bool {
    it.kind == ItemKind::Impl && has_name(it, parent)
}

/// Whether `i` is an inherent impl of the type named `parent`.
pub fn is_matching_inherent_impl(i: &SourceItem, parent: &str) -> (b: bool)
    ensures
        b == is_inherent_impl_of(*i, parent@),
{
    i.kind == ItemKind::Impl && name_is(i, parent)
}

/// The first member of kind `kind` named `name` on `line` in an inherent
/// impl of `parent`, trying the impls in order and looking into inline
/// modules in place.
pub open spec fn impl_member_found(
    items: Seq<SourceItem>,
    parent: Seq<char>,
    kind: ItemKind,
    name: Seq<char>,
    line: usize,
    bytes: Seq<u8>,
) -> Option<LocatorResult>
    decreases items,
{
    if items.len() == 0 {
        None
    } else {
        let it = items[0];
        let here = if is_inherent_impl_of(it, parent) {
            member_located(it, kind, name, line, bytes)
        } else if it.kind == ItemKind::Module {
            impl_member_found(it.children@, parent, kind, name, line, bytes)
        } else {
            None
        };
        match here {
            Some(r) => Some(r),
            None => impl_member_found(items.drop_first(), parent, kind, name, line, bytes),
        }
    }
}

/// Walks the inherent impls of `parent` among `items` (and inside inline
/// modules) for the first member of kind `kind` named `name` on `line`.
pub fn walk_impls_inner(
    items: &Vec<SourceItem>,
    parent: &str,
    kind: ItemKind,
    source: &str,
    name: &str,
    line: usize,
) -> (r: Option<LocatorResult>)
    requires
        source.spec_bytes().len() < usize::MAX,
    ensures
        r == impl_member_found(items@, parent@, kind, name@, line, source.spec_bytes()),
    decreases items,
{
    let ghost bytes = source.spec_bytes();
    let mut i: usize = 0;
    assert(items@.skip(0) =~= items@);
    while i < items.len()
        invariant
            0 <= i <= items@.len(),
            bytes == source.spec_bytes(),
            bytes.len() < usize::MAX,
            impl_member_found(items@, parent@, kind, name@, line, bytes) == impl_member_found(
                items@.skip(i as int),
                parent@,
                kind,
                name@,
                line,
                bytes,
            ),
        decreases items@.len() - i,
    {
        let it = &items[i];
        proof {
            let s = items@.skip(i as int);
            assert(s[0] == items@[i as int]);
            assert(s.drop_first() =~= items@.skip(i + 1));
        }
        let here = if is_matching_inherent_impl(it, parent) {
            find_member_in_impl(it, kind, source, name, line)
        } else if it.kind == ItemKind::Module {
            walk_impls_inner(&it.children, parent, kind, source, name, line)
        } else {
            None
        };
        if here.is_some() {
            return here;
        }
        i = i + 1;
    }
    assert(items@.skip(i as int) =~= Seq::<SourceItem>::empty());
    None
}

/// A search result, with nothing found counting as not found.
pub open spec fn found_or_not(o: Option<LocatorResult>) -> LocatorResult {
    match o {
        Some(r) => r,
        None => LocatorResult::NotFound,
    }
}

/// Locates method `name` (declared on `line`) in an inherent impl of
/// `parent`; without a parent there is nothing to find.
pub fn find_method(items: &Vec<SourceItem>, source: &str, parent: Option<&str>, name: &str, line: usize) -> (r:
    LocatorResult)
    requires
        source.spec_bytes().len() < usize::MAX,
    ensures
        r == match parent {
            None => LocatorResult::NotFound,
            Some(p) => found_or_not(
                impl_member_found(items@, p@, ItemKind::Fn, name@, line, source.spec_bytes()),
            ),
        },
{
    match parent {
        None => LocatorResult::NotFound,
        Some(p) => match walk_impls_inner(items, p, ItemKind::Fn, source, name, line) {
            Some(r) => r,
            None => LocatorResult::NotFound,
        },
    }
}

/// Locates associated constant `name` (declared on `line`) in an inherent
/// impl of `parent`; without a parent there is nothing to find.
pub fn find_assoc_const(items: &Vec<SourceItem>, source: &str, parent: Option<&str>, name: &str, line: usize) -> (r:
    LocatorResult)
    requires
        source.spec_bytes().len() < usize::MAX,
    ensures
        r == match parent {
            None => LocatorResult::NotFound,
            Some(p) => found_or_not(
                impl_member_found(items@, p@, ItemKind::Const, name@, line, source.spec_bytes()),
            ),
        },
{
    match parent {
        None => LocatorResult::NotFound,
        Some(p) => match walk_impls_inner(items, p, ItemKind::Const, source, name, line) {
            Some(r) => r,
            None => LocatorResult::NotFound,
        },
    }
}

/// The first enum named `parent` (looking into inline modules in place)
/// in which variant `name` on `line` is found.
pub open spec fn variant_found(
    items: Seq<SourceItem>,
    parent: Seq<char>,
    name: Seq<char>,
    line: usize,
    bytes: Seq<u8>,
) -> LocatorResult
    decreases items,
{
    if items.len() == 0 {
        LocatorResult::NotFound
    } else {
        let it = items[0];
        let here = if it.kind == ItemKind::Enum && has_name(it, parent) {
            variant_located(it, name, line, bytes)
        } else if it.kind == ItemKind::Module {
            variant_found(it.children@, parent, name, line, bytes)
        } else {
            LocatorResult::NotFound
        };
        if here != LocatorResult::NotFound {
            here
        } else {
            variant_found(items.drop_first(), parent, name, line, bytes)
        }
    }
}

/// Locates variant `name` (declared on `line`) of the enum `parent`,
/// looking into inline modules in place.
pub fn find_variant_in_items(items: &Vec<SourceItem>, source: &str, parent: &str, name: &str, line: usize) -> (r:
    LocatorResult)
    requires
        source.spec_bytes().len() < usize::MAX,
    ensures
        r == variant_found(items@, parent@, name@, line, source.spec_bytes()),
    decreases items,
{
    let ghost bytes = source.spec_bytes();
    let mut i: usize = 0;
    assert(items@.skip(0) =~= items@);
    while i < items.len()
        invariant
            0 <= i <= items@.len(),
            bytes == source.spec_bytes(),
            bytes.len() < usize::MAX,
            variant_found(items@, parent@, name@, line, bytes) == variant_found(
                items@.skip(i as int),
                parent@,
                name@,
                line,
                bytes,
            ),
        decreases items@.len() - i,
    {
        let it = &items[i];
        proof {
            let s = items@.skip(i as int);
            assert(s[0] == items@[i as int]);
            assert(s.drop_first() =~= items@.skip(i + 1));
        }
        let here = if it.kind == ItemKind::Enum && name_is(it, parent) {
            locate_variant_in_enum(it, source, name, line)
        } else if it.kind == ItemKind::Module {
            find_variant_in_items(&it.children, source, parent, name, line)
        } else {
            LocatorResult::NotFound
        };
        match here {
            LocatorResult::NotFound => {},
            _ => {
                return here;
            },
        }
        i = i + 1;
    }
    assert(items@.skip(i as int) =~= Seq::<SourceItem>::empty());
    LocatorResult::NotFound
}

/// Locates variant `name` (declared on `line`) of the enum `parent`;
/// without a parent there is nothing to find.
pub fn find_variant(items: &Vec<SourceItem>, source: &str, parent: Option<&str>, name: &str, line: usize) -> (r:
    LocatorResult)
    requires
        source.spec_bytes().len() < usize::MAX,
    ensures
        r == match parent {
            None => LocatorResult::NotFound,
            Some(p) => variant_found(items@, p@, name@, line, source.spec_bytes()),
        },
{
    match parent {
        None => LocatorResult::NotFound,
        Some(p) => find_variant_in_items(items, source, p, name, line),
    }
}

/// The kinds located as declarations of their own.
pub open spec fn is_top_level_word(k: Seq<char>) -> bool {
    k == "fn"@ || k == "struct"@ || k == "enum"@ || k == "trait"@ || k == "type"@ || k == "const"@
        || k == "static"@ || k == "union"@
}

/// Where a finding is in its file's item tree, by its kind: top-level
/// kinds by name, methods and associated constants by name and line in an
/// inherent impl of their parent, variants by name and line in the enum
/// of their parent. Other kinds are not found.
pub open spec fn item_located(items: Seq<SourceItem>, bytes: Seq<u8>, item: UnusedItem) -> LocatorResult {
    let k = item.kind@;
    if is_top_level_word(k) {
        top_level_found(items, item.name@, k, bytes)
    } else if k == "method"@ {
        match item.parent {
            None => LocatorResult::NotFound,
            Some(p) => found_or_not(
                impl_member_found(items, p@, ItemKind::Fn, item.name@, item.line, bytes),
            ),
        }
    } else if k == "variant"@ {
        match item.parent {
            None => LocatorResult::NotFound,
            Some(p) => variant_found(items, p@, item.name@, item.line, bytes),
        }
    } else if k == "assoc-const"@ {
        match item.parent {
            None => LocatorResult::NotFound,
            Some(p) => found_or_not(
                impl_member_found(items, p@, ItemKind::Const, item.name@, item.line, bytes),
            ),
        }
    } else {
        LocatorResult::NotFound
    }
}

/// Locates one finding in its file's item tree.
pub fn find_item_range(items: &Vec<SourceItem>, source: &str, item: &UnusedItem) -> (r: LocatorResult)
    requires
        source.spec_bytes().len() < usize::MAX,
    ensures
        r == item_located(items@, source.spec_bytes(), *item),
{
    let k = item.kind.as_str();
    let name = item.name.as_str();
    if str_eq(k, "fn") || str_eq(k, "struct") || str_eq(k, "enum") || str_eq(k, "trait") || str_eq(
        k,
        "type",
    ) || str_eq(k, "const") || str_eq(k, "static") || str_eq(k, "union") {
        return find_top_level(items, source, name, k);
    }
    let parent: Option<&str> = match &item.parent {
        Some(p) => Some(p.as_str()),
        None => None,
    };
    if str_eq(k, "method") {
        find_method(items, source, parent, name, item.line)
    } else if str_eq(k, "variant") {
        find_variant(items, source, parent, name, item.line)
    } else if str_eq(k, "assoc-const") {
        find_assoc_const(items, source, parent, name, item.line)
    } else {
        LocatorResult::NotFound
    }
}

// ----------------------------------------------------------------------
// Rewriting one file
// ----------------------------------------------------------------------

/// Every range starts no later than it ends and ends within `len` bytes.
pub open spec fn ranges_within(rs: Seq<(usize, usize)>, len: int) -> bool {
    forall|i: int| 0 <= i < rs.len() ==> (#[trigger] rs[i]).0 <= rs[i].1 && rs[i].1 <= len
}

/// What is left of `bytes` from `pos` on once the ranges `rs` (in order,
/// none before `pos`) are cut out.
pub open spec fn gaps(bytes: Seq<u8>, rs: Seq<(usize, usize)>, pos: int) -> Seq<u8>
    decreases rs.len(),
{
    if rs.len() == 0 {
        bytes.subrange(pos, bytes.len() as int)
    } else {
        bytes.subrange(pos, rs[0].0 as int) + gaps(bytes, rs.drop_first(), rs[0].1 as int)
    }
}

/// Cuts the ordered, non-overlapping ranges `rs` out of `bytes`. Cutting
/// them from the last to the first, as `String::replace_range` is applied,
/// leaves the same bytes.
pub fn remove_ranges(bytes: &[u8], rs: &[(usize, usize)]) -> (out: Vec<u8>)
    requires
        ranges_within(rs@, bytes@.len() as int),
        forall|i: int| 0 <= i < rs@.len() - 1 ==> (#[trigger] rs@[i]).1 <= rs@[i + 1].0,
    ensures
        out@ == gaps(bytes@, rs@, 0),
{
    let mut out: Vec<u8> = Vec::new();
    let mut pos: usize = 0;
    let mut i: usize = 0;
    assert(rs@.skip(0) =~= rs@);
    while i < rs.len()
        invariant
            0 <= i <= rs@.len(),
            pos <= bytes@.len(),
            i < rs@.len() ==> pos <= rs@[i as int].0,
            ranges_within(rs@, bytes@.len() as int),
            forall|k: int| 0 <= k < rs@.len() - 1 ==> (#[trigger] rs@[k]).1 <= rs@[k + 1].0,
            out@ + gaps(bytes@, rs@.skip(i as int), pos as int) == gaps(bytes@, rs@, 0),
        decreases rs@.len() - i,
    {
        let (a, b) = rs[i];
        let ghost o0 = out@;
        let mut k: usize = pos;
        while k < a
            invariant
                pos <= k <= a,
                a <= bytes@.len(),
                out@ == o0 + bytes@.subrange(pos as int, k as int),
            decreases a - k,
        {
            out.push(bytes[k]);
            k = k + 1;
            assert(out@ =~= o0 + bytes@.subrange(pos as int, k as int));
        }
        proof {
            let rest = rs@.skip(i as int);
            assert(rest[0] == (a, b));
            assert(rest.drop_first() =~= rs@.skip(i + 1));
            assert(out@ + gaps(bytes@, rs@.skip(i + 1), b as int) =~= o0 + gaps(
                bytes@,
                rest,
                pos as int,
            ));
        }
        pos = b;
        i = i + 1;
    }
    let ghost o1 = out@;
    let mut k: usize = pos;
    while k < bytes.len()
        invariant
            pos <= k <= bytes@.len(),
            out@ == o1 + bytes@.subrange(pos as int, k as int),
        decreases bytes@.len() - k,
    {
        out.push(bytes[k]);
        k = k + 1;
        assert(out@ =~= o1 + bytes@.subrange(pos as int, k as int));
    }
    proof {
        assert(rs@.skip(i as int) =~= Seq::<(usize, usize)>::empty());
    }
    out
}

/// Coalescing ranges that lie within a file keeps them within it.
proof fn lemma_merge_within(s: Seq<(usize, usize)>, n: int, len: int)
    requires
        1 <= n <= s.len(),
        ranges_within(s, len),
    ensures
        ranges_within(merge_from(s, n).0.push(merge_from(s, n).1), len),
    decreases n,
{
    if n > 1 {
        lemma_merge_within(s, n - 1, len);
        let prev = merge_from(s, n - 1);
        let w = prev.0.push(prev.1);
        let st = merge_from(s, n);
        let t = st.0.push(st.1);
        assert(s[n - 1].0 <= s[n - 1].1 <= len);
        assert(w[w.len() - 1] == prev.1);
        assert forall|i: int| 0 <= i < t.len() implies (#[trigger] t[i]).0 <= t[i].1 && t[i].1 <= len by {
            if i < prev.0.len() {
                assert(t[i] == w[i]);
            } else if i == prev.0.len() && t.len() == prev.0.len() + 2 {
                assert(t[i] == prev.1);
            }
        }
    } else {
        assert(s[0].0 <= s[0].1);
    }
}

/// The coalesced ranges of ranges within a file are within it.
pub proof fn lemma_merge_ranges_within(input: Seq<(usize, usize)>, len: int)
    requires
        ranges_within(input, len),
    ensures
        ranges_within(merge_ranges_spec(input), len),
{
    let s = sort_by_start(input);
    lemma_sort_props(input);
    lemma_sort_len(input);
    assert forall|i: int| 0 <= i < s.len() implies (#[trigger] s[i]).0 <= s[i].1 && s[i].1 <= len by {
        assert(s.contains(s[i]));
        assert(input.contains(s[i]));
        let j = choose|j: int| 0 <= j < input.len() && input[j] == s[i];
        assert(input[j].0 <= input[j].1 && input[j].1 <= len);
    }
    if s.len() > 0 {
        lemma_merge_within(s, s.len() as int, len);
    }
}

/// The resolved ranges among locator results, in order.
pub open spec fn resolved_ranges(rs: Seq<LocatorResult>) -> Seq<(usize, usize)>
    decreases rs.len(),
{
    if rs.len() == 0 {
        Seq::empty()
    } else {
        let prev = resolved_ranges(rs.drop_last());
        match rs.last() {
            LocatorResult::Resolved(a, b) => prev.push((a, b)),
            _ => prev,
        }
    }
}

/// Number of results of each kind: `(resolved, unsupported, not found)`.
pub open spec fn result_counts(rs: Seq<LocatorResult>) -> (nat, nat, nat)
    decreases rs.len(),
{
    if rs.len() == 0 {
        (0, 0, 0)
    } else {
        let (r, u, n) = result_counts(rs.drop_last());
        match rs.last() {
            LocatorResult::Resolved(_, _) => (r + 1, u, n),
            LocatorResult::Unsupported => (r, u + 1, n),
            LocatorResult::NotFound => (r, u, n + 1),
        }
    }
}

/// What rewriting one file amounts to.
#[derive(Debug)]
pub struct FileEdit {
    /// Declarations whose range is cut.
    pub deleted: usize,
    /// Declarations the locator declined to remove.
    pub skipped_unsupported: usize,
    /// Declarations the locator could not find.
    pub not_found: usize,
    /// The new file contents, when anything is cut.
    pub new_source: Option<Vec<u8>>,
}

/// Given the locator results for the requested declarations of one file,
/// counts them and, when some resolved, cuts the coalesced ranges out of
/// the source.
pub fn edit_file(source: &str, results: &[LocatorResult]) -> (e: FileEdit)
    requires
        ranges_within(resolved_ranges(results@), source.spec_bytes().len() as int),
    ensures
        e.deleted == result_counts(results@).0,
        e.skipped_unsupported == result_counts(results@).1,
        e.not_found == result_counts(results@).2,
        match e.new_source {
            Some(b) => e.deleted > 0 && b@ == gaps(
                source.spec_bytes(),
                merge_ranges_spec(resolved_ranges(results@)),
                0,
            ),
            None => e.deleted == 0,
        },
{
    let mut ranges: Vec<(usize, usize)> = Vec::new();
    let mut deleted: usize = 0;
    let mut unsupported: usize = 0;
    let mut not_found: usize = 0;
    let mut i: usize = 0;
    while i < results.len()
        invariant
            0 <= i <= results@.len(),
            ranges@ == resolved_ranges(results@.take(i as int)),
            (deleted as nat, unsupported as nat, not_found as nat) == result_counts(
                results@.take(i as int),
            ),
            deleted + unsupported + not_found == i,
        decreases results@.len() - i,
    {
        proof {
            let t = results@.take(i + 1);
            assert(t.drop_last() =~= results@.take(i as int));
        }
        match results[i] {
            LocatorResult::Resolved(a, b) => {
                ranges.push((a, b));
                deleted = deleted + 1;
            },
            LocatorResult::Unsupported => {
                unsupported = unsupported + 1;
            },
            LocatorResult::NotFound => {
                not_found = not_found + 1;
            },
        }
        i = i + 1;
    }
    assert(results@.take(i as int) =~= results@);
    if deleted == 0 {
        return FileEdit { deleted, skipped_unsupported: unsupported, not_found, new_source: None };
    }
    let ghost input = ranges@;
    let merged = merge_ranges(ranges);
    proof {
        lemma_merge_ranges_within(input, source.spec_bytes().len() as int);
        law_merge_ranges_disjoint(input);
    }
    let bytes = source.as_bytes();
    let new_source = remove_ranges(bytes, merged.as_slice());
    FileEdit { deleted, skipped_unsupported: unsupported, not_found, new_source: Some(new_source) }
}

/// Adds what one file's edit did to the running tally; a file counts as
/// touched when some declaration of it was cut.
pub fn record_edit(outcome: &mut Outcome, e: &FileEdit)
    requires
        old(outcome).deleted + e.deleted <= usize::MAX,
        old(outcome).touched_files < usize::MAX,
        old(outcome).skipped_unsupported + e.skipped_unsupported <= usize::MAX,
        old(outcome).not_found + e.not_found <= usize::MAX,
    ensures
        final(outcome).deleted == old(outcome).deleted + e.deleted,
        final(outcome).touched_files == old(outcome).touched_files + if e.deleted > 0 {
            1int
        } else {
            0int
        },
        final(outcome).skipped_test_files == old(outcome).skipped_test_files,
        final(outcome).skipped_unsupported == old(outcome).skipped_unsupported
            + e.skipped_unsupported,
        final(outcome).not_found == old(outcome).not_found + e.not_found,
{
    outcome.deleted = outcome.deleted + e.deleted;
    outcome.skipped_unsupported = outcome.skipped_unsupported + e.skipped_unsupported;
    outcome.not_found = outcome.not_found + e.not_found;
    if e.deleted > 0 {
        outcome.touched_files = outcome.touched_files + 1;
    }
}

// ----------------------------------------------------------------------
// Locating and cutting the findings of one file
// ----------------------------------------------------------------------

/// A located range starts no later than it ends and ends within `len`
/// bytes; results that locate nothing qualify trivially.
pub open spec fn range_ok(r: LocatorResult, len: int) -> bool {
    match r {
        LocatorResult::Resolved(a, b) => a <= b && b <= len,
        _ => true,
    }
}

proof fn lemma_well_placed_at(items: Seq<SourceItem>, len: int, k: int)
    requires
        well_placed(items, len),
        0 <= k < items.len(),
    ensures
        items[k].start <= items[k].end <= len,
        k + 1 < items.len() ==> items[k].end <= items[k + 1].start,
        well_placed(items[k].children@, len),
    decreases k,
{
    if k > 0 {
        lemma_well_placed_at(items.drop_first(), len, k - 1);
        assert(items.drop_first()[k - 1] == items[k]);
        if k + 1 < items.len() {
            assert(items.drop_first()[k] == items[k + 1]);
        }
    }
}

proof fn lemma_item_range_ok(it: SourceItem, bytes: Seq<u8>)
    requires
        it.start <= it.end <= bytes.len(),
        bytes.len() < usize::MAX,
    ensures
        range_ok(LocatorResult::Resolved(item_range(it, bytes).0, item_range(it, bytes).1), bytes.len() as int),
{
}

proof fn lemma_variant_located_ok(e: SourceItem, name: Seq<char>, line: usize, bytes: Seq<u8>)
    requires
        well_placed(e.children@, bytes.len() as int),
        bytes.len() < usize::MAX,
    ensures
        range_ok(variant_located(e, name, line, bytes), bytes.len() as int),
{
    let vs = e.children@;
    let len = bytes.len() as int;
    lemma_first_member_bound(vs, ItemKind::Variant, name, line, bytes);
    match first_member(vs, ItemKind::Variant, name, line, bytes) {
        Some(i) => {
            if vs.len() >= 2 {
                lemma_well_placed_at(vs, len, i);
                if i + 1 < vs.len() {
                    lemma_well_placed_at(vs, len, i + 1);
                } else {
                    lemma_well_placed_at(vs, len, i - 1);
                }
            }
        },
        None => {},
    }
}

proof fn lemma_member_located_ok(imp: SourceItem, kind: ItemKind, name: Seq<char>, line: usize, bytes: Seq<u8>)
    requires
        well_placed(imp.children@, bytes.len() as int),
        bytes.len() < usize::MAX,
    ensures
        match member_located(imp, kind, name, line, bytes) {
            Some(r) => range_ok(r, bytes.len() as int),
            None => true,
        },
{
    lemma_first_member_bound(imp.children@, kind, name, line, bytes);
    match first_member(imp.children@, kind, name, line, bytes) {
        Some(i) => {
            lemma_well_placed_at(imp.children@, bytes.len() as int, i);
            lemma_item_range_ok(imp.children@[i], bytes);
        },
        None => {},
    }
}

proof fn lemma_top_level_ok(items: Seq<SourceItem>, name: Seq<char>, kind: Seq<char>, bytes: Seq<u8>)
    requires
        well_placed(items, bytes.len() as int),
        bytes.len() < usize::MAX,
    ensures
        range_ok(top_level_found(items, name, kind, bytes), bytes.len() as int),
    decreases items,
{
    if items.len() > 0 {
        let it = items[0];
        lemma_well_placed_at(items, bytes.len() as int, 0);
        lemma_item_range_ok(it, bytes);
        if it.kind == ItemKind::Module {
            lemma_top_level_ok(it.children@, name, kind, bytes);
        }
        lemma_top_level_ok(items.drop_first(), name, kind, bytes);
    }
}

proof fn lemma_impl_member_ok(
    items: Seq<SourceItem>,
    parent: Seq<char>,
    kind: ItemKind,
    name: Seq<char>,
    line: usize,
    bytes: Seq<u8>,
)
    requires
        well_placed(items, bytes.len() as int),
        bytes.len() < usize::MAX,
    ensures
        range_ok(found_or_not(impl_member_found(items, parent, kind, name, line, bytes)), bytes.len() as int),
    decreases items,
{
    if items.len() > 0 {
        let it = items[0];
        lemma_well_placed_at(items, bytes.len() as int, 0);
        lemma_member_located_ok(it, kind, name, line, bytes);
        if it.kind == ItemKind::Module {
            lemma_impl_member_ok(it.children@, parent, kind, name, line, bytes);
        }
        lemma_impl_member_ok(items.drop_first(), parent, kind, name, line, bytes);
    }
}

proof fn lemma_variant_found_ok(items: Seq<SourceItem>, parent: Seq<char>, name: Seq<char>, line: usize, bytes: Seq<u8>)
    requires
        well_placed(items, bytes.len() as int),
        bytes.len() < usize::MAX,
    ensures
        range_ok(variant_found(items, parent, name, line, bytes), bytes.len() as int),
    decreases items,
{
    if items.len() > 0 {
        let it = items[0];
        lemma_well_placed_at(items, bytes.len() as int, 0);
        lemma_variant_located_ok(it, name, line, bytes);
        if it.kind == ItemKind::Module {
            lemma_variant_found_ok(it.children@, parent, name, line, bytes);
        }
        lemma_variant_found_ok(items.drop_first(), parent, name, line, bytes);
    }
}

/// In a well-placed item tree, every finding is located at a range that
/// lies within the source.
pub proof fn lemma_item_located_ok(items: Seq<SourceItem>, bytes: Seq<u8>, item: UnusedItem)
    requires
        well_placed(items, bytes.len() as int),
        bytes.len() < usize::MAX,
    ensures
        range_ok(item_located(items, bytes, item), bytes.len() as int),
{
    lemma_top_level_ok(items, item.name@, item.kind@, bytes);
    match item.parent {
        Some(p) => {
            lemma_impl_member_ok(items, p@, ItemKind::Fn, item.name@, item.line, bytes);
            lemma_impl_member_ok(items, p@, ItemKind::Const, item.name@, item.line, bytes);
            lemma_variant_found_ok(items, p@, item.name@, item.line, bytes);
        },
        None => {},
    }
}

proof fn lemma_resolved_within(rs: Seq<LocatorResult>, len: int)
    requires
        forall|k: int| 0 <= k < rs.len() ==> range_ok(#[trigger] rs[k], len),
    ensures
        ranges_within(resolved_ranges(rs), len),
    decreases rs.len(),
{
    if rs.len() > 0 {
        let p = rs.drop_last();
        assert forall|k: int| 0 <= k < p.len() implies range_ok(#[trigger] p[k], len) by {
            assert(p[k] == rs[k]);
        }
        lemma_resolved_within(p, len);
        assert(range_ok(rs[rs.len() - 1], len));
    }
}

/// Every requested finding located in the file's item tree, in order.
pub open spec fn located_all(items: Seq<SourceItem>, bytes: Seq<u8>, requested: Seq<UnusedItem>) -> Seq<
    LocatorResult,
> {
    requested.map_values(|r: UnusedItem| item_located(items, bytes, r))
}

/// Locates every requested finding in the file's item tree, in order.
pub fn locate_all(items: &Vec<SourceItem>, source: &str, requested: &[UnusedItem]) -> (out: Vec<
    LocatorResult,
>)
    requires
        source.spec_bytes().len() < usize::MAX,
    ensures
        out@ == located_all(items@, source.spec_bytes(), requested@),
{
    let mut out: Vec<LocatorResult> = Vec::new();
    let mut i: usize = 0;
    while i < requested.len()
        invariant
            0 <= i <= requested@.len(),
            source.spec_bytes().len() < usize::MAX,
            out@ == located_all(items@, source.spec_bytes(), requested@.take(i as int)),
        decreases requested@.len() - i,
    {
        let r = find_item_range(items, source, &requested[i]);
        out.push(r);
        assert(located_all(items@, source.spec_bytes(), requested@.take(i + 1)) =~= located_all(
            items@,
            source.spec_bytes(),
            requested@.take(i as int),
        ).push(r));
        i = i + 1;
    }
    assert(requested@.take(i as int) =~= requested@);
    out
}

/// Locates the requested findings of one file in its item tree, counts
/// what was found, unsupported and missing, and cuts the coalesced ranges
/// of the found ones out of the source.
pub fn apply_file(items: &Vec<SourceItem>, source: &str, requested: &[UnusedItem]) -> (e: FileEdit)
    requires
        source.spec_bytes().len() < usize::MAX,
        well_placed(items@, source.spec_bytes().len() as int),
    ensures
        e.deleted == result_counts(located_all(items@, source.spec_bytes(), requested@)).0,
        e.skipped_unsupported == result_counts(located_all(items@, source.spec_bytes(), requested@)).1,
        e.not_found == result_counts(located_all(items@, source.spec_bytes(), requested@)).2,
        match e.new_source {
            Some(b) => e.deleted > 0 && b@ == gaps(
                source.spec_bytes(),
                merge_ranges_spec(resolved_ranges(located_all(items@, source.spec_bytes(), requested@))),
                0,
            ),
            None => e.deleted == 0,
        },
{
    let results = locate_all(items, source, requested);
    proof {
        let bytes = source.spec_bytes();
        assert forall|k: int| 0 <= k < results@.len() implies range_ok(#[trigger] results@[k], bytes.len() as int) by {
            lemma_item_located_ok(items@, bytes, requested@[k]);
        }
        lemma_resolved_within(results@, bytes.len() as int);
    }
    edit_file(source, results.as_slice())
}

// ----------------------------------------------------------------------
// Grouping findings by file
// ----------------------------------------------------------------------

/// The requested declarations of one file, by position in the finding
/// list.
#[derive(Debug)]
pub struct FileGroup {
    /// Workspace-relative path.
    pub file: String,
    /// Positions of the findings in this file, in finding order.
    pub items: Vec<usize>,
}

/// A group as `(file, positions)`.
pub type GroupView = (Seq<char>, Seq<usize>);

/// The views of a list of groups.
pub open spec fn group_views(gs: Seq<FileGroup>) -> Seq<GroupView> {
    gs.map_values(|g: FileGroup| (g.file@, g.items@))
}

/// Position of the group of `file`, if any.
pub open spec fn group_of(gs: Seq<GroupView>, file: Seq<char>) -> Option<int>
    decreases gs.len(),
{
    if gs.len() == 0 {
        None
    } else if gs.last().0 == file {
        Some(gs.len() - 1)
    } else {
        group_of(gs.drop_last(), file)
    }
}

/// Adds finding `k` of `file` to its group, opening one when the file is
/// new.
pub open spec fn add_to_group(gs: Seq<GroupView>, file: Seq<char>, k: usize) -> Seq<GroupView> {
    match group_of(gs, file) {
        Some(g) => gs.update(g, (file, gs[g].1.push(k))),
        None => gs.push((file, seq![k])),
    }
}

/// A finding is set aside as test scaffolding.
pub open spec fn skipped_as_test(item: UnusedItem, include_tests: bool) -> bool {
    !include_tests && is_test_path_spec(item.file@)
}

/// The groups of the first `n` findings, files in first-seen order.
pub open spec fn groups_upto(items: Seq<UnusedItem>, include_tests: bool, n: int) -> Seq<GroupView>
    decreases n,
{
    if n <= 0 {
        Seq::empty()
    } else {
        let prev = groups_upto(items, include_tests, n - 1);
        if skipped_as_test(items[n - 1], include_tests) {
            prev
        } else {
            add_to_group(prev, items[n - 1].file@, (n - 1) as usize)
        }
    }
}

/// Number of the first `n` findings set aside as test scaffolding.
pub open spec fn skipped_upto(items: Seq<UnusedItem>, include_tests: bool, n: int) -> nat
    decreases n,
{
    if n <= 0 {
        0
    } else {
        skipped_upto(items, include_tests, n - 1) + if skipped_as_test(items[n - 1], include_tests) {
            1nat
        } else {
            0nat
        }
    }
}

proof fn lemma_group_of_at(gs: Seq<GroupView>, file: Seq<char>, i: int)
    requires
        0 <= i <= gs.len(),
        forall|k: int| i <= k < gs.len() ==> (#[trigger] gs[k]).0 != file,
    ensures
        i > 0 && gs[i - 1].0 == file ==> group_of(gs, file) == Some(i - 1),
        i == 0 ==> group_of(gs, file) == None::<int>,
    decreases gs.len(),
{
    if gs.len() > 0 && i < gs.len() {
        let t = gs.drop_last();
        assert forall|k: int| i <= k < t.len() implies (#[trigger] t[k]).0 != file by {
            assert(t[k] == gs[k]);
        }
        lemma_group_of_at(t, file, i);
    } else if gs.len() > 0 && i == gs.len() && i > 0 && gs[i - 1].0 != file {
    }
}

/// Position of the group of `file` in `groups`.
fn find_group(groups: &Vec<FileGroup>, file: &str) -> (r: Option<usize>)
    ensures
        match r {
            Some(g) => group_of(group_views(groups@), file@) == Some(g as int),
            None => group_of(group_views(groups@), file@) == None::<int>,
        },
{
    let ghost gv = group_views(groups@);
    let mut i: usize = groups.len();
    while i > 0
        invariant
            0 <= i <= groups@.len(),
            gv == group_views(groups@),
            forall|k: int| i <= k < gv.len() ==> (#[trigger] gv[k]).0 != file@,
        decreases i,
    {
        assert(gv[i - 1].0 == groups@[i - 1].file@);
        if crate::text::str_eq(groups[i - 1].file.as_str(), file) {
            proof {
                lemma_group_of_at(gv, file@, i as int);
            }
            return Some(i - 1);
        }
        i = i - 1;
    }
    proof {
        lemma_group_of_at(gv, file@, 0);
    }
    None
}

/// A group found for a key lies in range and has that key.
pub proof fn lemma_group_of_bound_pub(gs: Seq<GroupView>, file: Seq<char>)
    ensures
        match group_of(gs, file) {
            Some(g) => 0 <= g < gs.len() && gs[g].0 == file,
            None => true,
        },
{
    lemma_group_of_bound(gs, file);
}

/// No group is found only when no group has the key.
pub proof fn lemma_group_of_none(gs: Seq<GroupView>, file: Seq<char>)
    ensures
        group_of(gs, file).is_none() ==> forall|k: int| 0 <= k < gs.len() ==> (#[trigger] gs[k]).0 != file,
    decreases gs.len(),
{
    if gs.len() > 0 && gs.last().0 != file {
        lemma_group_of_none(gs.drop_last(), file);
        assert forall|k: int| 0 <= k < gs.len() - 1 implies gs[k] == gs.drop_last()[k] by {}
    }
}

proof fn lemma_group_of_bound(gs: Seq<GroupView>, file: Seq<char>)
    ensures
        match group_of(gs, file) {
            Some(g) => 0 <= g < gs.len() && gs[g].0 == file,
            None => true,
        },
    decreases gs.len(),
{
    if gs.len() > 0 && gs.last().0 != file {
        lemma_group_of_bound(gs.drop_last(), file);
    }
}

/// Sets test scaffolding aside (unless tests are included) and groups the
/// remaining findings by file, files in first-seen order. Returns the
/// number set aside and the groups.
pub fn group_by_file(items: &[UnusedItem], include_tests: bool) -> (r: (usize, Vec<FileGroup>))
    ensures
        r.0 == skipped_upto(items@, include_tests, items@.len() as int),
        group_views(r.1@) == groups_upto(items@, include_tests, items@.len() as int),
{
    let mut skipped: usize = 0;
    let mut groups: Vec<FileGroup> = Vec::new();
    let mut k: usize = 0;
    assert(group_views(groups@) =~= Seq::<GroupView>::empty());
    while k < items.len()
        invariant
            0 <= k <= items@.len(),
            skipped == skipped_upto(items@, include_tests, k as int),
            skipped <= k,
            group_views(groups@) == groups_upto(items@, include_tests, k as int),
        decreases items@.len() - k,
    {
        let item = &items[k];
        if !include_tests && is_test_path(item.file.as_str()) {
            skipped = skipped + 1;
        } else {
            let ghost gv = group_views(groups@);
            proof {
                lemma_group_of_bound(gv, item.file@);
            }
            match find_group(&groups, item.file.as_str()) {
                Some(g) => {
                    let mut grp = groups.remove(g);
                    grp.items.push(k);
                    groups.insert(g, grp);
                    proof {
                        assert(group_views(groups@) =~= gv.update(
                            g as int,
                            (item.file@, gv[g as int].1.push(k)),
                        ));
                    }
                },
                None => {
                    let mut v: Vec<usize> = Vec::new();
                    v.push(k);
                    groups.push(FileGroup { file: crate::text::owned(item.file.as_str()), items: v });
                    proof {
                        assert(group_views(groups@) =~= gv.push((item.file@, seq![k])));
                    }
                },
            }
        }
        k = k + 1;
    }
    (skipped, groups)
}

/// Each finding is counted once: the three counts add up to the number
/// of results.
proof fn lemma_result_counts_sum(rs: Seq<LocatorResult>)
    ensures
        result_counts(rs).0 + result_counts(rs).1 + result_counts(rs).2 == rs.len(),
    decreases rs.len(),
{
    if rs.len() > 0 {
        lemma_result_counts_sum(rs.drop_last());
    }
}

/// The counts of one file's edit never exceed its number of findings.
proof fn lemma_counts_bounded(items: Seq<SourceItem>, bytes: Seq<u8>, requested: Seq<UnusedItem>)
    ensures
        result_counts(located_all(items, bytes, requested)).0 + result_counts(located_all(items, bytes, requested)).1
            + result_counts(located_all(items, bytes, requested)).2 == requested.len(),
{
    lemma_result_counts_sum(located_all(items, bytes, requested));
}

/// `e` is the edit [`apply_file`] makes of `bytes`, whose items are
/// `items`, for the `requested` findings.
pub open spec fn edit_of(e: FileEdit, items: Seq<SourceItem>, bytes: Seq<u8>, requested: Seq<UnusedItem>) -> bool {
    let results = located_all(items, bytes, requested);
    &&& e.deleted == result_counts(results).0
    &&& e.skipped_unsupported == result_counts(results).1
    &&& e.not_found == result_counts(results).2
    &&& match e.new_source {
        Some(b) => e.deleted > 0 && b@ == gaps(bytes, merge_ranges_spec(resolved_ranges(results)), 0),
        None => e.deleted == 0,
    }
}

/// The edit of one file's source text for the `requested` findings: the
/// text is parsed and the findings are located in its items and cut out,
/// as [`apply_file`] does. Should the parser report item ranges that do
/// not nest within the text, nothing is cut and every finding counts as
/// not found.
pub fn edit_source(source: &str, requested: &[UnusedItem]) -> (e: FileEdit)
    ensures
        exists|items: Seq<SourceItem>|
            item_views(items) == parsed_items(source@) && if source.spec_bytes().len() < usize::MAX && well_placed(
                items,
                source.spec_bytes().len() as int,
            ) {
                edit_of(e, items, source.spec_bytes(), requested@)
            } else {
                e.deleted == 0 && e.skipped_unsupported == 0 && e.not_found == requested@.len()
                    && e.new_source is None
            },
{
    let items = parse_items(source);
    let len = source.as_bytes().len();
    if len < usize::MAX && is_well_placed(&items, len) {
        let e = apply_file(&items, source, requested);
        assert(item_views(items@) == parsed_items(source@) && edit_of(e, items@, source.spec_bytes(), requested@));
        e
    } else {
        let e = FileEdit { deleted: 0, skipped_unsupported: 0, not_found: requested.len(), new_source: None };
        assert(item_views(items@) == parsed_items(source@) && !(source.spec_bytes().len() < usize::MAX
            && well_placed(items@, source.spec_bytes().len() as int)));
        e
    }
}

/// Applies the `requested` deletions to one file's source text, folds the
/// edit into `outcome` (a file that lost a declaration counts as touched),
/// and returns the new contents when anything was cut.
pub fn apply_to_file(outcome: &mut Outcome, source: &str, requested: &[UnusedItem]) -> (new_source: Option<Vec<u8>>)
    requires
        old(outcome).deleted + requested@.len() <= usize::MAX,
        old(outcome).touched_files < usize::MAX,
        old(outcome).skipped_unsupported + requested@.len() <= usize::MAX,
        old(outcome).not_found + requested@.len() <= usize::MAX,
    ensures
        exists|e: FileEdit|
            {
                &&& (exists|items: Seq<SourceItem>|
                    item_views(items) == parsed_items(source@) && if source.spec_bytes().len() < usize::MAX
                        && well_placed(items, source.spec_bytes().len() as int) {
                        edit_of(e, items, source.spec_bytes(), requested@)
                    } else {
                        e.deleted == 0 && e.skipped_unsupported == 0 && e.not_found == requested@.len()
                            && e.new_source is None
                    })
                &&& new_source == e.new_source
                &&& final(outcome).deleted == old(outcome).deleted + e.deleted
                &&& final(outcome).touched_files == old(outcome).touched_files + if e.deleted > 0 {
                    1int
                } else {
                    0int
                }
                &&& final(outcome).skipped_test_files == old(outcome).skipped_test_files
                &&& final(outcome).skipped_unsupported == old(outcome).skipped_unsupported + e.skipped_unsupported
                &&& final(outcome).not_found == old(outcome).not_found + e.not_found
            },
{
    let e = edit_source(source, requested);
    proof {
        let items = choose|items: Seq<SourceItem>|
            item_views(items) == parsed_items(source@) && if source.spec_bytes().len() < usize::MAX && well_placed(
                items,
                source.spec_bytes().len() as int,
            ) {
                edit_of(e, items, source.spec_bytes(), requested@)
            } else {
                e.deleted == 0 && e.skipped_unsupported == 0 && e.not_found == requested@.len()
                    && e.new_source is None
            };
        if source.spec_bytes().len() < usize::MAX && well_placed(items, source.spec_bytes().len() as int) {
            lemma_counts_bounded(items, source.spec_bytes(), requested@);
        }
    }
    record_edit(outcome, &e);
    e.new_source
}

/// What the unused scan reports, `--apply` finds: a finding whose kind
/// is the word the scan reports for a declaration's kind (`fn`, `struct`,
/// `enum`, `trait`, `type`, `const`, `static` or `union`) and whose name
/// is the declaration's is located at that declaration's range when the
/// declaration comes first in the file; and a declaration is never
/// matched by the word of another kind.
pub proof fn law_reported_declarations_are_located(
    it: SourceItem,
    rest: Seq<SourceItem>,
    bytes: Seq<u8>,
    finding: UnusedItem,
    other: ItemKind,
)
    requires
        crate::scan::decl_kind_word(it.kind) == Some(finding.kind@),
        has_name(it, finding.name@),
    ensures
        item_located(seq![it] + rest, bytes, finding) == LocatorResult::Resolved(
            item_range(it, bytes).0,
            item_range(it, bytes).1,
        ),
        other != it.kind ==> match crate::scan::decl_kind_word(other) {
            Some(w) => !top_level_kind(it.kind, w),
            None => true,
        },
{
    let items = seq![it] + rest;
    assert(items[0] == it);
    reveal_strlit("fn");
    reveal_strlit("struct");
    reveal_strlit("enum");
    reveal_strlit("trait");
    reveal_strlit("type");
    reveal_strlit("const");
    reveal_strlit("static");
    reveal_strlit("union");
    assert("fn"@.len() != "struct"@.len());
    assert("fn"@.len() != "enum"@.len());
    assert("fn"@.len() != "trait"@.len());
    assert("fn"@.len() != "type"@.len());
    assert("fn"@.len() != "const"@.len());
    assert("fn"@.len() != "static"@.len());
    assert("fn"@.len() != "union"@.len());
    assert("struct"@.len() != "enum"@.len());
    assert("struct"@.len() != "trait"@.len());
    assert("struct"@.len() != "type"@.len());
    assert("struct"@.len() != "const"@.len());
    assert("struct"@[2] != "static"@[2]);
    assert("struct"@.len() != "union"@.len());
    assert("enum"@.len() != "trait"@.len());
    assert("enum"@[0] != "type"@[0]);
    assert("enum"@.len() != "const"@.len());
    assert("enum"@.len() != "static"@.len());
    assert("enum"@.len() != "union"@.len());
    assert("trait"@.len() != "type"@.len());
    assert("trait"@[0] != "const"@[0]);
    assert("trait"@.len() != "static"@.len());
    assert("trait"@[0] != "union"@[0]);
    assert("type"@.len() != "const"@.len());
    assert("type"@.len() != "static"@.len());
    assert("type"@.len() != "union"@.len());
    assert("const"@.len() != "static"@.len());
    assert("const"@[0] != "union"@[0]);
    assert("static"@.len() != "union"@.len());
}

} // verus!
