//! Pure pieces of `cargo rustics analyze`: scope paths, metric lists,
//! timestamps and the exit decision.

use vstd::prelude::*;
use crate::path::{components, first_pos, lemma_first_pos_is, path_components};
use crate::report::Summary;
use crate::rules::{find_metric, str_views};
use crate::text::{
    chars_eq, chars_of, ends_with, is_suffix, join, join_chars, push_str, seqs, split_chars,
    split_on, string_from, trim, trim_chars, owned, str_eq,
};

verus! {

/// The components that follow the first `src` component (none if there is
/// no `src` component).
pub open spec fn after_src(comps: Seq<Seq<char>>) -> Seq<Seq<char>> {
    match first_pos(comps, "src"@) {
        Some(i) => comps.skip(i as int + 1),
        None => Seq::empty(),
    }
}

/// `parts` with a `.rs` suffix removed from its last element.
pub open spec fn strip_rs_last(parts: Seq<Seq<char>>) -> Seq<Seq<char>> {
    if parts.len() > 0 && is_suffix(".rs"@, parts.last()) {
        parts.update(
            parts.len() - 1,
            parts.last().take(parts.last().len() - 3),
        )
    } else {
        parts
    }
}

/// `lib`, `main` and `mod` name their directory's module, not a module
/// of their own.
pub open spec fn is_entry_name(p: Seq<char>) -> bool {
    p == "lib"@ || p == "main"@ || p == "mod"@
}

/// `parts` without a trailing `lib` / `main` / `mod`.
pub open spec fn drop_entry_name(parts: Seq<Seq<char>>) -> Seq<Seq<char>> {
    if parts.len() > 0 && is_entry_name(parts.last()) {
        parts.drop_last()
    } else {
        parts
    }
}

/// The module path of a workspace-relative source file:
/// `crates/foo/src/baz/qux.rs` is `baz::qux`, `src/lib.rs` is empty.
pub open spec fn module_prefix(relative: Seq<char>) -> Seq<char> {
    join(drop_entry_name(strip_rs_last(after_src(path_components(relative)))), "::"@)
}

/// Derives a Rust module path from a workspace-relative source file path.
pub fn file_to_module_prefix(relative: &str) -> (r: String)
    ensures
        r@ == module_prefix(relative@),
{
    let rv = chars_of(relative);
    let comps = components(rv.as_slice());
    let ghost cs = seqs(comps@);
    let src = chars_of("src");
    let mut i: usize = 0;
    while i < comps.len() && !chars_eq(comps[i].as_slice(), src.as_slice())
        invariant
            0 <= i <= comps.len(),
            cs == seqs(comps@),
            src@ == "src"@,
            forall|k: int| 0 <= k < i ==> cs[k] != "src"@,
        decreases comps.len() - i,
    {
        assert(cs[i as int] == comps@[i as int]@);
        i = i + 1;
    }
    proof {
        if i < comps.len() {
            assert(cs[i as int] == comps@[i as int]@);
        }
        lemma_first_pos_is(cs, "src"@, i as int);
    }
    let mut parts: Vec<Vec<char>> = Vec::new();
    if i < comps.len() {
        let mut k = i + 1;
        while k < comps.len()
            invariant
                i < comps.len(),
                i + 1 <= k <= comps.len(),
                cs == seqs(comps@),
                seqs(parts@) == cs.subrange(i + 1, k as int),
            decreases comps.len() - k,
        {
            let ghost p0 = parts@;
            assert(cs[k as int] == comps@[k as int]@);
            parts.push(vstd::slice::slice_to_vec(comps[k].as_slice()));
            assert(seqs(parts@) =~= seqs(p0).push(cs[k as int]));
            assert(cs.subrange(i + 1, k + 1) =~= cs.subrange(i + 1, k as int).push(cs[k as int]));
            k = k + 1;
        }
        assert(cs.subrange(i + 1, comps.len() as int) =~= cs.skip(i + 1));
    } else {
        assert(seqs(parts@) =~= Seq::<Seq<char>>::empty());
    }
    let ghost a = seqs(parts@);
    assert(a == after_src(cs));
    let rs = chars_of(".rs");
    let n = parts.len();
    if n > 0 && ends_with(parts[n - 1].as_slice(), rs.as_slice()) {
        let last_len = parts[n - 1].len();
        assert(rs@ == ".rs"@);
        assert(last_len >= 3) by {
            crate::text::lemma_str_len_3();
        }
        let stripped = vstd::slice::slice_to_vec(
            vstd::slice::slice_subrange(parts[n - 1].as_slice(), 0, last_len - 3),
        );
        parts.set(n - 1, stripped);
        assert(seqs(parts@) =~= strip_rs_last(a));
    } else {
        assert(seqs(parts@) =~= strip_rs_last(a));
    }
    let ghost b = seqs(parts@);
    let n = parts.len();
    if n > 0 {
        let lib = chars_of("lib");
        let main = chars_of("main");
        let modv = chars_of("mod");
        let last = parts[n - 1].as_slice();
        assert(last@ == b.last());
        if chars_eq(last, lib.as_slice()) || chars_eq(last, main.as_slice()) || chars_eq(
            last,
            modv.as_slice(),
        ) {
            parts.pop();
            assert(seqs(parts@) =~= drop_entry_name(b));
        } else {
            assert(seqs(parts@) =~= drop_entry_name(b));
        }
    } else {
        assert(seqs(parts@) =~= drop_entry_name(b));
    }
    let sep = chars_of("::");
    let joined = join_chars(parts.as_slice(), sep.as_slice());
    string_from(joined.as_slice())
}

/// `prefix::inner`, or whichever of the two is non-empty.
pub open spec fn joined_scope(prefix: Seq<char>, inner: Seq<char>) -> Seq<char> {
    if prefix.len() == 0 {
        inner
    } else if inner.len() == 0 {
        prefix
    } else {
        prefix + "::"@ + inner
    }
}

/// Joins a module prefix and an in-file scope path with `::`.
pub fn join_scope(prefix: &str, inner: &str) -> (r: String)
    ensures
        r@ == joined_scope(prefix@, inner@),
{
    let p = chars_of(prefix);
    let q = chars_of(inner);
    if p.len() == 0 {
        string_from(q.as_slice())
    } else if q.len() == 0 {
        string_from(p.as_slice())
    } else {
        let mut s = string_from(p.as_slice());
        push_str(&mut s, "::");
        crate::text::push_chars(&mut s, q.as_slice());
        s
    }
}

/// The non-empty trimmed pieces of one comma-separated value.
pub open spec fn csv_items(v: Seq<char>) -> Seq<Seq<char>> {
    split_on(v, ',').map_values(|p: Seq<char>| trim(p)).filter(|p: Seq<char>| p.len() > 0)
}

/// Every non-empty trimmed comma-separated piece of every value, in order.
pub open spec fn expand_csv_spec(values: Seq<Seq<char>>) -> Seq<Seq<char>>
    decreases values.len(),
{
    if values.len() == 0 {
        Seq::empty()
    } else {
        expand_csv_spec(values.drop_last()) + csv_items(values.last())
    }
}

/// The deep view of a vector of strings.
pub open spec fn strs(v: Seq<String>) -> Seq<Seq<char>> {
    v.map_values(|s: String| s@)
}

/// Trimmed, non-empty pieces of one comma-separated value, appended to `out`.
fn push_csv_items(v: &str, out: &mut Vec<String>)
    ensures
        strs(final(out)@) == strs(old(out)@) + csv_items(v@),
{
    let vv = chars_of(v);
    let pieces = split_chars(vv.as_slice(), ',');
    let ghost ps = split_on(v@, ',');
    let ghost tr = ps.map_values(|p: Seq<char>| trim(p));
    let ghost pred = |p: Seq<char>| p.len() > 0;
    let mut i: usize = 0;
    while i < pieces.len()
        invariant
            0 <= i <= pieces.len(),
            seqs(pieces@) == ps,
            tr == ps.map_values(|p: Seq<char>| trim(p)),
            pred == (|p: Seq<char>| p.len() > 0),
            strs(out@) == strs(old(out)@) + tr.take(i as int).filter(pred),
        decreases pieces.len() - i,
    {
        let t = trim_chars(pieces[i].as_slice());
        proof {
            assert(tr.take(i + 1) =~= tr.take(i as int).push(tr[i as int]));
            tr.take(i as int).lemma_filter_push(tr[i as int], pred);
            assert(tr[i as int] == t@);
        }
        if t.len() > 0 {
            let ghost o0 = out@;
            out.push(string_from(t.as_slice()));
            assert(strs(out@) =~= strs(o0).push(t@));
        }
        i = i + 1;
    }
    assert(tr.take(i as int) =~= tr);
}

/// Splits repeated comma-separated CLI values into trimmed, non-empty ids.
pub fn expand_csv(values: &[String]) -> (out: Vec<String>)
    ensures
        strs(out@) == expand_csv_spec(strs(values@)),
{
    let mut out: Vec<String> = Vec::new();
    let mut i: usize = 0;
    while i < values.len()
        invariant
            0 <= i <= values.len(),
            strs(out@) == expand_csv_spec(strs(values@.take(i as int))),
        decreases values.len() - i,
    {
        proof {
            let t = strs(values@.take(i + 1));
            assert(t.drop_last() =~= strs(values@.take(i as int)));
            assert(t.last() == values@[i as int]@);
        }
        push_csv_items(values[i].as_str(), &mut out);
        i = i + 1;
    }
    assert(values@.take(i as int) =~= values@);
    out
}

/// Whether `s` is among `ds`.
pub fn is_among(ds: &[String], s: &str) -> (b: bool)
    ensures
        b == strs(ds@).contains(s@),
{
    let mut i: usize = 0;
    while i < ds.len()
        invariant
            0 <= i <= ds@.len(),
            forall|j: int| 0 <= j < i ==> strs(ds@)[j] != s@,
        decreases ds@.len() - i,
    {
        if str_eq(ds[i].as_str(), s) {
            assert(strs(ds@)[i as int] == s@);
            return true;
        }
        i = i + 1;
    }
    proof {
        if strs(ds@).contains(s@) {
            let j = choose|j: int| 0 <= j < strs(ds@).len() && strs(ds@)[j] == s@;
            assert(strs(ds@)[j] != s@);
        }
    }
    false
}

/// The error for a lens id that the catalogue lacks.
pub open spec fn unknown_metric_message(id: Seq<char>) -> Seq<char> {
    "unknown metric id `"@ + id + "`; run `cargo rustics rules` for the catalogue"@
}

/// Whether a lens is run: it is included (every lens is, when no
/// wanted list is given) and not excluded.
pub open spec fn is_picked(id: Seq<char>, wanted: Seq<Seq<char>>, unwanted: Seq<Seq<char>>) -> bool {
    (wanted.len() == 0 || wanted.contains(id)) && !unwanted.contains(id)
}

/// The positions, in catalogue order, of the lenses that are run.
pub open spec fn picked_positions(known: Seq<Seq<char>>, wanted: Seq<Seq<char>>, unwanted: Seq<Seq<char>>) -> Seq<int>
    decreases known.len(),
{
    if known.len() == 0 {
        Seq::empty()
    } else {
        let prev = picked_positions(known.drop_last(), wanted, unwanted);
        if is_picked(known.last(), wanted, unwanted) {
            prev.push(known.len() - 1)
        } else {
            prev
        }
    }
}

/// Checks that every id is in the catalogue `known`; the error names the
/// first id that is not.
fn check_known(known: &[&str], ids: &[String]) -> (r: Result<(), String>)
    ensures
        match r {
            Ok(_) => forall|j: int| 0 <= j < ids@.len() ==> str_views(known@).contains(#[trigger] strs(ids@)[j]),
            Err(m) => exists|j: int|
                0 <= j < ids@.len() && !str_views(known@).contains(strs(ids@)[j]) && (forall|k: int|
                    0 <= k < j ==> str_views(known@).contains(#[trigger] strs(ids@)[k])) && m@ == unknown_metric_message(
                    strs(ids@)[j],
                ),
        },
{
    let ghost kv = str_views(known@);
    let mut j: usize = 0;
    while j < ids.len()
        invariant
            kv == str_views(known@),
            0 <= j <= ids@.len(),
            forall|k: int| 0 <= k < j ==> kv.contains(#[trigger] strs(ids@)[k]),
        decreases ids@.len() - j,
    {
        let id: &str = ids[j].as_str();
        assert(id@ == strs(ids@)[j as int]);
        match find_metric(known, id) {
            Ok(p) => {
                assert(kv[p as int] == strs(ids@)[j as int]);
            },
            Err(_) => {
                proof {
                    if kv.contains(strs(ids@)[j as int]) {
                        let q = choose|q: int| 0 <= q < kv.len() && kv[q] == strs(ids@)[j as int];
                        assert(known@[q]@ == id@);
                    }
                }
                let mut m = owned("unknown metric id `");
                push_str(&mut m, id);
                push_str(&mut m, "`; run `cargo rustics rules` for the catalogue");
                return Err(m);
            },
        }
        j = j + 1;
    }
    Ok(())
}

/// Selects the lenses to run from the catalogue `known` by the repeated
/// comma-separated `--include-metrics` and `--exclude-metrics` values:
/// the positions of the picked lenses in catalogue order, or, when an
/// id named in either list (the wanted ones first) is not in the
/// catalogue, the error for the first such id.
pub fn pick_metrics(known: &[&str], wanted_metrics: &[String], unwanted_metrics: &[String]) -> (r: Result<Vec<usize>, String>)
    ensures
        ({
            let kv = str_views(known@);
            let inc = expand_csv_spec(strs(wanted_metrics@));
            let ex = expand_csv_spec(strs(unwanted_metrics@));
            let ids = inc + ex;
            match r {
                Ok(ps) => (forall|j: int| 0 <= j < ids.len() ==> kv.contains(#[trigger] ids[j]))
                    && ps@.map_values(|p: usize| p as int) == picked_positions(kv, inc, ex),
                Err(m) => exists|j: int|
                    0 <= j < ids.len() && !kv.contains(ids[j]) && (forall|k: int| 0 <= k < j ==> kv.contains(#[trigger] ids[k]))
                        && m@ == unknown_metric_message(ids[j]),
            }
        }),
{
    let ghost kv = str_views(known@);
    let wanted = expand_csv(wanted_metrics);
    let unwanted = expand_csv(unwanted_metrics);
    let ghost inc = strs(wanted@);
    let ghost ex = strs(unwanted@);
    let ghost ids = inc + ex;
    match check_known(known, wanted.as_slice()) {
        Ok(_) => {},
        Err(m) => {
            proof {
                let j = choose|j: int|
                    0 <= j < wanted@.len() && !kv.contains(strs(wanted@)[j]) && (forall|k: int|
                        0 <= k < j ==> kv.contains(#[trigger] strs(wanted@)[k])) && m@ == unknown_metric_message(strs(wanted@)[j]);
                assert(ids[j] == inc[j]);
                assert forall|k: int| 0 <= k < j implies kv.contains(#[trigger] ids[k]) by {
                    assert(ids[k] == inc[k]);
                    assert(kv.contains(strs(wanted@)[k]));
                }
            }
            return Err(m);
        },
    }
    match check_known(known, unwanted.as_slice()) {
        Ok(_) => {},
        Err(m) => {
            proof {
                let j = choose|j: int|
                    0 <= j < unwanted@.len() && !kv.contains(strs(unwanted@)[j]) && (forall|k: int|
                        0 <= k < j ==> kv.contains(#[trigger] strs(unwanted@)[k])) && m@ == unknown_metric_message(strs(unwanted@)[j]);
                let jj = inc.len() + j;
                assert(ids[jj] == ex[j]);
                assert forall|k: int| 0 <= k < jj implies kv.contains(#[trigger] ids[k]) by {
                    if k < inc.len() {
                        assert(ids[k] == inc[k]);
                        assert(kv.contains(strs(wanted@)[k]));
                    } else {
                        assert(ids[k] == ex[k - inc.len()]);
                        assert(kv.contains(strs(unwanted@)[k - inc.len()]));
                    }
                }
            }
            return Err(m);
        },
    }
    proof {
        assert forall|k: int| 0 <= k < ids.len() implies kv.contains(#[trigger] ids[k]) by {
            if k < inc.len() {
                assert(ids[k] == inc[k]);
                assert(kv.contains(strs(wanted@)[k]));
            } else {
                assert(ids[k] == ex[k - inc.len()]);
                assert(kv.contains(strs(unwanted@)[k - inc.len()]));
            }
        }
    }
    let mut ps: Vec<usize> = Vec::new();
    let mut i: usize = 0;
    while i < known.len()
        invariant
            0 <= i <= known@.len(),
            inc == strs(wanted@),
            ex == strs(unwanted@),
            kv == str_views(known@),
            ps@.map_values(|p: usize| p as int) == picked_positions(kv.take(i as int), inc, ex),
        decreases known@.len() - i,
    {
        proof {
            let t = kv.take(i + 1);
            assert(t.drop_last() =~= kv.take(i as int));
            assert(t.last() == known@[i as int]@);
        }
        let picked = (wanted.len() == 0 || is_among(wanted.as_slice(), known[i])) && !is_among(unwanted.as_slice(), known[i]);
        if picked {
            let ghost before = ps@;
            ps.push(i);
            assert(ps@.map_values(|p: usize| p as int) =~= before.map_values(|p: usize| p as int).push(i as int));
        }
        i = i + 1;
    }
    assert(kv.take(i as int) =~= kv);
    Ok(ps)
}

/// Owned copies of static strings.
pub fn collect_strings(items: &[&str]) -> (out: Vec<String>)
    ensures
        out@.len() == items@.len(),
        forall|i: int| 0 <= i < items@.len() ==> (#[trigger] out@[i])@ == items@[i]@,
{
    let mut out: Vec<String> = Vec::new();
    let mut i: usize = 0;
    while i < items.len()
        invariant
            0 <= i <= items.len(),
            out@.len() == i,
            forall|k: int| 0 <= k < i ==> (#[trigger] out@[k])@ == items@[k]@,
        decreases items.len() - i,
    {
        out.push(crate::text::owned(items[i]));
        i = i + 1;
    }
    out
}

/// Whether a `--limit` cuts the list: there is a limit and more entries
/// than it.
pub open spec fn limit_cuts(len: nat, limit: Option<usize>) -> bool {
    match limit {
        Some(l) => len > l,
        None => false,
    }
}

/// Truncates `items` to `--limit` entries. When that drops some, returns
/// how many, for the report's `truncated` count; otherwise the list is
/// left as it is and nothing is returned.
pub fn apply_limit<T>(items: &mut Vec<T>, limit: Option<usize>) -> (dropped: Option<usize>)
    ensures
        limit_cuts(old(items)@.len(), limit) ==> final(items)@ == old(items)@.take(limit->0 as int)
            && dropped == Some((old(items)@.len() - limit->0) as usize),
        !limit_cuts(old(items)@.len(), limit) ==> final(items)@ == old(items)@ && dropped is None,
{
    match limit {
        Some(l) => {
            if items.len() > l {
                let dropped = items.len() - l;
                items.truncate(l);
                Some(dropped)
            } else {
                None
            }
        },
        None => None,
    }
}

/// Exit code of `analyze`: `1` when any error-severity violation remains,
/// or when warnings remain and `--fatal-warnings` is set; `0` otherwise.
pub fn decide_exit(summary: &Summary, fatal_warnings: bool) -> (code: u8)
    ensures
        code == (if summary.errors > 0 || (fatal_warnings && summary.warnings > 0) {
            1u8
        } else {
            0u8
        }),
{
    if summary.errors > 0 {
        return 1;
    }
    if fatal_warnings && summary.warnings > 0 {
        return 1;
    }
    0
}

} // verus!
