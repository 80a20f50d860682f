//! `cargo rustics regression` — diffing two reports.
//!
//! Violations are matched by id into five buckets: `removed` (before
//! only), `added` (after only), and, for ids on both sides, `improved`,
//! `regressed` or `unchanged` by the lens's polarity. A one-word verdict
//! summarises the diff, and a cosmetic-refactor heuristic reads the
//! per-scope measurements of both snapshots.

use vstd::prelude::*;
use crate::analyze::strs;
use crate::discover::{lemma_lex_irreflexive, lemma_lex_total, lemma_lex_transitive, lex_less, lex_lt};
use crate::report::Summary;
use crate::rules::Polarity;
use crate::text::{chars_of, str_eq};

verus! {

/// One-word verdict produced from [`DiffCounts`].
#[derive(Debug, Clone, Copy, PartialEq, Eq, Structural)]
pub enum Verdict {
    /// Both snapshots had no violations.
    Clean,
    /// Net improvement — issues went away, no new ones.
    Improved,
    /// Net regression — new issues, none resolved.
    Regressed,
    /// Some improved, some regressed.
    Mixed,
    /// Same set of violations on both sides.
    Unchanged,
}

/// Headline counts of the diff.
#[derive(Debug, Clone, Copy, PartialEq, Eq, Structural)]
pub struct DiffCounts {
    /// Id in both, value got better.
    pub improved: usize,
    /// Id in both, value got worse.
    pub regressed: usize,
    /// Id in both, value equal.
    pub unchanged: usize,
    /// Id in after only.
    pub added: usize,
    /// Id in before only.
    pub removed: usize,
}

/// Summary of one side of a regression diff.
#[derive(Debug)]
pub struct SnapshotSummary {
    /// Timestamp the snapshot was generated.
    pub generated_at: String,
    /// Total violation count in the snapshot.
    pub violations: usize,
    /// Warning-severity count.
    pub warnings: usize,
    /// Error-severity count.
    pub errors: usize,
}

/// Raw signals of the cosmetic-refactor check.
#[derive(Debug, Clone, Copy, PartialEq, Eq, Structural)]
pub struct CosmeticSignals {
    /// Functions present in `after` but not in `before`.
    pub helpers_added: i64,
    /// Total SLOC change across the repository.
    pub sloc_delta: i64,
    /// Reduction in summed cyclomatic complexity (positive = better).
    pub cc_reduction: i64,
    /// Net new clone calls.
    pub clones_added: i64,
    /// Net new lines inside `unsafe` blocks.
    pub unsafe_blocks_added: i64,
    /// Net new `impl Trait` occurrences in signatures.
    pub impl_trait_added: i64,
    /// Net new `dyn Trait` occurrences in signatures.
    pub dyn_added: i64,
}

impl Default for CosmeticSignals {
    fn default() -> (s: Self)
        ensures
            no_signals(s),
    {
        CosmeticSignals {
            helpers_added: 0,
            sloc_delta: 0,
            cc_reduction: 0,
            clones_added: 0,
            unsafe_blocks_added: 0,
            impl_trait_added: 0,
            dyn_added: 0,
        }
    }
}

/// One-word verdict for the cosmetic check.
#[derive(Debug, Clone, Copy, PartialEq, Eq, Structural)]
pub enum CosmeticVerdict {
    /// No signals fire; nothing changed.
    Clean,
    /// Helpers added, SLOC grew, complexity barely dropped.
    LikelyCosmetic,
    /// Some signals fire but the picture is mixed.
    Mixed,
}

/// Signal table and verdict of the cosmetic check.
#[derive(Debug, Clone, Copy)]
pub struct CosmeticAnalysis {
    /// Per-axis numeric signals.
    pub signals: CosmeticSignals,
    /// One-word verdict from the heuristic.
    pub verdict: CosmeticVerdict,
}

/// The verdict a diff earns: resolved issues (improved or removed) count
/// for it, new ones (regressed or added) against it.
pub open spec fn verdict_spec(d: DiffCounts) -> Verdict {
    let better = d.improved + d.removed > 0;
    let worse = d.regressed + d.added > 0;
    if !better && !worse {
        if d.unchanged == 0 {
            Verdict::Clean
        } else {
            Verdict::Unchanged
        }
    } else if better && !worse {
        Verdict::Improved
    } else if !better && worse {
        Verdict::Regressed
    } else {
        Verdict::Mixed
    }
}

/// Summarises a diff in one word.
pub fn verdict_for(diff: &DiffCounts) -> (v: Verdict)
    ensures
        v == verdict_spec(*diff),
{
    let better = diff.improved > 0 || diff.removed > 0;
    let worse = diff.regressed > 0 || diff.added > 0;
    if !better && !worse {
        if diff.unchanged == 0 {
            Verdict::Clean
        } else {
            Verdict::Unchanged
        }
    } else if better && !worse {
        Verdict::Improved
    } else if !better && worse {
        Verdict::Regressed
    } else {
        Verdict::Mixed
    }
}

/// The word a verdict is rendered as.
pub open spec fn verdict_word_spec(v: Verdict) -> Seq<char> {
    match v {
        Verdict::Clean => "clean"@,
        Verdict::Improved => "improved"@,
        Verdict::Regressed => "regressed"@,
        Verdict::Mixed => "mixed"@,
        Verdict::Unchanged => "unchanged"@,
    }
}

/// The kebab-case word for a verdict.
pub fn verdict_word(v: Verdict) -> (w: &'static str)
    ensures
        w@ == verdict_word_spec(v),
{
    match v {
        Verdict::Clean => "clean",
        Verdict::Improved => "improved",
        Verdict::Regressed => "regressed",
        Verdict::Mixed => "mixed",
        Verdict::Unchanged => "unchanged",
    }
}

/// Exit code of `regression`: `1` when the verdict is `regressed` or
/// `mixed` and `--fatal-regressions` is set, `0` otherwise.
pub fn regression_exit(verdict: Verdict, fatal: bool) -> (code: u8)
    ensures
        code == (if fatal && (verdict == Verdict::Regressed || verdict == Verdict::Mixed) {
            1u8
        } else {
            0u8
        }),
{
    let regressed = match verdict {
        Verdict::Regressed | Verdict::Mixed => true,
        _ => false,
    };
    if regressed && fatal {
        1
    } else {
        0
    }
}

/// Every signal is zero.
pub open spec fn no_signals(s: CosmeticSignals) -> bool {
    s.helpers_added == 0 && s.sloc_delta == 0 && s.cc_reduction == 0 && s.clones_added == 0
        && s.unsafe_blocks_added == 0 && s.impl_trait_added == 0 && s.dyn_added == 0
}

/// At least three helpers were added, SLOC grew by more than four lines
/// per helper, and complexity dropped by less than two per helper.
pub open spec fn likely_cosmetic(s: CosmeticSignals) -> bool {
    let h = s.helpers_added as int;
    h >= 3 && s.sloc_delta > 4 * h && s.cc_reduction < 2 * h
}

/// The verdict of the cosmetic heuristic.
pub open spec fn cosmetic_verdict_spec(s: CosmeticSignals) -> CosmeticVerdict {
    if no_signals(s) {
        CosmeticVerdict::Clean
    } else if likely_cosmetic(s) {
        CosmeticVerdict::LikelyCosmetic
    } else {
        CosmeticVerdict::Mixed
    }
}

/// Whether no signal fired.
pub fn no_signals_fired(s: &CosmeticSignals) -> (b: bool)
    ensures
        b == no_signals(*s),
{
    s.helpers_added == 0 && s.sloc_delta == 0 && s.cc_reduction == 0 && s.clones_added == 0
        && s.unsafe_blocks_added == 0 && s.impl_trait_added == 0 && s.dyn_added == 0
}

/// Whether the signals look like a cosmetic refactor.
pub fn matches_likely_cosmetic(s: &CosmeticSignals) -> (b: bool)
    requires
        s.helpers_added <= i64::MAX / 4,
    ensures
        b == likely_cosmetic(*s),
{
    let helpers = s.helpers_added;
    helpers >= 3 && s.sloc_delta > 4 * helpers && s.cc_reduction < 2 * helpers
}

/// The cosmetic-refactor verdict for a signal table.
pub fn cosmetic_verdict(s: &CosmeticSignals) -> (v: CosmeticVerdict)
    requires
        s.helpers_added <= i64::MAX / 4,
    ensures
        v == cosmetic_verdict_spec(*s),
{
    if no_signals_fired(s) {
        CosmeticVerdict::Clean
    } else if matches_likely_cosmetic(s) {
        CosmeticVerdict::LikelyCosmetic
    } else {
        CosmeticVerdict::Mixed
    }
}

/// The scope half of a per-scope measurement: which lens measured which
/// scope of which file.
#[derive(Debug)]
pub struct ScopeKey {
    /// Workspace-relative path.
    pub file: String,
    /// `module::Type::method` scope path.
    pub scope: String,
    /// Lens id.
    pub metric: String,
}

/// The `(file, scope)` pairs that cyclomatic complexity measured: the
/// functions of a snapshot.
pub open spec fn function_scopes(keys: Seq<ScopeKey>) -> Set<(Seq<char>, Seq<char>)> {
    Set::new(
        |p: (Seq<char>, Seq<char>)|
            exists|i: int|
                0 <= i < keys.len() && (#[trigger] keys[i]).metric@ == "cyclomatic-complexity"@
                    && keys[i].file@ == p.0 && keys[i].scope@ == p.1,
    )
}

/// Whether `keys` holds a cyclomatic-complexity measurement of
/// `(file, scope)`.
fn has_function(keys: &[ScopeKey], file: &str, scope: &str) -> (b: bool)
    ensures
        b == function_scopes(keys@).contains((file@, scope@)),
{
    let mut i: usize = 0;
    while i < keys.len()
        invariant
            0 <= i <= keys@.len(),
            forall|k: int|
                0 <= k < i ==> !((#[trigger] keys@[k]).metric@ == "cyclomatic-complexity"@
                    && keys@[k].file@ == file@ && keys@[k].scope@ == scope@),
        decreases keys@.len() - i,
    {
        let k = &keys[i];
        if str_eq(k.metric.as_str(), "cyclomatic-complexity") && str_eq(k.file.as_str(), file)
            && str_eq(k.scope.as_str(), scope) {
            return true;
        }
        i = i + 1;
    }
    false
}

/// The function scopes of `after[..i]` that `before` lacks.
pub open spec fn fresh_upto(after: Seq<ScopeKey>, before: Seq<ScopeKey>, i: int) -> Set<(Seq<char>, Seq<char>)> {
    Set::new(
        |p: (Seq<char>, Seq<char>)|
            !function_scopes(before).contains(p) && exists|k: int|
                0 <= k < i && (#[trigger] after[k]).metric@ == "cyclomatic-complexity"@
                    && after[k].file@ == p.0 && after[k].scope@ == p.1,
    )
}

/// The `(file, scope)` views of a list of pairs.
pub open spec fn pair_views(v: Seq<(String, String)>) -> Seq<(Seq<char>, Seq<char>)> {
    v.map_values(|p: (String, String)| (p.0@, p.1@))
}

/// Number of functions present in `after` but absent in `before`,
/// matched by `(file, scope)`.
pub fn helpers_added(before: &[ScopeKey], after: &[ScopeKey]) -> (n: i64)
    ensures
        n == (function_scopes(after@).difference(function_scopes(before@)).len() as i64),
{
    let mut seen: Vec<(String, String)> = Vec::new();
    let mut i: usize = 0;
    proof {
        assert(pair_views(seen@).to_set() =~= fresh_upto(after@, before@, 0));
    }
    while i < after.len()
        invariant
            0 <= i <= after@.len(),
            pair_views(seen@).no_duplicates(),
            pair_views(seen@).to_set() == fresh_upto(after@, before@, i as int),
        decreases after@.len() - i,
    {
        let ghost sv = pair_views(seen@);
        let k = &after[i];
        let ghost key = (k.file@, k.scope@);
        let is_fn = str_eq(k.metric.as_str(), "cyclomatic-complexity");
        let in_before = has_function(before, k.file.as_str(), k.scope.as_str());
        let already = seen_pair(&seen, k.file.as_str(), k.scope.as_str());
        let fresh = is_fn && !in_before && !already;
        if fresh {
            seen.push((crate::text::owned(k.file.as_str()), crate::text::owned(k.scope.as_str())));
        }
        proof {
            let nv = pair_views(seen@);
            assert(after@[i as int] == *k);
            if fresh {
                assert(nv =~= sv.push(key));
                sv.lemma_push_to_set_commute(key);
                assert forall|a: int, b: int| 0 <= a < b < nv.len() implies nv[a] != nv[b] by {
                    if b == sv.len() {
                        assert(nv[a] == sv[a]);
                        assert(sv.contains(sv[a]));
                    }
                }
            } else {
                assert(nv =~= sv);
            }
            assert forall|p: (Seq<char>, Seq<char>)|
                #[trigger] fresh_upto(after@, before@, i + 1).contains(p) <==> (fresh_upto(
                    after@,
                    before@,
                    i as int,
                ).contains(p) || (is_fn && !in_before && p == key)) by {
                if fresh_upto(after@, before@, i + 1).contains(p) {
                    let j = choose|j: int|
                        0 <= j < i + 1 && (#[trigger] after@[j]).metric@ == "cyclomatic-complexity"@
                            && after@[j].file@ == p.0 && after@[j].scope@ == p.1;
                    if j < i {
                        assert(fresh_upto(after@, before@, i as int).contains(p));
                    }
                }
                if fresh_upto(after@, before@, i as int).contains(p) {
                    let j = choose|j: int|
                        0 <= j < i && (#[trigger] after@[j]).metric@ == "cyclomatic-complexity"@
                            && after@[j].file@ == p.0 && after@[j].scope@ == p.1;
                    assert(fresh_upto(after@, before@, i + 1).contains(p));
                }
            }
            assert(nv.to_set() =~= fresh_upto(after@, before@, i + 1));
        }
        i = i + 1;
    }
    proof {
        let sv = pair_views(seen@);
        sv.unique_seq_to_set();
        assert(fresh_upto(after@, before@, i as int) =~= function_scopes(after@).difference(
            function_scopes(before@),
        ));
    }
    seen.len() as i64
}

/// Whether `(file, scope)` is already in `seen`.
fn seen_pair(seen: &Vec<(String, String)>, file: &str, scope: &str) -> (b: bool)
    ensures
        b == pair_views(seen@).contains((file@, scope@)),
{
    let ghost sv = pair_views(seen@);
    let mut i: usize = 0;
    while i < seen.len()
        invariant
            0 <= i <= seen@.len(),
            sv == pair_views(seen@),
            forall|k: int| 0 <= k < i ==> sv[k] != (file@, scope@),
        decreases seen@.len() - i,
    {
        if str_eq(seen[i].0.as_str(), file) && str_eq(seen[i].1.as_str(), scope) {
            assert(sv[i as int] == (file@, scope@));
            return true;
        }
        i = i + 1;
    }
    false
}

// ----------------------------------------------------------------------
// Matching violations by id
// ----------------------------------------------------------------------

/// `k` is the last position of its id in `ids`: a later violation with
/// the same id replaces an earlier one, as in a map keyed by id.
pub open spec fn last_at(ids: Seq<Seq<char>>, k: int) -> bool {
    0 <= k < ids.len() && forall|j: int| k < j < ids.len() ==> ids[j] != ids[k]
}

/// The positions `idx` point into `ids` and their ids increase strictly.
pub open spec fn sorted_by_id(ids: Seq<Seq<char>>, idx: Seq<usize>) -> bool {
    &&& forall|a: int| 0 <= a < idx.len() ==> (#[trigger] idx[a]) < ids.len()
    &&& forall|a: int, b: int|
        0 <= a < b < idx.len() ==> lex_lt(ids[#[trigger] idx[a] as int], ids[#[trigger] idx[b] as int])
}

/// Positions of the violations on each side of a diff, bucketed by id and
/// ordered by id.
#[derive(Debug)]
pub struct IdDiff {
    /// For each id on both sides: its position in `before` and in `after`.
    pub both: Vec<(usize, usize)>,
    /// Position in `after` of each id that only `after` has.
    pub added: Vec<usize>,
    /// Position in `before` of each id that only `before` has.
    pub removed: Vec<usize>,
}

/// Whether `k` is the last position of its id.
fn is_last(ids: &[String], k: usize) -> (b: bool)
    requires
        k < ids@.len(),
    ensures
        b == last_at(strs(ids@), k as int),
{
    let ghost v = strs(ids@);
    let n = ids.len();
    let mut j: usize = k + 1;
    while j < n
        invariant
            k < j <= ids@.len(),
            n == ids@.len(),
            v == strs(ids@),
            forall|t: int| k < t < j ==> v[t] != v[k as int],
        decreases ids@.len() - j,
    {
        if str_eq(ids[j].as_str(), ids[k].as_str()) {
            assert(v[j as int] == v[k as int]);
            return false;
        }
        j = j + 1;
    }
    true
}

/// The last position of `id` in `ids`, if any.
fn last_position(ids: &[String], id: &str) -> (r: Option<usize>)
    ensures
        match r {
            Some(k) => last_at(strs(ids@), k as int) && strs(ids@)[k as int] == id@,
            None => !strs(ids@).contains(id@),
        },
{
    let ghost v = strs(ids@);
    let mut j: usize = ids.len();
    while j > 0
        invariant
            0 <= j <= ids@.len(),
            v == strs(ids@),
            forall|t: int| j <= t < ids@.len() ==> v[t] != id@,
        decreases j,
    {
        if str_eq(ids[j - 1].as_str(), id) {
            return Some(j - 1);
        }
        j = j - 1;
    }
    proof {
        if v.contains(id@) {
            let t = choose|t: int| 0 <= t < v.len() && v[t] == id@;
            assert(v[t] != id@);
        }
    }
    None
}

/// Whether `ids[k]` sorts strictly before `ids[m]`.
fn id_less(ids: &[String], k: usize, m: usize) -> (b: bool)
    requires
        k < ids@.len(),
        m < ids@.len(),
    ensures
        b == lex_lt(strs(ids@)[k as int], strs(ids@)[m as int]),
{
    let a = chars_of(ids[k].as_str());
    let c = chars_of(ids[m].as_str());
    lex_less(a.as_slice(), c.as_slice())
}

/// Inserts position `k` into `out`, keeping it strictly ordered by id.
pub(crate) fn insert_by_id(out: &mut Vec<usize>, k: usize, ids: &[String])
    requires
        k < ids@.len(),
        sorted_by_id(strs(ids@), old(out)@),
        forall|a: int|
            0 <= a < old(out)@.len() ==> strs(ids@)[#[trigger] old(out)@[a] as int] != strs(
                ids@,
            )[k as int],
    ensures
        sorted_by_id(strs(ids@), final(out)@),
        final(out)@.len() == old(out)@.len() + 1,
        forall|x: usize| final(out)@.contains(x) <==> (old(out)@.contains(x) || x == k),
{
    let ghost v = strs(ids@);
    let ghost o = out@;
    let ghost key = v[k as int];
    let mut j: usize = out.len();
    while j > 0 && id_less(ids, k, out[j - 1])
        invariant
            0 <= j <= o.len(),
            out@ == o,
            v == strs(ids@),
            key == v[k as int],
            k < ids@.len(),
            sorted_by_id(v, o),
            forall|t: int| j <= t < o.len() ==> lex_lt(key, v[#[trigger] o[t] as int]),
        decreases j,
    {
        j = j - 1;
    }
    proof {
        if j > 0 {
            let prev = v[o[j - 1] as int];
            assert(prev != key);
            lemma_lex_total(prev, key);
            assert(lex_lt(prev, key));
            assert forall|t: int| 0 <= t < j implies lex_lt(v[#[trigger] o[t] as int], key) by {
                if t < j - 1 {
                    lemma_lex_transitive(v[o[t] as int], prev, key);
                }
            }
        }
    }
    out.insert(j, k);
    proof {
        let n = out@;
        assert(n =~= o.insert(j as int, k));
        assert forall|a: int, b: int| 0 <= a < b < n.len() implies lex_lt(
            v[#[trigger] n[a] as int],
            v[#[trigger] n[b] as int],
        ) by {
            if b < j {
                assert(n[a] == o[a] && n[b] == o[b]);
            } else if b == j {
                assert(n[a] == o[a]);
            } else if a == j {
                assert(n[b] == o[b - 1]);
            } else if a < j {
                assert(n[a] == o[a] && n[b] == o[b - 1]);
            } else {
                assert(n[a] == o[a - 1] && n[b] == o[b - 1]);
            }
        }
        assert forall|x: usize| n.contains(x) <==> (o.contains(x) || x == k) by {
            if n.contains(x) {
                let t = choose|t: int| 0 <= t < n.len() && n[t] == x;
                if t < j {
                    assert(o[t] == x);
                } else if t > j {
                    assert(o[t - 1] == x);
                }
            }
            if o.contains(x) {
                let t = choose|t: int| 0 <= t < o.len() && o[t] == x;
                if t < j {
                    assert(n[t] == x);
                } else {
                    assert(n[t + 1] == x);
                }
            }
            if x == k {
                assert(n[j as int] == k);
            }
        }
    }
}

/// The ids at the given positions.
pub open spec fn ids_at(ids: Seq<Seq<char>>, idx: Seq<usize>) -> Set<Seq<char>> {
    Set::new(|id: Seq<char>| exists|i: int| 0 <= i < idx.len() && ids[#[trigger] idx[i] as int] == id)
}

/// Every id of a list has a last position.
pub proof fn lemma_last_exists(ids: Seq<Seq<char>>, id: Seq<char>)
    requires
        ids.contains(id),
    ensures
        exists|k: int| last_at(ids, k) && ids[k] == id,
    decreases ids.len(),
{
    if ids.last() == id {
        assert(last_at(ids, ids.len() - 1));
    } else {
        let k0 = choose|k: int| 0 <= k < ids.len() && ids[k] == id;
        assert(ids.drop_last()[k0] == id);
        lemma_last_exists(ids.drop_last(), id);
        let k = choose|k: int| last_at(ids.drop_last(), k) && ids.drop_last()[k] == id;
        assert(ids[k] == id);
        assert forall|j: int| k < j < ids.len() implies ids[j] != ids[k] by {
            if j < ids.len() - 1 {
                assert(ids.drop_last()[j] == ids[j]);
            }
        }
        assert(last_at(ids, k));
    }
}

/// Whatever [`diff_ids`] returns, every id of `before` lands in exactly
/// one of `removed` and `both`, every id of `after` in exactly one of
/// `added` and `both`, and `both` names the same ids on either side: the
/// buckets partition the ids of the two reports.
pub proof fn law_buckets_partition(before: Seq<Seq<char>>, after: Seq<Seq<char>>, d: IdDiff)
    requires
        before.len() <= usize::MAX,
        after.len() <= usize::MAX,
        forall|i: int|
            0 <= i < d.removed@.len() ==> last_at(before, #[trigger] d.removed@[i] as int)
                && !after.contains(before[d.removed@[i] as int]),
        forall|k: int|
            last_at(before, k) && !after.contains(#[trigger] before[k]) ==> d.removed@.contains(
                k as usize,
            ),
        forall|i: int|
            0 <= i < d.added@.len() ==> last_at(after, #[trigger] d.added@[i] as int)
                && !before.contains(after[d.added@[i] as int]),
        forall|k: int|
            last_at(after, k) && !before.contains(#[trigger] after[k]) ==> d.added@.contains(
                k as usize,
            ),
        forall|i: int|
            0 <= i < d.both@.len() ==> last_at(before, (#[trigger] d.both@[i]).0 as int) && last_at(
                after,
                d.both@[i].1 as int,
            ) && before[d.both@[i].0 as int] == after[d.both@[i].1 as int],
        forall|k: int|
            last_at(before, k) && after.contains(#[trigger] before[k]) ==> d.both@.map_values(
                |p: (usize, usize)| p.0,
            ).contains(k as usize),
    ensures
        ids_at(before, d.removed@) + ids_at(before, d.both@.map_values(|p: (usize, usize)| p.0))
            == before.to_set(),
        ids_at(after, d.added@) + ids_at(after, d.both@.map_values(|p: (usize, usize)| p.1))
            == after.to_set(),
        ids_at(before, d.both@.map_values(|p: (usize, usize)| p.0)) == ids_at(
            after,
            d.both@.map_values(|p: (usize, usize)| p.1),
        ),
        ids_at(before, d.removed@).disjoint(
            ids_at(before, d.both@.map_values(|p: (usize, usize)| p.0)),
        ),
        ids_at(after, d.added@).disjoint(ids_at(after, d.both@.map_values(|p: (usize, usize)| p.1))),
        ids_at(before, d.removed@).disjoint(ids_at(after, d.added@)),
{
    let b0 = d.both@.map_values(|p: (usize, usize)| p.0);
    let b1 = d.both@.map_values(|p: (usize, usize)| p.1);
    assert forall|id: Seq<char>| before.to_set().contains(id) implies (ids_at(before, d.removed@)
        + ids_at(before, b0)).contains(id) by {
        lemma_last_exists(before, id);
        let k = choose|k: int| last_at(before, k) && before[k] == id;
        if after.contains(id) {
            assert(b0.contains(k as usize));
            let i = choose|i: int| 0 <= i < b0.len() && b0[i] == k as usize;
            assert(before[b0[i] as int] == id);
        } else {
            assert(d.removed@.contains(k as usize));
            let i = choose|i: int| 0 <= i < d.removed@.len() && d.removed@[i] == k as usize;
            assert(before[d.removed@[i] as int] == id);
        }
    }
    assert forall|id: Seq<char>| (ids_at(before, d.removed@) + ids_at(before, b0)).contains(id)
        implies before.to_set().contains(id) by {
        if ids_at(before, d.removed@).contains(id) {
            let i = choose|i: int| 0 <= i < d.removed@.len() && before[d.removed@[i] as int] == id;
            assert(last_at(before, d.removed@[i] as int));
        } else {
            let i = choose|i: int| 0 <= i < b0.len() && before[b0[i] as int] == id;
            assert(b0[i] == d.both@[i].0);
            assert(last_at(before, d.both@[i].0 as int));
        }
    }
    assert(ids_at(before, d.removed@) + ids_at(before, b0) =~= before.to_set());
    assert forall|id: Seq<char>| ids_at(before, b0).contains(id) <==> ids_at(after, b1).contains(id) by {
        if ids_at(before, b0).contains(id) {
            let i = choose|i: int| 0 <= i < b0.len() && before[b0[i] as int] == id;
            assert(b0[i] == d.both@[i].0 && b1[i] == d.both@[i].1);
            assert(after[b1[i] as int] == id);
        }
        if ids_at(after, b1).contains(id) {
            let i = choose|i: int| 0 <= i < b1.len() && after[b1[i] as int] == id;
            assert(b0[i] == d.both@[i].0 && b1[i] == d.both@[i].1);
            assert(before[b0[i] as int] == id);
        }
    }
    assert(ids_at(before, b0) =~= ids_at(after, b1));
    assert forall|id: Seq<char>| after.to_set().contains(id) implies (ids_at(after, d.added@)
        + ids_at(after, b1)).contains(id) by {
        lemma_last_exists(after, id);
        let k = choose|k: int| last_at(after, k) && after[k] == id;
        if before.contains(id) {
            lemma_last_exists(before, id);
            let kb = choose|kb: int| last_at(before, kb) && before[kb] == id;
            assert(b0.contains(kb as usize));
            let i = choose|i: int| 0 <= i < b0.len() && b0[i] == kb as usize;
            assert(before[b0[i] as int] == id);
            assert(ids_at(before, b0).contains(id));
        } else {
            assert(d.added@.contains(k as usize));
            let i = choose|i: int| 0 <= i < d.added@.len() && d.added@[i] == k as usize;
            assert(after[d.added@[i] as int] == id);
        }
    }
    assert forall|id: Seq<char>| (ids_at(after, d.added@) + ids_at(after, b1)).contains(id)
        implies after.to_set().contains(id) by {
        if ids_at(after, d.added@).contains(id) {
            let i = choose|i: int| 0 <= i < d.added@.len() && after[d.added@[i] as int] == id;
            assert(last_at(after, d.added@[i] as int));
        } else {
            let i = choose|i: int| 0 <= i < b1.len() && after[b1[i] as int] == id;
            assert(b1[i] == d.both@[i].1);
            assert(last_at(after, d.both@[i].1 as int));
        }
    }
    assert(ids_at(after, d.added@) + ids_at(after, b1) =~= after.to_set());
    assert forall|id: Seq<char>| !(ids_at(before, d.removed@).contains(id) && ids_at(
        before,
        b0,
    ).contains(id)) by {
        if ids_at(before, d.removed@).contains(id) && ids_at(before, b0).contains(id) {
            let i = choose|i: int| 0 <= i < d.removed@.len() && before[d.removed@[i] as int] == id;
            let j = choose|j: int| 0 <= j < b0.len() && before[b0[j] as int] == id;
            assert(b0[j] == d.both@[j].0);
            assert(after.contains(id)) by {
                assert(after[d.both@[j].1 as int] == id);
            }
        }
    }
    assert forall|id: Seq<char>| !(ids_at(after, d.added@).contains(id) && ids_at(
        after,
        b1,
    ).contains(id)) by {
        if ids_at(after, d.added@).contains(id) && ids_at(after, b1).contains(id) {
            let i = choose|i: int| 0 <= i < d.added@.len() && after[d.added@[i] as int] == id;
            let j = choose|j: int| 0 <= j < b1.len() && after[b1[j] as int] == id;
            assert(b1[j] == d.both@[j].1);
            assert(before.contains(id)) by {
                assert(before[d.both@[j].0 as int] == id);
            }
        }
    }
    assert forall|id: Seq<char>| !(ids_at(before, d.removed@).contains(id) && ids_at(
        after,
        d.added@,
    ).contains(id)) by {
        if ids_at(before, d.removed@).contains(id) && ids_at(after, d.added@).contains(id) {
            let i = choose|i: int| 0 <= i < d.removed@.len() && before[d.removed@[i] as int] == id;
            let j = choose|j: int| 0 <= j < d.added@.len() && after[d.added@[j] as int] == id;
            assert(after.contains(id)) by {
                assert(after[d.added@[j] as int] == id);
            }
        }
    }
}

/// What holds of every position in a vector holds after one more
/// position is inserted, if it holds of that one.
proof fn lemma_insert_keeps(o: Seq<usize>, n: Seq<usize>, k: usize, p: spec_fn(usize) -> bool)
    requires
        forall|x: usize| n.contains(x) <==> (o.contains(x) || x == k),
        forall|i: int| 0 <= i < o.len() ==> p(#[trigger] o[i]),
        p(k),
    ensures
        forall|i: int| 0 <= i < n.len() ==> p(#[trigger] n[i]),
{
    assert forall|i: int| 0 <= i < n.len() implies p(#[trigger] n[i]) by {
        assert(n.contains(n[i]));
        if n[i] != k {
            assert(o.contains(n[i]));
            let t = choose|t: int| 0 <= t < o.len() && o[t] == n[i];
            assert(p(o[t]));
        }
    }
}

/// `d` is the matching of two reports' ids `bv` and `av`: each bucket
/// ordered by id, holding the last position of each of its ids, and
/// every such id in its bucket.
pub open spec fn id_diff_of(bv: Seq<Seq<char>>, av: Seq<Seq<char>>, d: IdDiff) -> bool {
    &&& sorted_by_id(bv, d.removed@)
    &&& forall|i: int|
        0 <= i < d.removed@.len() ==> last_at(bv, #[trigger] d.removed@[i] as int)
            && !av.contains(bv[d.removed@[i] as int])
    &&& forall|k: int|
        last_at(bv, k) && !av.contains(#[trigger] bv[k])
            ==> d.removed@.contains(k as usize)
    &&& sorted_by_id(av, d.added@)
    &&& forall|i: int|
        0 <= i < d.added@.len() ==> last_at(av, #[trigger] d.added@[i] as int)
            && !bv.contains(av[d.added@[i] as int])
    &&& forall|k: int|
        last_at(av, k) && !bv.contains(#[trigger] av[k])
            ==> d.added@.contains(k as usize)
    &&& sorted_by_id(bv, d.both@.map_values(|p: (usize, usize)| p.0))
    &&& forall|i: int|
        0 <= i < d.both@.len() ==> last_at(bv, (#[trigger] d.both@[i]).0 as int)
            && last_at(av, d.both@[i].1 as int) && bv[d.both@[i].0 as int]
            == av[d.both@[i].1 as int]
    &&& forall|k: int|
        last_at(bv, k) && av.contains(#[trigger] bv[k])
            ==> d.both@.map_values(|p: (usize, usize)| p.0).contains(k as usize)
}

/// Matches the violation ids of two reports. A repeated id counts once,
/// by its last position. Every bucket is ordered by id.
pub fn diff_ids(before: &[String], after: &[String]) -> (d: IdDiff)
    ensures
        id_diff_of(strs(before@), strs(after@), d),
{
    let ghost bv = strs(before@);
    let ghost av = strs(after@);
    let mut removed: Vec<usize> = Vec::new();
    let mut shared: Vec<usize> = Vec::new();
    let mut k: usize = 0;
    while k < before.len()
        invariant
            0 <= k <= before@.len(),
            bv == strs(before@),
            av == strs(after@),
            sorted_by_id(bv, removed@),
            sorted_by_id(bv, shared@),
            forall|i: int|
                0 <= i < removed@.len() ==> last_at(bv, #[trigger] removed@[i] as int)
                    && !av.contains(bv[removed@[i] as int]) && removed@[i] < k,
            forall|i: int|
                0 <= i < shared@.len() ==> last_at(bv, #[trigger] shared@[i] as int) && av.contains(
                    bv[shared@[i] as int],
                ) && shared@[i] < k,
            forall|t: int|
                0 <= t < k && last_at(bv, t) && !av.contains(#[trigger] bv[t])
                    ==> removed@.contains(t as usize),
            forall|t: int|
                0 <= t < k && last_at(bv, t) && av.contains(#[trigger] bv[t])
                    ==> shared@.contains(t as usize),
        decreases before@.len() - k,
    {
        if is_last(before, k) {
            let found = last_position(after, before[k].as_str());
            assert(bv[k as int] == before@[k as int]@);
            proof {
                assert forall|a: int| 0 <= a < removed@.len() implies bv[#[trigger] removed@[a] as int]
                    != bv[k as int] by {
                    let t = removed@[a] as int;
                    assert(last_at(bv, t));
                    assert(t < k);
                }
                assert forall|a: int| 0 <= a < shared@.len() implies bv[#[trigger] shared@[a] as int]
                    != bv[k as int] by {
                    let t = shared@[a] as int;
                    assert(last_at(bv, t));
                    assert(t < k);
                }
            }
            let ghost ro = removed@;
            let ghost so = shared@;
            match found {
                Some(_) => {
                    insert_by_id(&mut shared, k, before);
                    proof {
                        lemma_insert_keeps(
                            so,
                            shared@,
                            k,
                            |x: usize| last_at(bv, x as int) && av.contains(bv[x as int]) && x < k + 1,
                        );
                    }
                },
                None => {
                    insert_by_id(&mut removed, k, before);
                    proof {
                        lemma_insert_keeps(
                            ro,
                            removed@,
                            k,
                            |x: usize| last_at(bv, x as int) && !av.contains(bv[x as int]) && x < k + 1,
                        );
                    }
                },
            }
        }
        k = k + 1;
    }
    let mut added: Vec<usize> = Vec::new();
    let mut m: usize = 0;
    while m < after.len()
        invariant
            0 <= m <= after@.len(),
            bv == strs(before@),
            av == strs(after@),
            sorted_by_id(av, added@),
            forall|i: int|
                0 <= i < added@.len() ==> last_at(av, #[trigger] added@[i] as int) && !bv.contains(
                    av[added@[i] as int],
                ) && added@[i] < m,
            forall|t: int|
                0 <= t < m && last_at(av, t) && !bv.contains(#[trigger] av[t])
                    ==> added@.contains(t as usize),
        decreases after@.len() - m,
    {
        if is_last(after, m) {
            let found = last_position(before, after[m].as_str());
            assert(av[m as int] == after@[m as int]@);
            if found.is_none() {
                proof {
                    assert forall|a: int| 0 <= a < added@.len() implies av[#[trigger] added@[a] as int]
                        != av[m as int] by {
                        let t = added@[a] as int;
                        assert(last_at(av, t));
                        assert(t < m);
                    }
                }
                let ghost ao = added@;
                insert_by_id(&mut added, m, after);
                proof {
                    lemma_insert_keeps(
                        ao,
                        added@,
                        m,
                        |x: usize| last_at(av, x as int) && !bv.contains(av[x as int]) && x < m + 1,
                    );
                }
            }
        }
        m = m + 1;
    }
    let mut both: Vec<(usize, usize)> = Vec::new();
    let mut i: usize = 0;
    while i < shared.len()
        invariant
            0 <= i <= shared@.len(),
            bv == strs(before@),
            av == strs(after@),
            both@.len() == i,
            forall|t: int| 0 <= t < shared@.len() ==> last_at(bv, #[trigger] shared@[t] as int)
                && av.contains(bv[shared@[t] as int]),
            forall|t: int|
                0 <= t < i ==> (#[trigger] both@[t]).0 == shared@[t] && last_at(av, both@[t].1 as int)
                    && av[both@[t].1 as int] == bv[both@[t].0 as int],
        decreases shared@.len() - i,
    {
        let b = shared[i];
        assert(last_at(bv, b as int));
        assert(bv[b as int] == before@[b as int]@);
        match last_position(after, before[b].as_str()) {
            Some(a) => {
                both.push((b, a));
            },
            None => {
                assert(false);
            },
        }
        i = i + 1;
    }
    assert(both@.map_values(|p: (usize, usize)| p.0) =~= shared@);
    IdDiff { both, added, removed }
}

// ----------------------------------------------------------------------
// Violations present on both sides
// ----------------------------------------------------------------------

/// How a violation's value moved from `before` to `after`, as the caller
/// compared the two values: within rounding of each other, lower, higher,
/// or not comparable at all (a NaN on either side).
#[derive(Debug, Clone, Copy, PartialEq, Eq, Structural)]
pub enum Movement {
    /// The values are equal up to rounding.
    Same,
    /// `after` is lower.
    Down,
    /// `after` is higher.
    Up,
    /// Neither lower, higher nor equal.
    Unordered,
}

/// What a movement means for a violation present on both sides.
#[derive(Debug, Clone, Copy, PartialEq, Eq, Structural)]
pub enum ValueChange {
    /// The value moved the lens's good way.
    Better,
    /// The value moved the other way, or cannot be compared.
    Worse,
    /// No movement, or the lens has no direction.
    Same,
}

/// A movement read through the lens's polarity: no movement is the same;
/// an informational lens has no direction; otherwise only the good way
/// is better and anything else, an unordered pair included, is worse.
pub open spec fn value_change_spec(m: Movement, p: Polarity) -> ValueChange {
    if m == Movement::Same {
        ValueChange::Same
    } else {
        match p {
            Polarity::LowerIsBetter => if m == Movement::Down {
                ValueChange::Better
            } else {
                ValueChange::Worse
            },
            Polarity::HigherIsBetter => if m == Movement::Up {
                ValueChange::Better
            } else {
                ValueChange::Worse
            },
            Polarity::Informational => ValueChange::Same,
        }
    }
}

/// Classifies the movement of a violation present on both sides.
pub fn value_change(m: Movement, p: Polarity) -> (c: ValueChange)
    ensures
        c == value_change_spec(m, p),
{
    match m {
        Movement::Same => ValueChange::Same,
        _ => match p {
            Polarity::LowerIsBetter => if m == Movement::Down {
                ValueChange::Better
            } else {
                ValueChange::Worse
            },
            Polarity::HigherIsBetter => if m == Movement::Up {
                ValueChange::Better
            } else {
                ValueChange::Worse
            },
            Polarity::Informational => ValueChange::Same,
        },
    }
}

/// The `after` positions of the pairs in `both` whose change is `c`, in
/// the order of `both`.
pub open spec fn positions_with(both: Seq<(usize, usize)>, changes: Seq<ValueChange>, c: ValueChange) -> Seq<usize>
    decreases both.len(),
{
    if both.len() == 0 {
        Seq::empty()
    } else {
        let prev = positions_with(both.drop_last(), changes, c);
        if changes[both.len() - 1] == c {
            prev.push(both.last().1)
        } else {
            prev
        }
    }
}

/// The violations present on both sides, split by how their value
/// changed: positions in `after`, each bucket in the order of the pairs.
#[derive(Debug)]
pub struct ChangeBuckets {
    /// Moved the good way.
    pub improved: Vec<usize>,
    /// Moved the bad way.
    pub regressed: Vec<usize>,
    /// Did not move, or the lens has no direction.
    pub unchanged: Vec<usize>,
}

/// Splits the pairs of [`IdDiff::both`] by the change of each pair's value
/// (`changes[i]` is the change of `both[i]`).
pub fn split_by_change(both: &[(usize, usize)], changes: &[ValueChange]) -> (b: ChangeBuckets)
    requires
        both@.len() == changes@.len(),
    ensures
        b.improved@ == positions_with(both@, changes@, ValueChange::Better),
        b.regressed@ == positions_with(both@, changes@, ValueChange::Worse),
        b.unchanged@ == positions_with(both@, changes@, ValueChange::Same),
{
    let mut b = ChangeBuckets { improved: Vec::new(), regressed: Vec::new(), unchanged: Vec::new() };
    let mut i: usize = 0;
    while i < both.len()
        invariant
            0 <= i <= both@.len(),
            both@.len() == changes@.len(),
            b.improved@ == positions_with(both@.take(i as int), changes@, ValueChange::Better),
            b.regressed@ == positions_with(both@.take(i as int), changes@, ValueChange::Worse),
            b.unchanged@ == positions_with(both@.take(i as int), changes@, ValueChange::Same),
        decreases both@.len() - i,
    {
        proof {
            let t = both@.take(i + 1);
            assert(t.drop_last() =~= both@.take(i as int));
            assert(t.last() == both@[i as int]);
        }
        let after_pos = both[i].1;
        match changes[i] {
            ValueChange::Better => b.improved.push(after_pos),
            ValueChange::Worse => b.regressed.push(after_pos),
            ValueChange::Same => b.unchanged.push(after_pos),
        }
        i = i + 1;
    }
    assert(both@.take(i as int) =~= both@);
    b
}

/// Every pair lands in exactly one bucket: the three buckets hold as many
/// positions as there are pairs.
pub proof fn law_change_buckets_cover(both: Seq<(usize, usize)>, changes: Seq<ValueChange>)
    ensures
        positions_with(both, changes, ValueChange::Better).len() + positions_with(both, changes, ValueChange::Worse).len()
            + positions_with(both, changes, ValueChange::Same).len() == both.len(),
    decreases both.len(),
{
    if both.len() > 0 {
        law_change_buckets_cover(both.drop_last(), changes);
    }
}

// ----------------------------------------------------------------------
// The assembled diff
// ----------------------------------------------------------------------

/// The classified diff of two reports, by positions of violations: ids on
/// both sides split by how their value moved (positions in `after`), ids
/// only in `after` and only in `before`, the counts, and the verdict.
#[derive(Debug)]
pub struct ClassifiedDiff {
    /// Ids on both sides whose value moved the good way.
    pub improved: Vec<usize>,
    /// Ids on both sides whose value moved the bad way.
    pub regressed: Vec<usize>,
    /// Ids on both sides whose value did not move, or has no direction.
    pub unchanged: Vec<usize>,
    /// Ids only in `after`, by position in `after`.
    pub added: Vec<usize>,
    /// Ids only in `before`, by position in `before`.
    pub removed: Vec<usize>,
    /// The five counts.
    pub diff: DiffCounts,
    /// The one-word verdict.
    pub verdict: Verdict,
}

/// Assembles the diff of two reports from the id matching and, for each
/// id on both sides in the matching's order, how its value changed.
pub fn classify_diff(d: IdDiff, changes: &[ValueChange]) -> (r: ClassifiedDiff)
    requires
        d.both@.len() == changes@.len(),
    ensures
        r.improved@ == positions_with(d.both@, changes@, ValueChange::Better),
        r.regressed@ == positions_with(d.both@, changes@, ValueChange::Worse),
        r.unchanged@ == positions_with(d.both@, changes@, ValueChange::Same),
        r.added@ == d.added@,
        r.removed@ == d.removed@,
        r.diff == (DiffCounts {
            improved: r.improved@.len() as usize,
            regressed: r.regressed@.len() as usize,
            unchanged: r.unchanged@.len() as usize,
            added: d.added@.len() as usize,
            removed: d.removed@.len() as usize,
        }),
        r.verdict == verdict_spec(r.diff),
{
    let b = split_by_change(d.both.as_slice(), changes);
    let diff = DiffCounts {
        improved: b.improved.len(),
        regressed: b.regressed.len(),
        unchanged: b.unchanged.len(),
        added: d.added.len(),
        removed: d.removed.len(),
    };
    let verdict = verdict_for(&diff);
    ClassifiedDiff {
        improved: b.improved,
        regressed: b.regressed,
        unchanged: b.unchanged,
        added: d.added,
        removed: d.removed,
        diff,
        verdict,
    }
}

/// The cosmetic-refactor block of a diff of two reports that hold
/// `before_measured` and `after_measured` measurement records: present
/// only when both sides hold some (older or violation-only reports hold
/// none), and then the signals with the verdict they earn.
pub fn cosmetic_analysis(before_measured: usize, after_measured: usize, signals: CosmeticSignals) -> (r: Option<
    CosmeticAnalysis,
>)
    requires
        signals.helpers_added <= i64::MAX / 4,
    ensures
        match r {
            None => before_measured == 0 || after_measured == 0,
            Some(a) => before_measured != 0 && after_measured != 0 && a.signals == signals && a.verdict
                == cosmetic_verdict_spec(signals),
        },
{
    if before_measured == 0 || after_measured == 0 {
        return None;
    }
    let verdict = cosmetic_verdict(&signals);
    Some(CosmeticAnalysis { signals, verdict })
}

// ----------------------------------------------------------------------
// The assembled report
// ----------------------------------------------------------------------

/// The regression report: both snapshots' headline counts, the diff
/// counts and verdict, the five buckets of violations (the `after` form
/// for ids in `after`, the `before` form for removed ids), and the
/// cosmetic-refactor block when both sides were measured.
pub struct RegressionReport<V> {
    /// Report format version.
    pub version: u32,
    /// The `before` snapshot's headline.
    pub before: SnapshotSummary,
    /// The `after` snapshot's headline.
    pub after: SnapshotSummary,
    /// Bucket sizes.
    pub diff: DiffCounts,
    /// One-word verdict.
    pub verdict: Verdict,
    /// Id in both, value got better.
    pub improved: Vec<V>,
    /// Id in both, value got worse.
    pub regressed: Vec<V>,
    /// Id in both, value equal or without direction.
    pub unchanged: Vec<V>,
    /// Id in `after` only.
    pub added: Vec<V>,
    /// Id in `before` only.
    pub removed: Vec<V>,
    /// Cosmetic-refactor signals and verdict.
    pub cosmetic_analysis: Option<CosmeticAnalysis>,
}

/// The headline of one snapshot: its timestamp and its violation,
/// warning and error counts.
pub fn snapshot_summary(generated_at: &str, summary: &Summary) -> (s: SnapshotSummary)
    ensures
        s.generated_at@ == generated_at@,
        s.violations == summary.violations,
        s.warnings == summary.warnings,
        s.errors == summary.errors,
{
    SnapshotSummary {
        generated_at: crate::text::owned(generated_at),
        violations: summary.violations,
        warnings: summary.warnings,
        errors: summary.errors,
    }
}

/// The items of `vs` at positions `ps`, in the order of `ps`.
pub open spec fn at_positions<V>(vs: Seq<V>, ps: Seq<usize>) -> Seq<V> {
    ps.map_values(|p: usize| vs[p as int])
}

/// The `after` positions of the ids on both sides.
pub open spec fn after_positions(both: Seq<(usize, usize)>) -> Seq<usize> {
    both.map_values(|p: (usize, usize)| p.1)
}

/// A vector of items as a vector of filled slots.
fn into_slots<V>(v: Vec<V>) -> (s: Vec<Option<V>>)
    ensures
        s@.len() == v@.len(),
        forall|i: int| 0 <= i < v@.len() ==> s@[i] == Some(#[trigger] v@[i]),
{
    let ghost orig = v@;
    let mut v = v;
    let mut rev: Vec<V> = Vec::new();
    while v.len() > 0
        invariant
            v@.len() + rev@.len() == orig.len(),
            forall|i: int| 0 <= i < v@.len() ==> v@[i] == orig[i],
            forall|i: int| 0 <= i < rev@.len() ==> rev@[i] == orig[orig.len() - 1 - i],
        decreases v@.len(),
    {
        let x = v.pop().unwrap();
        rev.push(x);
    }
    let mut s: Vec<Option<V>> = Vec::new();
    while rev.len() > 0
        invariant
            s@.len() + rev@.len() == orig.len(),
            forall|i: int| 0 <= i < rev@.len() ==> rev@[i] == orig[orig.len() - 1 - i],
            forall|i: int| 0 <= i < s@.len() ==> s@[i] == Some(orig[i]),
        decreases rev@.len(),
    {
        let x = rev.pop().unwrap();
        s.push(Some(x));
    }
    s
}

/// Takes the items at positions `ps` out of their slots, in the order of
/// `ps`; every other slot is left as it was.
fn take_at<V>(slots: &mut Vec<Option<V>>, ps: &[usize], Ghost(orig): Ghost<Seq<V>>) -> (out: Vec<V>)
    requires
        ps@.no_duplicates(),
        forall|i: int| 0 <= i < ps@.len() ==> (#[trigger] ps@[i]) < old(slots)@.len() && ps@[i] < orig.len()
            && old(slots)@[ps@[i] as int] == Some(orig[ps@[i] as int]),
    ensures
        out@ == at_positions(orig, ps@),
        final(slots)@.len() == old(slots)@.len(),
        forall|q: usize|
            q < old(slots)@.len() ==> #[trigger] final(slots)@[q as int] == (if ps@.contains(q) {
                None
            } else {
                old(slots)@[q as int]
            }),
{
    let mut out: Vec<V> = Vec::new();
    let mut i: usize = 0;
    while i < ps.len()
        invariant
            0 <= i <= ps@.len(),
            ps@.no_duplicates(),
            forall|j: int| 0 <= j < ps@.len() ==> (#[trigger] ps@[j]) < old(slots)@.len() && ps@[j] < orig.len()
                && old(slots)@[ps@[j] as int] == Some(orig[ps@[j] as int]),
            slots@.len() == old(slots)@.len(),
            out@ == at_positions(orig, ps@.take(i as int)),
            forall|q: usize|
                q < old(slots)@.len() ==> #[trigger] slots@[q as int] == (if ps@.take(i as int).contains(q) {
                    None
                } else {
                    old(slots)@[q as int]
                }),
        decreases ps@.len() - i,
    {
        let p = ps[i];
        proof {
            if ps@.take(i as int).contains(p) {
                let j = choose|j: int| 0 <= j < i && ps@.take(i as int)[j] == p;
                assert(ps@[j] == ps@[i as int]);
            }
            assert(slots@[p as int] == old(slots)@[p as int]);
        }
        let mut taken: Option<V> = None;
        let ghost s0 = slots@;
        let slot = slots.remove(p);
        slots.insert(p, taken);
        taken = slot;
        proof {
            let t0 = ps@.take(i as int);
            let t1 = ps@.take(i + 1);
            assert(t1 =~= t0.push(p));
            assert forall|q: usize| q < old(slots)@.len() implies #[trigger] slots@[q as int] == (if t1.contains(q) {
                None
            } else {
                old(slots)@[q as int]
            }) by {
                if q != p {
                    assert(slots@[q as int] == s0[q as int]);
                    if t1.contains(q) {
                        let j = choose|j: int| 0 <= j < t1.len() && t1[j] == q;
                        assert(j < i);
                        assert(t0[j] == q);
                    }
                    if t0.contains(q) {
                        let j = choose|j: int| 0 <= j < t0.len() && t0[j] == q;
                        assert(t1[j] == q);
                    }
                } else {
                    assert(t1[i as int] == p);
                }
            }
        }
        match taken {
            Some(v) => {
                out.push(v);
            },
            None => {
                assert(false);
            },
        }
        assert(at_positions(orig, ps@.take(i + 1)) =~= at_positions(orig, ps@.take(i as int)).push(orig[p as int]));
        i = i + 1;
    }
    assert(ps@.take(i as int) =~= ps@);
    out
}

/// Positions whose ids strictly increase are distinct.
proof fn lemma_sorted_distinct(ids: Seq<Seq<char>>, idx: Seq<usize>)
    requires
        sorted_by_id(ids, idx),
    ensures
        idx.no_duplicates(),
{
    assert forall|a: int, b: int| 0 <= a < idx.len() && 0 <= b < idx.len() && a != b implies idx[a] != idx[b] by {
        if idx[a] == idx[b] {
            lemma_lex_irreflexive(ids[idx[a] as int]);
            if a < b {
                assert(lex_lt(ids[idx[a] as int], ids[idx[b] as int]));
            } else {
                assert(lex_lt(ids[idx[b] as int], ids[idx[a] as int]));
            }
        }
    }
}

/// The `after` positions of the ids on both sides are distinct, and none
/// of them is the position of an id only `after` has.
proof fn lemma_after_positions_apart(bv: Seq<Seq<char>>, av: Seq<Seq<char>>, d: IdDiff)
    requires
        id_diff_of(bv, av, d),
    ensures
        after_positions(d.both@).no_duplicates(),
        d.added@.no_duplicates(),
        d.removed@.no_duplicates(),
        forall|k: int| 0 <= k < d.both@.len() ==> !d.added@.contains((#[trigger] d.both@[k]).1),
        forall|k: int| 0 <= k < d.both@.len() ==> ((#[trigger] d.both@[k]).1 as int) < av.len(),
{
    let firsts = d.both@.map_values(|p: (usize, usize)| p.0);
    let ap = after_positions(d.both@);
    lemma_sorted_distinct(av, d.added@);
    lemma_sorted_distinct(bv, d.removed@);
    assert forall|a: int, b: int| 0 <= a < ap.len() && 0 <= b < ap.len() && a != b implies ap[a] != ap[b] by {
        if ap[a] == ap[b] {
            assert(d.both@[a].1 == d.both@[b].1);
            assert(bv[d.both@[a].0 as int] == av[d.both@[a].1 as int]);
            assert(bv[d.both@[b].0 as int] == av[d.both@[b].1 as int]);
            assert(firsts[a] == d.both@[a].0 && firsts[b] == d.both@[b].0);
            lemma_lex_irreflexive(bv[firsts[a] as int]);
            if a < b {
                assert(lex_lt(bv[firsts[a] as int], bv[firsts[b] as int]));
            } else {
                assert(lex_lt(bv[firsts[b] as int], bv[firsts[a] as int]));
            }
        }
    }
    assert forall|k: int| 0 <= k < d.both@.len() implies !d.added@.contains((#[trigger] d.both@[k]).1) by {
        if d.added@.contains(d.both@[k].1) {
            let i = choose|i: int| 0 <= i < d.added@.len() && d.added@[i] == d.both@[k].1;
            assert(!bv.contains(av[d.added@[i] as int]));
            assert(bv[d.both@[k].0 as int] == av[d.both@[k].1 as int]);
            assert(bv.contains(bv[d.both@[k].0 as int]));
        }
    }
}

/// A position of a change bucket is the `after` position of a pair whose
/// change is that bucket's.
proof fn lemma_positions_with_from(both: Seq<(usize, usize)>, changes: Seq<ValueChange>, c: ValueChange, x: usize)
    requires
        positions_with(both, changes, c).contains(x),
    ensures
        exists|k: int| 0 <= k < both.len() && (#[trigger] both[k]).1 == x && changes[k] == c,
    decreases both.len(),
{
    let prev = positions_with(both.drop_last(), changes, c);
    if prev.contains(x) {
        lemma_positions_with_from(both.drop_last(), changes, c, x);
        let k = choose|k: int| 0 <= k < both.drop_last().len() && (#[trigger] both.drop_last()[k]).1 == x && changes[k] == c;
        assert(both[k] == both.drop_last()[k]);
    } else {
        let n = both.len() - 1;
        assert(changes[n] == c && both[n].1 == x) by {
            if !(changes[n] == c) {
                assert(positions_with(both, changes, c) == prev);
            } else {
                assert(positions_with(both, changes, c) == prev.push(both.last().1));
                let i = choose|i: int| 0 <= i < prev.len() + 1 && prev.push(both.last().1)[i] == x;
                if i < prev.len() {
                    assert(prev[i] == x);
                }
            }
        }
    }
}

/// A change bucket repeats no position when the pairs' `after` positions
/// are distinct.
proof fn lemma_positions_with_distinct(both: Seq<(usize, usize)>, changes: Seq<ValueChange>, c: ValueChange)
    requires
        after_positions(both).no_duplicates(),
    ensures
        positions_with(both, changes, c).no_duplicates(),
    decreases both.len(),
{
    if both.len() > 0 {
        let init = both.drop_last();
        assert(after_positions(init).no_duplicates()) by {
            assert forall|a: int, b: int| 0 <= a < init.len() && 0 <= b < init.len() && a != b implies after_positions(init)[a]
                != after_positions(init)[b] by {
                assert(after_positions(init)[a] == after_positions(both)[a]);
                assert(after_positions(init)[b] == after_positions(both)[b]);
            }
        }
        lemma_positions_with_distinct(init, changes, c);
        let prev = positions_with(init, changes, c);
        if changes[both.len() - 1] == c {
            let x = both.last().1;
            if prev.contains(x) {
                lemma_positions_with_from(init, changes, c, x);
                let k = choose|k: int| 0 <= k < init.len() && (#[trigger] init[k]).1 == x && changes[k] == c;
                assert(after_positions(both)[k] == after_positions(both)[both.len() - 1]);
            }
            let t = prev.push(x);
            assert forall|a: int, b: int| 0 <= a < t.len() && 0 <= b < t.len() && a != b implies t[a] != t[b] by {
                if a < prev.len() && b < prev.len() {
                } else if a < prev.len() {
                    assert(prev.contains(t[a]));
                } else {
                    assert(prev.contains(t[b]));
                }
            }
        }
    }
}

/// Positions of two different change buckets differ.
proof fn lemma_positions_with_apart(both: Seq<(usize, usize)>, changes: Seq<ValueChange>, c1: ValueChange, c2: ValueChange, x: usize)
    requires
        after_positions(both).no_duplicates(),
        c1 != c2,
        positions_with(both, changes, c1).contains(x),
    ensures
        !positions_with(both, changes, c2).contains(x),
{
    lemma_positions_with_from(both, changes, c1, x);
    if positions_with(both, changes, c2).contains(x) {
        lemma_positions_with_from(both, changes, c2, x);
        let k1 = choose|k: int| 0 <= k < both.len() && (#[trigger] both[k]).1 == x && changes[k] == c1;
        let k2 = choose|k: int| 0 <= k < both.len() && (#[trigger] both[k]).1 == x && changes[k] == c2;
        assert(after_positions(both)[k1] == after_positions(both)[k2]);
    }
}

/// Assembles the regression report of two snapshots from their
/// headlines, their violations with the violations' ids, the matching of
/// those ids, how each value on both sides changed (in the matching's
/// order), and the cosmetic-refactor block. Each bucket holds the
/// violations at its positions, in id order: the `after` form for ids in
/// `after`, the `before` form for removed ids.
pub fn regression_report<V>(
    before: SnapshotSummary,
    after: SnapshotSummary,
    before_violations: Vec<V>,
    after_violations: Vec<V>,
    before_ids: &[String],
    after_ids: &[String],
    d: IdDiff,
    changes: &[ValueChange],
    cosmetic_analysis: Option<CosmeticAnalysis>,
) -> (r: RegressionReport<V>)
    requires
        before_violations@.len() == before_ids@.len(),
        after_violations@.len() == after_ids@.len(),
        id_diff_of(strs(before_ids@), strs(after_ids@), d),
        d.both@.len() == changes@.len(),
    ensures
        r.version == 2,
        r.before == before,
        r.after == after,
        r.improved@ == at_positions(after_violations@, positions_with(d.both@, changes@, ValueChange::Better)),
        r.regressed@ == at_positions(after_violations@, positions_with(d.both@, changes@, ValueChange::Worse)),
        r.unchanged@ == at_positions(after_violations@, positions_with(d.both@, changes@, ValueChange::Same)),
        r.added@ == at_positions(after_violations@, d.added@),
        r.removed@ == at_positions(before_violations@, d.removed@),
        r.diff == (DiffCounts {
            improved: r.improved@.len() as usize,
            regressed: r.regressed@.len() as usize,
            unchanged: r.unchanged@.len() as usize,
            added: d.added@.len() as usize,
            removed: d.removed@.len() as usize,
        }),
        r.verdict == verdict_spec(r.diff),
        r.cosmetic_analysis == cosmetic_analysis,
{
    let ghost bv = strs(before_ids@);
    let ghost av = strs(after_ids@);
    let ghost dg = d;
    let ghost aorig = after_violations@;
    let ghost borig = before_violations@;
    proof {
        lemma_after_positions_apart(bv, av, d);
        lemma_positions_with_distinct(d.both@, changes@, ValueChange::Better);
        lemma_positions_with_distinct(d.both@, changes@, ValueChange::Worse);
        lemma_positions_with_distinct(d.both@, changes@, ValueChange::Same);
    }
    let c = classify_diff(d, changes);
    let ghost imp = c.improved@;
    let ghost reg = c.regressed@;
    let ghost unc = c.unchanged@;
    let ghost add = c.added@;
    proof {
        assert forall|x: usize| #[trigger] imp.contains(x) || reg.contains(x) || unc.contains(x) implies (x as int) < aorig.len()
            && !add.contains(x) by {
            let cc = if imp.contains(x) {
                ValueChange::Better
            } else if reg.contains(x) {
                ValueChange::Worse
            } else {
                ValueChange::Same
            };
            lemma_positions_with_from(dg.both@, changes@, cc, x);
            let k = choose|k: int| 0 <= k < dg.both@.len() && (#[trigger] dg.both@[k]).1 == x && changes@[k] == cc;
            assert(last_at(av, dg.both@[k].1 as int));
        }
    }
    let mut slots = into_slots(after_violations);
    proof {
        assert forall|i: int| 0 <= i < imp.len() implies (#[trigger] imp[i]) < slots@.len() && imp[i] < aorig.len()
            && slots@[imp[i] as int] == Some(aorig[imp[i] as int]) by {
            assert(imp.contains(imp[i]));
        }
    }
    let improved = take_at(&mut slots, c.improved.as_slice(), Ghost(aorig));
    proof {
        assert forall|i: int| 0 <= i < reg.len() implies (#[trigger] reg[i]) < slots@.len() && reg[i] < aorig.len()
            && slots@[reg[i] as int] == Some(aorig[reg[i] as int]) by {
            assert(reg.contains(reg[i]));
            lemma_positions_with_apart(dg.both@, changes@, ValueChange::Worse, ValueChange::Better, reg[i]);
        }
    }
    let regressed = take_at(&mut slots, c.regressed.as_slice(), Ghost(aorig));
    proof {
        assert forall|i: int| 0 <= i < unc.len() implies (#[trigger] unc[i]) < slots@.len() && unc[i] < aorig.len()
            && slots@[unc[i] as int] == Some(aorig[unc[i] as int]) by {
            assert(unc.contains(unc[i]));
            lemma_positions_with_apart(dg.both@, changes@, ValueChange::Same, ValueChange::Better, unc[i]);
            lemma_positions_with_apart(dg.both@, changes@, ValueChange::Same, ValueChange::Worse, unc[i]);
        }
    }
    let unchanged = take_at(&mut slots, c.unchanged.as_slice(), Ghost(aorig));
    proof {
        assert forall|i: int| 0 <= i < add.len() implies (#[trigger] add[i]) < slots@.len() && add[i] < aorig.len()
            && slots@[add[i] as int] == Some(aorig[add[i] as int]) by {
            assert(add.contains(add[i]));
            if imp.contains(add[i]) {
                assert(!add.contains(add[i]));
            }
            if reg.contains(add[i]) {
                assert(!add.contains(add[i]));
            }
            if unc.contains(add[i]) {
                assert(!add.contains(add[i]));
            }
        }
    }
    let added = take_at(&mut slots, c.added.as_slice(), Ghost(aorig));
    let mut before_slots = into_slots(before_violations);
    proof {
        let rem = c.removed@;
        assert forall|i: int| 0 <= i < rem.len() implies (#[trigger] rem[i]) < before_slots@.len() && rem[i] < borig.len()
            && before_slots@[rem[i] as int] == Some(borig[rem[i] as int]) by {
        }
    }
    let removed = take_at(&mut before_slots, c.removed.as_slice(), Ghost(borig));
    RegressionReport {
        version: 2,
        before,
        after,
        diff: c.diff,
        verdict: c.verdict,
        improved,
        regressed,
        unchanged,
        added,
        removed,
        cosmetic_analysis,
    }
}

/// A diff in which issues were resolved (improved or removed) and none
/// appeared (regressed or added) is `improved`, whatever the number of
/// unchanged ones, and never fails `regression`, even with
/// `--fatal-regressions`; the number of unchanged ids only tells `clean`
/// from `unchanged` when nothing moved, and changes no verdict otherwise.
pub proof fn law_verdict_follows_movement(d: DiffCounts, unchanged: usize)
    ensures
        d.improved + d.removed > 0 && d.regressed + d.added == 0 ==> verdict_spec(d) == Verdict::Improved,
        d.improved + d.removed == 0 && d.regressed + d.added > 0 ==> verdict_spec(d) == Verdict::Regressed,
        d.improved + d.removed > 0 && d.regressed + d.added > 0 ==> verdict_spec(d) == Verdict::Mixed,
        d.improved + d.removed + d.regressed + d.added > 0 ==> verdict_spec(d) == verdict_spec(
            DiffCounts { unchanged, ..d },
        ),
        d.improved + d.removed + d.regressed + d.added == 0 ==> (verdict_spec(d) == Verdict::Clean <==> d.unchanged
            == 0),
        d.improved + d.removed + d.regressed + d.added == 0 ==> verdict_spec(d) == Verdict::Clean || verdict_spec(d)
            == Verdict::Unchanged,
        d.regressed + d.added == 0 ==> verdict_spec(d) != Verdict::Regressed && verdict_spec(d) != Verdict::Mixed,
{
}

/// A signal table is called a likely cosmetic refactor only when at least
/// three helpers were added, the code grew by more than four lines per
/// helper, and complexity dropped by less than two per helper: one whose
/// complexity dropped by at least twice the helpers added is never
/// likely cosmetic.
pub proof fn law_likely_cosmetic_needs_all_three(s: CosmeticSignals)
    ensures
        cosmetic_verdict_spec(s) == CosmeticVerdict::LikelyCosmetic ==> s.helpers_added >= 3 && s.sloc_delta > 4
            * s.helpers_added && s.cc_reduction < 2 * s.helpers_added,
        s.cc_reduction >= 2 * s.helpers_added ==> cosmetic_verdict_spec(s) != CosmeticVerdict::LikelyCosmetic,
        s.helpers_added < 3 ==> cosmetic_verdict_spec(s) != CosmeticVerdict::LikelyCosmetic,
        s.sloc_delta <= 4 * s.helpers_added ==> cosmetic_verdict_spec(s) != CosmeticVerdict::LikelyCosmetic,
        s.helpers_added >= 3 && s.sloc_delta > 4 * s.helpers_added && s.cc_reduction < 2 * s.helpers_added
            ==> cosmetic_verdict_spec(s) == CosmeticVerdict::LikelyCosmetic,
        (cosmetic_verdict_spec(s) == CosmeticVerdict::Clean) <==> (s.helpers_added == 0 && s.sloc_delta == 0
            && s.cc_reduction == 0 && s.clones_added == 0 && s.unsafe_blocks_added == 0 && s.impl_trait_added == 0
            && s.dyn_added == 0),
{
}

} // verus!
