//! SARIF 2.1.0 results: one result per violation, and the rule list of
//! a run. The JSON document itself is written by the program.

use vstd::prelude::*;
use crate::analyze::strs;
use crate::discover::lex_lt;
use crate::regression::{insert_by_id, sorted_by_id};
use crate::report::{basis_word, basis_word_spec, JustificationBasis, Severity};
use crate::text::{owned, push_str, str_eq};

verus! {

/// The SARIF level of a severity.
pub open spec fn sarif_level_spec(s: Severity) -> Seq<char> {
    match s {
        Severity::Error => "error"@,
        Severity::Warning => "warning"@,
        Severity::Info => "note"@,
    }
}

/// SARIF level for a severity: `error`, `warning`, or `note` for
/// informational findings.
pub fn sarif_level(s: Severity) -> (w: &'static str)
    ensures
        w@ == sarif_level_spec(s),
{
    match s {
        Severity::Error => "error",
        Severity::Warning => "warning",
        Severity::Info => "note",
    }
}

/// Why a complex scope is justified by its coverage, as SARIF carries it
/// under `properties.complexityJustified`.
#[derive(Debug, PartialEq, Eq)]
pub struct SarifJustification {
    /// `line` or `branch`.
    pub by: String,
    /// The coverage threshold, rendered.
    pub threshold: String,
    /// The measured coverage, rendered.
    pub actual: String,
}

/// One SARIF result.
#[derive(Debug, PartialEq, Eq)]
pub struct SarifResult {
    /// `ruleId`: the lens id.
    pub rule_id: String,
    /// `level`.
    pub level: String,
    /// `message.text`.
    pub message: String,
    /// `artifactLocation.uri`: the workspace-relative file.
    pub uri: String,
    /// `region.startLine`.
    pub start_line: usize,
    /// `fingerprints.rusticsId`: the violation's stable id.
    pub fingerprint: String,
    /// `properties.complexityJustified`, when coverage justifies the scope.
    pub properties: Option<SarifJustification>,
}

/// The text of a result: `<metric> = <value> (threshold <t>) — scope <scope>`.
pub open spec fn sarif_message(metric: Seq<char>, value: Seq<char>, threshold: Seq<char>, scope: Seq<char>) -> Seq<char> {
    metric + " = "@ + value + " (threshold "@ + threshold + ") \u{2014} scope "@ + scope
}

/// The SARIF result of one violation, its figures already rendered.
pub fn sarif_result(
    id: &str,
    file: &str,
    line: usize,
    scope: &str,
    metric: &str,
    severity: Severity,
    value: &str,
    threshold: &str,
    justified: Option<(JustificationBasis, &str, &str)>,
) -> (r: SarifResult)
    ensures
        r.rule_id@ == metric@,
        r.level@ == sarif_level_spec(severity),
        r.message@ == sarif_message(metric@, value@, threshold@, scope@),
        r.uri@ == file@,
        r.start_line == line,
        r.fingerprint@ == id@,
        match justified {
            None => r.properties is None,
            Some((b, t, a)) => match r.properties {
                Some(p) => p.by@ == basis_word_spec(b) && p.threshold@ == t@ && p.actual@ == a@,
                None => false,
            },
        },
{
    let mut message = owned(metric);
    push_str(&mut message, " = ");
    push_str(&mut message, value);
    push_str(&mut message, " (threshold ");
    push_str(&mut message, threshold);
    push_str(&mut message, ") \u{2014} scope ");
    push_str(&mut message, scope);
    let properties = match justified {
        None => None,
        Some((b, t, a)) => Some(SarifJustification { by: owned(basis_word(b)), threshold: owned(t), actual: owned(a) }),
    };
    SarifResult {
        rule_id: owned(metric),
        level: owned(sarif_level(severity)),
        message,
        uri: owned(file),
        start_line: line,
        fingerprint: owned(id),
        properties,
    }
}

/// Whether `metrics[k]` occurs among the metrics before it.
fn seen_before(metrics: &[String], k: usize) -> (b: bool)
    requires
        k < metrics@.len(),
    ensures
        b == strs(metrics@).take(k as int).contains(metrics@[k as int]@),
{
    let ghost ms = strs(metrics@);
    let mut i: usize = 0;
    while i < k
        invariant
            k < metrics@.len(),
            ms == strs(metrics@),
            0 <= i <= k,
            forall|j: int| 0 <= j < i ==> ms[j] != ms[k as int],
        decreases k - i,
    {
        if str_eq(metrics[i].as_str(), metrics[k].as_str()) {
            assert(ms.take(k as int)[i as int] == ms[k as int]);
            return true;
        }
        i = i + 1;
    }
    proof {
        if ms.take(k as int).contains(ms[k as int]) {
            let j = choose|j: int| 0 <= j < k && ms.take(k as int)[j] == ms[k as int];
            assert(ms.take(k as int)[j] == ms[j]);
        }
    }
    false
}

/// The rule ids of a run: each lens id of its violations once, in
/// ascending order.
pub fn sarif_rules(metrics: &[String]) -> (r: Vec<String>)
    ensures
        forall|a: int, b: int| 0 <= a < b < r@.len() ==> lex_lt(#[trigger] r@[a]@, #[trigger] r@[b]@),
        forall|s: Seq<char>| strs(r@).contains(s) <==> strs(metrics@).contains(s),
{
    let ghost ms = strs(metrics@);
    let mut order: Vec<usize> = Vec::new();
    let mut k: usize = 0;
    while k < metrics.len()
        invariant
            ms == strs(metrics@),
            0 <= k <= metrics@.len(),
            sorted_by_id(ms, order@),
            forall|a: int| 0 <= a < order@.len() ==> (#[trigger] order@[a]) < k,
            forall|s: Seq<char>|
                (exists|a: int| 0 <= a < order@.len() && ms[#[trigger] order@[a] as int] == s) <==> ms.take(
                    k as int,
                ).contains(s),
        decreases metrics@.len() - k,
    {
        let seen = seen_before(metrics, k);
        let ghost before = order@;
        if !seen {
            assert forall|a: int| 0 <= a < order@.len() implies ms[#[trigger] order@[a] as int] != ms[k as int] by {
                let x = order@[a];
                assert(ms.take(k as int)[x as int] == ms[x as int]);
                assert(ms.take(k as int).contains(ms[x as int]));
            }
            insert_by_id(&mut order, k, metrics);
        }
        proof {
            assert forall|a: int| 0 <= a < order@.len() implies (#[trigger] order@[a]) < k + 1 by {
                assert(order@.contains(order@[a]));
                if before.contains(order@[a]) {
                    let b = choose|b: int| 0 <= b < before.len() && before[b] == order@[a];
                    assert(before[b] < k);
                }
            }
            let t0 = ms.take(k as int);
            let t1 = ms.take(k + 1);
            assert(t1 =~= t0.push(ms[k as int]));
            assert forall|s: Seq<char>|
                (exists|a: int| 0 <= a < order@.len() && ms[#[trigger] order@[a] as int] == s) <==> #[trigger] t1.contains(s) by {
                if exists|a: int| 0 <= a < order@.len() && ms[#[trigger] order@[a] as int] == s {
                    let a = choose|a: int| 0 <= a < order@.len() && ms[#[trigger] order@[a] as int] == s;
                    assert(order@.contains(order@[a]));
                    if order@[a] == k {
                        assert(t1[k as int] == s);
                    } else {
                        let b = choose|b: int| 0 <= b < before.len() && before[b] == order@[a];
                        assert(ms[before[b] as int] == s);
                        assert(t0.contains(s));
                        let j = choose|j: int| 0 <= j < t0.len() && t0[j] == s;
                        assert(t1[j] == s);
                    }
                }
                if t1.contains(s) {
                    let j = choose|j: int| 0 <= j < t1.len() && t1[j] == s;
                    if j < k {
                        assert(t0[j] == s);
                        assert(t0.contains(s));
                        let a = choose|a: int| 0 <= a < before.len() && ms[#[trigger] before[a] as int] == s;
                        assert(order@.contains(before[a]));
                        let a2 = choose|a2: int| 0 <= a2 < order@.len() && order@[a2] == before[a];
                        assert(ms[order@[a2] as int] == s);
                    } else if seen {
                        assert(t0.contains(ms[k as int]));
                        let a = choose|a: int| 0 <= a < before.len() && ms[#[trigger] before[a] as int] == ms[k as int];
                        assert(ms[order@[a] as int] == s);
                    } else {
                        assert(order@.contains(k));
                        let a2 = choose|a2: int| 0 <= a2 < order@.len() && order@[a2] == k;
                        assert(ms[order@[a2] as int] == s);
                    }
                }
            }
        }
        k = k + 1;
    }
    assert(ms.take(k as int) =~= ms);
    let mut r: Vec<String> = Vec::new();
    let mut i: usize = 0;
    while i < order.len()
        invariant
            ms == strs(metrics@),
            sorted_by_id(ms, order@),
            0 <= i <= order@.len(),
            r@.len() == i,
            forall|a: int| 0 <= a < i ==> (#[trigger] r@[a])@ == ms[order@[a] as int],
        decreases order@.len() - i,
    {
        r.push(owned(metrics[order[i]].as_str()));
        i = i + 1;
    }
    proof {
        assert forall|a: int, b: int| 0 <= a < b < r@.len() implies lex_lt(#[trigger] r@[a]@, #[trigger] r@[b]@) by {
            assert(lex_lt(ms[order@[a] as int], ms[order@[b] as int]));
        }
        assert forall|s: Seq<char>| strs(r@).contains(s) <==> ms.contains(s) by {
            if strs(r@).contains(s) {
                let a = choose|a: int| 0 <= a < strs(r@).len() && strs(r@)[a] == s;
                assert(ms[order@[a] as int] == s);
                assert(ms.contains(s));
            }
            if ms.contains(s) {
                assert(ms.take(ms.len() as int) =~= ms);
                let a = choose|a: int| 0 <= a < order@.len() && ms[#[trigger] order@[a] as int] == s;
                assert(strs(r@)[a] == s);
            }
        }
    }
    r
}

} // verus!
