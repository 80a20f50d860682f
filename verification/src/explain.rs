//! `cargo rustics explain <id>` — reverse lookup of a violation id in a
//! snapshot, and the text blocks that describe the violation.

use vstd::prelude::*;
use crate::analyze::strs;
use crate::ai_report::ViolationEntry;
use crate::report::{basis_word, basis_word_spec, JustificationBasis, Severity};
use crate::rules::indented_lines;
use crate::text::{decimal, lines_spec, owned, push_decimal, push_str, str_eq};

verus! {

/// The error when the snapshot has no violation with the id.
pub open spec fn not_found_message(id: Seq<char>) -> Seq<char> {
    "violation id `"@ + id + "` not found in snapshot"@
}

/// The position of the first violation whose id is `id`.
pub fn find_violation(ids: &[String], id: &str) -> (r: Result<usize, String>)
    ensures
        match r {
            Ok(i) => i < ids@.len() && strs(ids@)[i as int] == id@ && forall|j: int|
                0 <= j < i ==> strs(ids@)[j] != id@,
            Err(m) => m@ == not_found_message(id@) && !strs(ids@).contains(id@),
        },
{
    let ghost v = strs(ids@);
    let mut i: usize = 0;
    while i < ids.len()
        invariant
            0 <= i <= ids@.len(),
            v == strs(ids@),
            forall|j: int| 0 <= j < i ==> v[j] != id@,
        decreases ids@.len() - i,
    {
        if str_eq(ids[i].as_str(), id) {
            return Ok(i);
        }
        i = i + 1;
    }
    proof {
        if v.contains(id@) {
            let j = choose|j: int| 0 <= j < v.len() && v[j] == id@;
            assert(v[j] != id@);
        }
    }
    let mut m = owned("violation id `");
    push_str(&mut m, id);
    push_str(&mut m, "` not found in snapshot");
    Err(m)
}

/// The header and locator lines of an explanation.
pub open spec fn identity_text(id: Seq<char>, file: Seq<char>, line: nat) -> Seq<char> {
    "# rustics explain v1\nid: "@ + id + "\nfile: "@ + file + "\nline: "@ + decimal(line) + "\n"@
}

/// Renders the header and locator lines.
pub fn identity_block(id: &str, file: &str, line: usize) -> (s: String)
    ensures
        s@ == identity_text(id@, file@, line as nat),
{
    let mut s = owned("# rustics explain v1\nid: ");
    push_str(&mut s, id);
    push_str(&mut s, "\nfile: ");
    push_str(&mut s, file);
    push_str(&mut s, "\nline: ");
    push_decimal(&mut s, line as u64);
    push_str(&mut s, "\n");
    s
}

/// The rationale as a YAML literal block, or nothing without one.
pub open spec fn rationale_block_text(r: Option<Seq<char>>) -> Seq<char> {
    match r {
        Some(t) => "rationale: |\n"@ + indented_lines(lines_spec(t), "  "@),
        None => Seq::empty(),
    }
}

/// Renders the rationale block.
pub fn rationale_block(rationale: Option<&str>) -> (s: String)
    ensures
        s@ == rationale_block_text(
            match rationale {
                Some(t) => Some(t@),
                None => None,
            },
        ),
{
    match rationale {
        None => String::new(),
        Some(t) => {
            let mut s = owned("rationale: |\n");
            crate::rules::push_indented_lines(&mut s, t, "  ");
            s
        },
    }
}

/// The bullet lines of a list, two spaces in.
pub open spec fn list_items_text(items: Seq<Seq<char>>) -> Seq<char>
    decreases items.len(),
{
    if items.len() == 0 {
        Seq::empty()
    } else {
        list_items_text(items.drop_last()) + "  - "@ + items.last() + "\n"@
    }
}

/// A labelled list, or nothing for an empty one.
pub open spec fn list_block_text(label: Seq<char>, items: Seq<Seq<char>>) -> Seq<char> {
    if items.len() == 0 {
        Seq::empty()
    } else {
        label + ":\n"@ + list_items_text(items)
    }
}

/// Renders a labelled list of strings.
pub fn string_list_block(label: &str, items: &[String]) -> (s: String)
    ensures
        s@ == list_block_text(label@, strs(items@)),
{
    if items.len() == 0 {
        return String::new();
    }
    let ghost iv = strs(items@);
    let mut s = owned(label);
    push_str(&mut s, ":\n");
    let ghost head = s@;
    let mut i: usize = 0;
    assert(iv.take(0) =~= Seq::<Seq<char>>::empty());
    while i < items.len()
        invariant
            0 <= i <= items@.len(),
            iv == strs(items@),
            s@ == head + list_items_text(iv.take(i as int)),
        decreases items@.len() - i,
    {
        proof {
            let t = iv.take(i + 1);
            assert(t.drop_last() =~= iv.take(i as int));
            assert(t.last() == items@[i as int]@);
        }
        push_str(&mut s, "  - ");
        push_str(&mut s, items[i].as_str());
        push_str(&mut s, "\n");
        i = i + 1;
    }
    assert(iv.take(i as int) =~= iv);
    s
}

/// How the explanation names a severity: its variant name.
pub open spec fn severity_name_spec(s: Severity) -> Seq<char> {
    match s {
        Severity::Error => "Error"@,
        Severity::Warning => "Warning"@,
        Severity::Info => "Info"@,
    }
}

/// The variant name of a severity.
pub fn severity_name(s: Severity) -> (w: &'static str)
    ensures
        w@ == severity_name_spec(s),
{
    match s {
        Severity::Error => "Error",
        Severity::Warning => "Warning",
        Severity::Info => "Info",
    }
}

/// The measurement lines of an explanation: scope, lens, the rendered
/// value and threshold, and the severity.
pub open spec fn metric_text(scope: Seq<char>, metric: Seq<char>, value: Seq<char>, threshold: Seq<char>, severity: Severity) -> Seq<char> {
    "scope: "@ + scope + "\nmetric: "@ + metric + "\nvalue: "@ + value + "\nthreshold: "@ + threshold
        + "\nseverity: "@ + severity_name_spec(severity) + "\n"@
}

/// Renders the measurement lines; `value` and `threshold` come rendered.
pub fn metric_block(scope: &str, metric: &str, value: &str, threshold: &str, severity: Severity) -> (s: String)
    ensures
        s@ == metric_text(scope@, metric@, value@, threshold@, severity),
{
    let mut s = owned("scope: ");
    push_str(&mut s, scope);
    push_str(&mut s, "\nmetric: ");
    push_str(&mut s, metric);
    push_str(&mut s, "\nvalue: ");
    push_str(&mut s, value);
    push_str(&mut s, "\nthreshold: ");
    push_str(&mut s, threshold);
    push_str(&mut s, "\nseverity: ");
    push_str(&mut s, severity_name(severity));
    push_str(&mut s, "\n");
    s
}

/// The coverage lines of a justified violation.
pub open spec fn justified_text(by: JustificationBasis, threshold: Seq<char>, actual: Seq<char>) -> Seq<char> {
    "complexityJustified:\n  by: "@ + basis_word_spec(by) + "\n  threshold: "@ + threshold + "\n  actual: "@
        + actual + "\n"@
}

/// Renders the coverage lines; the figures come rendered.
pub fn justified_block(by: JustificationBasis, threshold: &str, actual: &str) -> (s: String)
    ensures
        s@ == justified_text(by, threshold@, actual@),
{
    let mut s = owned("complexityJustified:\n  by: ");
    push_str(&mut s, basis_word(by));
    push_str(&mut s, "\n  threshold: ");
    push_str(&mut s, threshold);
    push_str(&mut s, "\n  actual: ");
    push_str(&mut s, actual);
    push_str(&mut s, "\n");
    s
}

/// The whole explanation of a violation: identity, measurement, the
/// coverage lines when justified, the rationale, refactor hints and
/// references.
pub open spec fn explanation_text(e: ViolationEntry) -> Seq<char> {
    let just = match e.justified {
        Some(j) => justified_text(j.by, j.threshold@, j.actual@),
        None => Seq::empty(),
    };
    let rat = match e.rationale {
        Some(r) => Some(r@),
        None => None,
    };
    identity_text(e.id@, e.file@, e.line as nat) + metric_text(e.scope@, e.metric@, e.value@, e.threshold@, e.severity)
        + just + rationale_block_text(rat) + list_block_text("refactorHints"@, strs(e.refactor_hints@))
        + list_block_text("references"@, strs(e.references@))
}

/// Renders the explanation of a violation.
pub fn explanation(e: &ViolationEntry) -> (s: String)
    ensures
        s@ == explanation_text(*e),
{
    let mut s = identity_block(e.id.as_str(), e.file.as_str(), e.line);
    let b = metric_block(e.scope.as_str(), e.metric.as_str(), e.value.as_str(), e.threshold.as_str(), e.severity);
    push_str(&mut s, b.as_str());
    match &e.justified {
        Some(j) => {
            let b = justified_block(j.by, j.threshold.as_str(), j.actual.as_str());
            push_str(&mut s, b.as_str());
        },
        None => {},
    }
    let b = match &e.rationale {
        Some(t) => rationale_block(Some(t.as_str())),
        None => rationale_block(None),
    };
    push_str(&mut s, b.as_str());
    let b = string_list_block("refactorHints", e.refactor_hints.as_slice());
    push_str(&mut s, b.as_str());
    let b = string_list_block("references", e.references.as_slice());
    push_str(&mut s, b.as_str());
    assert(s@ =~= explanation_text(*e));
    s
}

/// `explain <id>`: the explanation of the first violation with the id,
/// or the not-found error.
pub fn explain(violations: &[ViolationEntry], id: &str) -> (r: Result<String, String>)
    ensures
        match r {
            Ok(t) => exists|i: int|
                0 <= i < violations@.len() && violations@[i].id@ == id@ && t@ == explanation_text(violations@[i])
                    && forall|j: int| 0 <= j < i ==> violations@[j].id@ != id@,
            Err(m) => m@ == not_found_message(id@) && forall|j: int|
                0 <= j < violations@.len() ==> violations@[j].id@ != id@,
        },
{
    let mut i: usize = 0;
    while i < violations.len()
        invariant
            0 <= i <= violations@.len(),
            forall|j: int| 0 <= j < i ==> violations@[j].id@ != id@,
        decreases violations@.len() - i,
    {
        if str_eq(violations[i].id.as_str(), id) {
            return Ok(explanation(&violations[i]));
        }
        i = i + 1;
    }
    let mut m = owned("violation id `");
    push_str(&mut m, id);
    push_str(&mut m, "` not found in snapshot");
    Err(m)
}

} // verus!
