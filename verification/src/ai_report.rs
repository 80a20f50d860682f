//! The AI report: strict YAML 1.2 with a contract header.
//!
//! Every block has a fixed field order and indentation, every free-form
//! string goes through [`scalar_string`], and multi-line text is a YAML
//! literal block. The numeric fields of a violation (its value,
//! threshold and coverage figures) are floating-point: they arrive here
//! already rendered.

use vstd::prelude::*;
use crate::analyze::strs;
use crate::report::{
    basis_word, basis_word_spec, scope_kind_word, scope_kind_word_spec, severity_word,
    severity_word_spec, JustificationBasis, ScopeKind, Severity, StaleDismissal, Summary,
};
use crate::rules::{indented_lines, push_indented_lines};
use crate::text::{decimal, is_prefix, lines_spec, owned, push_decimal, push_str};
use crate::unused::UnusedItem;
use crate::yaml::{scalar_spec, scalar_string};

verus! {

/// `label: value` on its own line after `indent`.
pub open spec fn field(indent: Seq<char>, label: Seq<char>, value: Seq<char>) -> Seq<char> {
    indent + label + ": "@ + value + "\n"@
}

/// Appends `indent + label + ": " + value + "\n"`.
fn push_field(s: &mut String, indent: &str, label: &str, value: &str)
    ensures
        final(s)@ == old(s)@ + field(indent@, label@, value@),
{
    push_str(s, indent);
    push_str(s, label);
    push_str(s, ": ");
    push_str(s, value);
    push_str(s, "\n");
    assert(s@ =~= old(s)@ + field(indent@, label@, value@));
}

/// Appends a field whose value is a decimal count.
fn push_count_field(s: &mut String, indent: &str, label: &str, n: usize)
    ensures
        final(s)@ == old(s)@ + field(indent@, label@, decimal(n as nat)),
{
    push_str(s, indent);
    push_str(s, label);
    push_str(s, ": ");
    push_decimal(s, n as u64);
    push_str(s, "\n");
    assert(s@ =~= old(s)@ + field(indent@, label@, decimal(n as nat)));
}

/// Appends a field whose value is quoted as needed.
fn push_scalar_field(s: &mut String, indent: &str, label: &str, value: &str)
    ensures
        final(s)@ == old(s)@ + field(indent@, label@, scalar_spec(value@)),
{
    let q = scalar_string(value);
    push_field(s, indent, label, q.as_str());
}

/// The contract header: title, version and generation time.
pub open spec fn header_text(version: u32, generated_at: Seq<char>) -> Seq<char> {
    "# rustics ai-report v"@ + decimal(version as nat) + "\n"@ + field(""@, "version"@, decimal(version as nat))
        + field(""@, "generatedAt"@, scalar_spec(generated_at))
}

/// Renders the contract header.
pub fn header_block(version: u32, generated_at: &str) -> (s: String)
    ensures
        s@ == header_text(version, generated_at@),
{
    let mut s = owned("# rustics ai-report v");
    push_decimal(&mut s, version as u64);
    push_str(&mut s, "\n");
    push_count_field(&mut s, "", "version", version as usize);
    push_scalar_field(&mut s, "", "generatedAt", generated_at);
    assert(s@ =~= header_text(version, generated_at@));
    s
}

/// A count field that appears only when the count is not zero.
pub open spec fn nonzero_field(label: Seq<char>, n: usize) -> Seq<char> {
    if n > 0 {
        field("  "@, label, decimal(n as nat))
    } else {
        Seq::empty()
    }
}

/// The summary block: the four counts always, then the unused count and
/// the justified counts when they are not zero.
pub open spec fn summary_text(s: Summary, unused_count: usize) -> Seq<char> {
    "summary:\n"@ + field("  "@, "filesAnalyzed"@, decimal(s.files_analyzed as nat))
        + field("  "@, "violations"@, decimal(s.violations as nat))
        + field("  "@, "warnings"@, decimal(s.warnings as nat))
        + field("  "@, "errors"@, decimal(s.errors as nat))
        + nonzero_field("unused"@, unused_count)
        + nonzero_field("warningsJustified"@, s.warnings_justified)
        + nonzero_field("errorsJustified"@, s.errors_justified)
}

/// Appends a count field when the count is not zero.
fn push_nonzero_field(s: &mut String, label: &str, n: usize)
    ensures
        final(s)@ == old(s)@ + nonzero_field(label@, n),
{
    if n > 0 {
        push_count_field(s, "  ", label, n);
    }
}

/// Renders the summary block.
pub fn summary_block(summary: &Summary, unused_count: usize) -> (s: String)
    ensures
        s@ == summary_text(*summary, unused_count),
{
    let mut s = owned("summary:\n");
    push_count_field(&mut s, "  ", "filesAnalyzed", summary.files_analyzed);
    push_count_field(&mut s, "  ", "violations", summary.violations);
    push_count_field(&mut s, "  ", "warnings", summary.warnings);
    push_count_field(&mut s, "  ", "errors", summary.errors);
    push_nonzero_field(&mut s, "unused", unused_count);
    push_nonzero_field(&mut s, "warningsJustified", summary.warnings_justified);
    push_nonzero_field(&mut s, "errorsJustified", summary.errors_justified);
    assert(s@ =~= summary_text(*summary, unused_count));
    s
}

/// The line that opens the violation list: an inline empty list when
/// there are none.
pub open spec fn violations_heading_text(count: usize) -> Seq<char> {
    if count == 0 {
        "violations: []\n"@
    } else {
        "violations:\n"@
    }
}

/// Renders the line that opens the violation list.
pub fn violations_heading(count: usize) -> (s: String)
    ensures
        s@ == violations_heading_text(count),
{
    if count == 0 {
        owned("violations: []\n")
    } else {
        owned("violations:\n")
    }
}

/// Where a violation is: the list entry's id, file, line, scope and
/// scope kind.
pub open spec fn locator_text(id: Seq<char>, file: Seq<char>, line: usize, scope: Seq<char>, kind: ScopeKind) -> Seq<char> {
    field("  - "@, "id"@, scalar_spec(id)) + field("    "@, "file"@, scalar_spec(file)) + field(
        "    "@,
        "line"@,
        decimal(line as nat),
    ) + field("    "@, "scope"@, scalar_spec(scope)) + field("    "@, "scopeKind"@, scope_kind_word_spec(kind))
}

/// Renders the locator fields of a violation.
pub fn violation_locator(id: &str, file: &str, line: usize, scope: &str, kind: ScopeKind) -> (s: String)
    ensures
        s@ == locator_text(id@, file@, line, scope@, kind),
{
    let mut s = String::new();
    push_scalar_field(&mut s, "  - ", "id", id);
    push_scalar_field(&mut s, "    ", "file", file);
    push_count_field(&mut s, "    ", "line", line);
    push_scalar_field(&mut s, "    ", "scope", scope);
    push_field(&mut s, "    ", "scopeKind", scope_kind_word(kind));
    assert(s@ =~= locator_text(id@, file@, line, scope@, kind));
    s
}

/// What a violation measured: the lens, the rendered value and
/// threshold, and the severity.
pub open spec fn metric_text(metric: Seq<char>, value: Seq<char>, threshold: Seq<char>, severity: Severity) -> Seq<char> {
    field("    "@, "metric"@, scalar_spec(metric)) + field("    "@, "value"@, value) + field(
        "    "@,
        "threshold"@,
        threshold,
    ) + field("    "@, "severity"@, severity_word_spec(severity))
}

/// Renders the measurement fields of a violation; `value` and `threshold`
/// come rendered.
pub fn violation_metric(metric: &str, value: &str, threshold: &str, severity: Severity) -> (s: String)
    ensures
        s@ == metric_text(metric@, value@, threshold@, severity),
{
    let mut s = String::new();
    push_scalar_field(&mut s, "    ", "metric", metric);
    push_field(&mut s, "    ", "value", value);
    push_field(&mut s, "    ", "threshold", threshold);
    push_field(&mut s, "    ", "severity", severity_word(severity));
    assert(s@ =~= metric_text(metric@, value@, threshold@, severity));
    s
}

/// The block that marks a violation as covered by tests: the basis and
/// the rendered threshold and actual coverage.
pub open spec fn justified_text(by: JustificationBasis, threshold: Seq<char>, actual: Seq<char>) -> Seq<char> {
    "    complexityJustified:\n"@ + field("      "@, "by"@, basis_word_spec(by)) + field(
        "      "@,
        "threshold"@,
        threshold,
    ) + field("      "@, "actual"@, actual)
}

/// Renders the `complexityJustified` block.
pub fn justified_block(by: JustificationBasis, threshold: &str, actual: &str) -> (s: String)
    ensures
        s@ == justified_text(by, threshold@, actual@),
{
    let mut s = owned("    complexityJustified:\n");
    push_field(&mut s, "      ", "by", basis_word(by));
    push_field(&mut s, "      ", "threshold", threshold);
    push_field(&mut s, "      ", "actual", actual);
    assert(s@ =~= justified_text(by, threshold@, actual@));
    s
}

/// The rationale of a violation as a literal block, or nothing.
pub open spec fn explain_text(rationale: Option<Seq<char>>) -> Seq<char> {
    match rationale {
        Some(t) => "    explain: |\n"@ + indented_lines(lines_spec(t), "      "@),
        None => Seq::empty(),
    }
}

/// Renders the rationale block of a violation.
pub fn explain_block(rationale: Option<&str>) -> (s: String)
    ensures
        s@ == explain_text(
            match rationale {
                Some(t) => Some(t@),
                None => None,
            },
        ),
{
    match rationale {
        None => String::new(),
        Some(t) => {
            let mut s = owned("    explain: |\n");
            push_indented_lines(&mut s, t, "      ");
            s
        },
    }
}

/// The items of a list under a violation, each quoted as needed.
pub open spec fn list_items(items: Seq<Seq<char>>) -> Seq<char>
    decreases items.len(),
{
    if items.len() == 0 {
        Seq::empty()
    } else {
        list_items(items.drop_last()) + "      - "@ + scalar_spec(items.last()) + "\n"@
    }
}

/// A headed list under a violation, or nothing for an empty list.
pub open spec fn string_list_text(header: Seq<char>, items: Seq<Seq<char>>) -> Seq<char> {
    if items.len() == 0 {
        Seq::empty()
    } else {
        header + "\n"@ + list_items(items)
    }
}

/// Renders a headed list of strings (refactor hints, references).
pub fn string_list(header: &str, items: &[String]) -> (s: String)
    ensures
        s@ == string_list_text(header@, strs(items@)),
{
    if items.len() == 0 {
        return String::new();
    }
    let ghost iv = strs(items@);
    let mut s = owned(header);
    push_str(&mut s, "\n");
    let ghost head = s@;
    let mut i: usize = 0;
    assert(iv.take(0) =~= Seq::<Seq<char>>::empty());
    while i < items.len()
        invariant
            0 <= i <= items@.len(),
            iv == strs(items@),
            s@ == head + list_items(iv.take(i as int)),
        decreases items@.len() - i,
    {
        proof {
            let t = iv.take(i + 1);
            assert(t.drop_last() =~= iv.take(i as int));
            assert(t.last() == items@[i as int]@);
        }
        push_str(&mut s, "      - ");
        let q = scalar_string(items[i].as_str());
        push_str(&mut s, q.as_str());
        push_str(&mut s, "\n");
        i = i + 1;
    }
    assert(iv.take(i as int) =~= iv);
    s
}

/// One unused finding: file, line, name, kind, and its parent when it
/// has one.
pub open spec fn unused_entry(u: UnusedItem) -> Seq<char> {
    field("  - "@, "file"@, scalar_spec(u.file@)) + field("    "@, "line"@, decimal(u.line as nat)) + field(
        "    "@,
        "name"@,
        scalar_spec(u.name@),
    ) + field("    "@, "kind"@, scalar_spec(u.kind@)) + match u.parent {
        Some(p) => field("    "@, "parent"@, scalar_spec(p@)),
        None => Seq::empty(),
    }
}

/// The entries of the unused list.
pub open spec fn unused_entries(items: Seq<UnusedItem>) -> Seq<char>
    decreases items.len(),
{
    if items.len() == 0 {
        Seq::empty()
    } else {
        unused_entries(items.drop_last()) + unused_entry(items.last())
    }
}

/// The unused block, or nothing when there are no findings.
pub open spec fn unused_text(items: Seq<UnusedItem>) -> Seq<char> {
    if items.len() == 0 {
        Seq::empty()
    } else {
        "unused:\n"@ + unused_entries(items)
    }
}

/// Appends one unused entry.
fn push_unused_entry(s: &mut String, u: &UnusedItem)
    ensures
        final(s)@ == old(s)@ + unused_entry(*u),
{
    push_scalar_field(s, "  - ", "file", u.file.as_str());
    push_count_field(s, "    ", "line", u.line);
    push_scalar_field(s, "    ", "name", u.name.as_str());
    push_scalar_field(s, "    ", "kind", u.kind.as_str());
    match &u.parent {
        Some(p) => {
            push_scalar_field(s, "    ", "parent", p.as_str());
        },
        None => {},
    }
    assert(s@ =~= old(s)@ + unused_entry(*u));
}

/// Renders the unused block.
pub fn unused_block(items: &[UnusedItem]) -> (s: String)
    ensures
        s@ == unused_text(items@),
{
    if items.len() == 0 {
        return String::new();
    }
    let mut s = owned("unused:\n");
    let ghost head = s@;
    let mut i: usize = 0;
    assert(items@.take(0) =~= Seq::<UnusedItem>::empty());
    while i < items.len()
        invariant
            0 <= i <= items@.len(),
            s@ == head + unused_entries(items@.take(i as int)),
        decreases items@.len() - i,
    {
        proof {
            let t = items@.take(i + 1);
            assert(t.drop_last() =~= items@.take(i as int));
        }
        push_unused_entry(&mut s, &items[i]);
        i = i + 1;
    }
    assert(items@.take(i as int) =~= items@);
    s
}

/// One stale dismissal: file, scope, metric and reason.
pub open spec fn stale_entry(d: StaleDismissal) -> Seq<char> {
    field("  - "@, "file"@, scalar_spec(d.file@)) + field("    "@, "scope"@, scalar_spec(d.scope@)) + field(
        "    "@,
        "metric"@,
        scalar_spec(d.metric@),
    ) + field("    "@, "reason"@, scalar_spec(d.reason@))
}

/// The entries of the stale-dismissal list.
pub open spec fn stale_entries(items: Seq<StaleDismissal>) -> Seq<char>
    decreases items.len(),
{
    if items.len() == 0 {
        Seq::empty()
    } else {
        stale_entries(items.drop_last()) + stale_entry(items.last())
    }
}

/// The stale-dismissal block, or nothing when there are none.
pub open spec fn stale_text(items: Seq<StaleDismissal>) -> Seq<char> {
    if items.len() == 0 {
        Seq::empty()
    } else {
        "staleDismissals:\n"@ + stale_entries(items)
    }
}

/// Appends one stale-dismissal entry.
fn push_stale_entry(s: &mut String, d: &StaleDismissal)
    ensures
        final(s)@ == old(s)@ + stale_entry(*d),
{
    push_scalar_field(s, "  - ", "file", d.file.as_str());
    push_scalar_field(s, "    ", "scope", d.scope.as_str());
    push_scalar_field(s, "    ", "metric", d.metric.as_str());
    push_scalar_field(s, "    ", "reason", d.reason.as_str());
    assert(s@ =~= old(s)@ + stale_entry(*d));
}

/// Renders the stale-dismissal block.
pub fn stale_block(items: &[StaleDismissal]) -> (s: String)
    ensures
        s@ == stale_text(items@),
{
    if items.len() == 0 {
        return String::new();
    }
    let mut s = owned("staleDismissals:\n");
    let ghost head = s@;
    let mut i: usize = 0;
    assert(items@.take(0) =~= Seq::<StaleDismissal>::empty());
    while i < items.len()
        invariant
            0 <= i <= items@.len(),
            s@ == head + stale_entries(items@.take(i as int)),
        decreases items@.len() - i,
    {
        proof {
            let t = items@.take(i + 1);
            assert(t.drop_last() =~= items@.take(i as int));
        }
        push_stale_entry(&mut s, &items[i]);
        i = i + 1;
    }
    assert(items@.take(i as int) =~= items@);
    s
}

/// The `truncated:` line, present only when `--limit` dropped entries.
pub open spec fn truncated_text(truncated: usize) -> Seq<char> {
    if truncated > 0 {
        field(""@, "truncated"@, decimal(truncated as nat))
    } else {
        Seq::empty()
    }
}

/// Renders the `truncated:` line.
pub fn truncated_line(truncated: usize) -> (s: String)
    ensures
        s@ == truncated_text(truncated),
{
    if truncated > 0 {
        let mut s = String::new();
        push_count_field(&mut s, "", "truncated", truncated);
        s
    } else {
        String::new()
    }
}

/// Which violations get their rationale, refactor hints and references
/// written out.
#[derive(Debug)]
pub struct ReportOptions {
    /// Explain every violation.
    pub auto_explain: bool,
    /// Lens ids whose violations are explained even without
    /// `auto_explain`.
    pub explain_metrics: Vec<String>,
}

/// Whether a violation of lens `metric` is explained.
pub open spec fn explains(auto_explain: bool, explain_metrics: Seq<Seq<char>>, metric: Seq<char>) -> bool {
    auto_explain || explain_metrics.contains(metric)
}

impl ReportOptions {
    /// Whether violations of lens `metric` are explained: always under
    /// `auto_explain`, else when the lens was named with `--explain`.
    pub fn should_explain(&self, metric: &str) -> (b: bool)
        ensures
            b == explains(self.auto_explain, strs(self.explain_metrics@), metric@),
    {
        if self.auto_explain {
            return true;
        }
        let ghost v = strs(self.explain_metrics@);
        let mut i: usize = 0;
        while i < self.explain_metrics.len()
            invariant
                0 <= i <= self.explain_metrics@.len(),
                v == strs(self.explain_metrics@),
                forall|j: int| 0 <= j < i ==> v[j] != metric@,
            decreases self.explain_metrics@.len() - i,
        {
            if crate::text::str_eq(self.explain_metrics[i].as_str(), metric) {
                assert(v[i as int] == metric@);
                return true;
            }
            i = i + 1;
        }
        proof {
            if v.contains(metric@) {
                let j = choose|j: int| 0 <= j < v.len() && v[j] == metric@;
                assert(v[j] != metric@);
            }
        }
        false
    }
}

impl Default for ReportOptions {
    /// No explanations: neither `auto_explain` nor any named lens.
    fn default() -> (o: Self)
        ensures
            !o.auto_explain,
            o.explain_metrics@.len() == 0,
    {
        ReportOptions { auto_explain: false, explain_metrics: Vec::new() }
    }
}

/// The options of the AI report: every violation is explained.
pub fn ai_default_options() -> (o: ReportOptions)
    ensures
        o.auto_explain,
        o.explain_metrics@.len() == 0,
{
    ReportOptions { auto_explain: true, explain_metrics: Vec::new() }
}

/// The coverage that justifies a complexity-class violation, its figures
/// rendered.
#[derive(Debug)]
pub struct Justified {
    /// Which coverage.
    pub by: JustificationBasis,
    /// The coverage threshold, rendered.
    pub threshold: String,
    /// The file's coverage, rendered.
    pub actual: String,
}

/// One violation as the AI report lists it, its figures rendered.
#[derive(Debug)]
pub struct ViolationEntry {
    /// Stable id.
    pub id: String,
    /// Workspace-relative file.
    pub file: String,
    /// 1-based line.
    pub line: usize,
    /// Scope path.
    pub scope: String,
    /// Kind of the scope.
    pub scope_kind: ScopeKind,
    /// Lens id.
    pub metric: String,
    /// The measured value, rendered.
    pub value: String,
    /// The crossed threshold, rendered.
    pub threshold: String,
    /// Severity tier.
    pub severity: Severity,
    /// The coverage that justifies it, if any.
    pub justified: Option<Justified>,
    /// Why the lens matters.
    pub rationale: Option<String>,
    /// Suggested refactors.
    pub refactor_hints: Vec<String>,
    /// Further reading.
    pub references: Vec<String>,
    /// The rendered `rustContext` block; empty when there is none.
    pub rust_context: String,
}

/// One list entry of the violations: locator and measurement, the
/// coverage block when justified, when explained the rationale, refactor
/// hints and references, and last the Rust-context block.
pub open spec fn entry_text(e: ViolationEntry, explain: bool) -> Seq<char> {
    let core = locator_text(e.id@, e.file@, e.line, e.scope@, e.scope_kind) + metric_text(
        e.metric@,
        e.value@,
        e.threshold@,
        e.severity,
    );
    let just = match e.justified {
        Some(j) => justified_text(j.by, j.threshold@, j.actual@),
        None => Seq::empty(),
    };
    let rat = match e.rationale {
        Some(r) => Some(r@),
        None => None,
    };
    let expl = if explain {
        explain_text(rat) + string_list_text("    refactorHints:"@, strs(e.refactor_hints@))
            + string_list_text("    references:"@, strs(e.references@))
    } else {
        Seq::empty()
    };
    core + just + expl + e.rust_context@
}

/// Renders one violation entry under `opts`.
pub fn violation_entry(e: &ViolationEntry, opts: &ReportOptions) -> (s: String)
    ensures
        s@ == entry_text(*e, explains(opts.auto_explain, strs(opts.explain_metrics@), e.metric@)),
{
    let mut s = violation_locator(e.id.as_str(), e.file.as_str(), e.line, e.scope.as_str(), e.scope_kind);
    let m = violation_metric(e.metric.as_str(), e.value.as_str(), e.threshold.as_str(), e.severity);
    push_str(&mut s, m.as_str());
    match &e.justified {
        Some(j) => {
            let b = justified_block(j.by, j.threshold.as_str(), j.actual.as_str());
            push_str(&mut s, b.as_str());
        },
        None => {},
    }
    if opts.should_explain(e.metric.as_str()) {
        let r = match &e.rationale {
            Some(t) => explain_block(Some(t.as_str())),
            None => explain_block(None),
        };
        push_str(&mut s, r.as_str());
        let h = string_list("    refactorHints:", e.refactor_hints.as_slice());
        push_str(&mut s, h.as_str());
        let f = string_list("    references:", e.references.as_slice());
        push_str(&mut s, f.as_str());
    }
    push_str(&mut s, e.rust_context.as_str());
    assert(s@ =~= entry_text(*e, explains(opts.auto_explain, strs(opts.explain_metrics@), e.metric@)));
    s
}

/// The entries of the violation list, each explained or not by `opts`.
pub open spec fn entries_text(entries: Seq<ViolationEntry>, opts: ReportOptions) -> Seq<char>
    decreases entries.len(),
{
    if entries.len() == 0 {
        Seq::empty()
    } else {
        entries_text(entries.drop_last(), opts) + entry_text(
            entries.last(),
            explains(opts.auto_explain, strs(opts.explain_metrics@), entries.last().metric@),
        )
    }
}

/// The whole AI report: header, summary, violations, unused findings,
/// stale dismissals, and the `truncated:` line.
pub open spec fn report_text(
    version: u32,
    generated_at: Seq<char>,
    summary: Summary,
    entries: Seq<ViolationEntry>,
    unused: Seq<UnusedItem>,
    stale: Seq<StaleDismissal>,
    truncated: usize,
    opts: ReportOptions,
) -> Seq<char> {
    header_text(version, generated_at) + summary_text(summary, unused.len() as usize) + violations_heading_text(
        entries.len() as usize,
    ) + entries_text(entries, opts) + unused_text(unused) + stale_text(stale) + truncated_text(truncated)
}

/// Renders the AI report.
pub fn render_report(
    version: u32,
    generated_at: &str,
    summary: &Summary,
    entries: &[ViolationEntry],
    unused: &[UnusedItem],
    stale: &[StaleDismissal],
    truncated: usize,
    opts: &ReportOptions,
) -> (s: String)
    ensures
        s@ == report_text(version, generated_at@, *summary, entries@, unused@, stale@, truncated, *opts),
{
    let mut s = header_block(version, generated_at);
    let b = summary_block(summary, unused.len());
    push_str(&mut s, b.as_str());
    let b = violations_heading(entries.len());
    push_str(&mut s, b.as_str());
    let ghost head = s@;
    let mut i: usize = 0;
    assert(entries@.take(0) =~= Seq::<ViolationEntry>::empty());
    while i < entries.len()
        invariant
            0 <= i <= entries@.len(),
            s@ == head + entries_text(entries@.take(i as int), *opts),
        decreases entries@.len() - i,
    {
        proof {
            let t = entries@.take(i + 1);
            assert(t.drop_last() =~= entries@.take(i as int));
            assert(t.last() == entries@[i as int]);
        }
        let e = violation_entry(&entries[i], opts);
        push_str(&mut s, e.as_str());
        i = i + 1;
    }
    assert(entries@.take(i as int) =~= entries@);
    let b = unused_block(unused);
    push_str(&mut s, b.as_str());
    let b = stale_block(stale);
    push_str(&mut s, b.as_str());
    let b = truncated_line(truncated);
    push_str(&mut s, b.as_str());
    assert(s@ =~= report_text(version, generated_at@, *summary, entries@, unused@, stale@, truncated, *opts));
    s
}

/// A string is a prefix of itself followed by anything.
proof fn lemma_prefix_of_concat(a: Seq<char>, b: Seq<char>)
    ensures
        is_prefix(a, a + b),
{
    assert((a + b).subrange(0, a.len() as int) =~= a);
}

/// A prefix of a prefix is a prefix.
proof fn lemma_prefix_trans(a: Seq<char>, b: Seq<char>, c: Seq<char>)
    requires
        is_prefix(a, b),
        is_prefix(b, c),
    ensures
        is_prefix(a, c),
{
    assert(c.subrange(0, a.len() as int) =~= b.subrange(0, a.len() as int));
}

/// Whatever it reports, the AI report opens with its contract header
/// line `# rustics ai-report v<version>`.
pub proof fn law_ai_report_opens_with_header(
    version: u32,
    generated_at: Seq<char>,
    summary: Summary,
    entries: Seq<ViolationEntry>,
    unused: Seq<UnusedItem>,
    stale: Seq<StaleDismissal>,
    truncated: usize,
    opts: ReportOptions,
)
    ensures
        is_prefix(
            "# rustics ai-report v"@ + decimal(version as nat) + "\n"@,
            report_text(version, generated_at, summary, entries, unused, stale, truncated, opts),
        ),
{
    let p = "# rustics ai-report v"@ + decimal(version as nat) + "\n"@;
    let h = header_text(version, generated_at);
    let h1 = h + summary_text(summary, unused.len() as usize);
    let h2 = h1 + violations_heading_text(entries.len() as usize);
    let h3 = h2 + entries_text(entries, opts);
    let h4 = h3 + unused_text(unused);
    let h5 = h4 + stale_text(stale);
    let h6 = h5 + truncated_text(truncated);
    lemma_prefix_of_concat(p, field(""@, "version"@, decimal(version as nat)) + field(""@, "generatedAt"@, scalar_spec(generated_at)));
    assert(h =~= p + (field(""@, "version"@, decimal(version as nat)) + field(""@, "generatedAt"@, scalar_spec(generated_at))));
    lemma_prefix_of_concat(h, summary_text(summary, unused.len() as usize));
    lemma_prefix_trans(p, h, h1);
    lemma_prefix_of_concat(h1, violations_heading_text(entries.len() as usize));
    lemma_prefix_trans(p, h1, h2);
    lemma_prefix_of_concat(h2, entries_text(entries, opts));
    lemma_prefix_trans(p, h2, h3);
    lemma_prefix_of_concat(h3, unused_text(unused));
    lemma_prefix_trans(p, h3, h4);
    lemma_prefix_of_concat(h4, stale_text(stale));
    lemma_prefix_trans(p, h4, h5);
    lemma_prefix_of_concat(h5, truncated_text(truncated));
    lemma_prefix_trans(p, h5, h6);
}

} // verus!
