//! The console report: one lined-up row per violation for a terminal.
//!
//! Columns are padded to the widest entry of the run, measured in bytes
//! and padded in characters, as `{:<width$}` does. The value, threshold
//! and coverage figures of a row are floating-point and arrive rendered.

use vstd::prelude::*;
use crate::ai_report::{explains, ReportOptions};
use crate::analyze::strs;
use crate::report::{basis_word, basis_word_spec, JustificationBasis, ScopeKind, Severity};
use crate::rules::{indented_lines, push_indented_lines};
use crate::text::{chars_of, decimal, lines_spec, owned, push_char, push_decimal, push_str};
use crate::unused::UnusedItem;
use vstd::utf8::encode_utf8;

verus! {

/// The six-character tag a severity is shown with.
pub open spec fn severity_tag_spec(s: Severity) -> Seq<char> {
    match s {
        Severity::Error => "ERROR "@,
        Severity::Warning => "WARN  "@,
        Severity::Info => "INFO  "@,
    }
}

/// Six-character tag for a severity.
pub fn severity_tag(s: Severity) -> (t: &'static str)
    ensures
        t@ == severity_tag_spec(s),
{
    match s {
        Severity::Error => "ERROR ",
        Severity::Warning => "WARN  ",
        Severity::Info => "INFO  ",
    }
}

/// The six-character tag a scope kind is shown with.
pub open spec fn scope_kind_short_spec(k: ScopeKind) -> Seq<char> {
    match k {
        ScopeKind::FreeFunction => "fn    "@,
        ScopeKind::Method => "method"@,
        ScopeKind::TraitMethod => "trait "@,
        ScopeKind::Module => "module"@,
        ScopeKind::ImplBlock => "impl  "@,
        ScopeKind::TraitDef => "tdef  "@,
    }
}

/// Six-character tag for a scope kind.
pub fn scope_kind_short(k: ScopeKind) -> (t: &'static str)
    ensures
        t@ == scope_kind_short_spec(k),
{
    match k {
        ScopeKind::FreeFunction => "fn    ",
        ScopeKind::Method => "method",
        ScopeKind::TraitMethod => "trait ",
        ScopeKind::Module => "module",
        ScopeKind::ImplBlock => "impl  ",
        ScopeKind::TraitDef => "tdef  ",
    }
}

/// `n` spaces.
pub open spec fn spaces(n: nat) -> Seq<char> {
    Seq::new(n, |i: int| ' ')
}

/// `s` followed by spaces up to `width` characters; `s` itself when it
/// is at least that long.
pub open spec fn pad_right(s: Seq<char>, width: nat) -> Seq<char> {
    if s.len() < width {
        s + spaces((width - s.len()) as nat)
    } else {
        s
    }
}

/// Appends `t` padded with spaces to `width` characters.
pub fn push_padded(s: &mut String, t: &str, width: usize)
    ensures
        final(s)@ == old(s)@ + pad_right(t@, width as nat),
{
    push_str(s, t);
    let n = chars_of(t).len();
    if n < width {
        let mut k: usize = n;
        while k < width
            invariant
                n <= k <= width,
                n == t@.len(),
                s@ == old(s)@ + t@ + spaces((k - n) as nat),
            decreases width - k,
        {
            push_char(s, ' ');
            k = k + 1;
            assert(s@ =~= old(s)@ + t@ + spaces((k - n) as nat));
        }
        assert(s@ =~= old(s)@ + pad_right(t@, width as nat));
    } else {
        assert(s@ =~= old(s)@ + pad_right(t@, width as nat));
    }
}

/// The UTF-8 length of a string, as `str::len` reports it.
pub open spec fn byte_len(s: Seq<char>) -> usize {
    encode_utf8(s).len() as usize
}

/// The largest UTF-8 length among `values`, 0 for none.
pub open spec fn max_byte_len(values: Seq<Seq<char>>) -> usize
    decreases values.len(),
{
    if values.len() == 0 {
        0usize
    } else {
        let rest = max_byte_len(values.drop_last());
        let here = byte_len(values.last());
        if here > rest {
            here
        } else {
            rest
        }
    }
}

/// The width of a column: the largest byte length of its entries.
pub fn column_width(values: &[String]) -> (w: usize)
    ensures
        w == max_byte_len(strs(values@)),
{
    let ghost v = strs(values@);
    let mut w: usize = 0;
    let mut i: usize = 0;
    assert(v.take(0) =~= Seq::<Seq<char>>::empty());
    while i < values.len()
        invariant
            0 <= i <= values@.len(),
            v == strs(values@),
            w == max_byte_len(v.take(i as int)),
        decreases values@.len() - i,
    {
        proof {
            let t = v.take(i + 1);
            assert(t.drop_last() =~= v.take(i as int));
            assert(t.last() == values@[i as int]@);
        }
        let text = values[i].as_str();
        let here = text.len();
        assert(here == byte_len(v[i as int]));
        if here > w {
            w = here;
        }
        i = i + 1;
    }
    assert(v.take(i as int) =~= v);
    w
}

/// The column widths of a violation table.
#[derive(Debug, Clone, Copy, PartialEq, Eq)]
pub struct ColumnWidths {
    /// Widest file path, in bytes.
    pub file: usize,
    /// Widest scope, in bytes.
    pub scope: usize,
    /// Widest lens id, in bytes.
    pub metric: usize,
}

/// The line printed when a run found nothing.
pub open spec fn clean_text(files_analyzed: usize) -> Seq<char> {
    "rustics: clean. "@ + decimal(files_analyzed as nat) + " files analysed.\n"@
}

/// Renders the line printed when a run found nothing.
pub fn clean_line(files_analyzed: usize) -> (s: String)
    ensures
        s@ == clean_text(files_analyzed),
{
    let mut s = owned("rustics: clean. ");
    push_decimal(&mut s, files_analyzed as u64);
    push_str(&mut s, " files analysed.\n");
    s
}

/// The line above the violation rows.
pub open spec fn violations_heading_text(count: usize) -> Seq<char> {
    "rustics \u{2014} "@ + decimal(count as nat) + " violation(s):\n"@
}

/// Renders the line above the violation rows.
pub fn violations_heading(count: usize) -> (s: String)
    ensures
        s@ == violations_heading_text(count),
{
    let mut s = owned("rustics \u{2014} ");
    push_decimal(&mut s, count as u64);
    push_str(&mut s, " violation(s):\n");
    s
}

/// The fields of one violation row.
#[derive(Debug)]
pub struct Row {
    /// Severity tier.
    pub severity: Severity,
    /// Kind of the scope.
    pub kind: ScopeKind,
    /// Workspace-relative file.
    pub file: String,
    /// 1-based line.
    pub line: usize,
    /// Scope path.
    pub scope: String,
    /// Lens id.
    pub metric: String,
    /// The measured value, rendered.
    pub value: String,
    /// The crossed threshold, rendered.
    pub threshold: String,
    /// Text after the row, such as a coverage note; may be empty.
    pub suffix: String,
}

/// One violation row:
/// `  <SEV>  <kind>  <file>:<line>  <scope>  <metric>  <value> (><threshold>)<suffix>`,
/// the kind padded to 6, the line to 5 and the text columns to their
/// widths.
pub open spec fn row_text(r: Row, w: ColumnWidths) -> Seq<char> {
    "  "@ + severity_tag_spec(r.severity) + "  "@ + pad_right(scope_kind_short_spec(r.kind), 6) + "  "@
        + pad_right(r.file@, w.file as nat) + ":"@ + pad_right(decimal(r.line as nat), 5) + "  "@
        + pad_right(r.scope@, w.scope as nat) + "  "@ + pad_right(r.metric@, w.metric as nat) + "  "@
        + r.value@ + " (>"@ + r.threshold@ + ")"@ + r.suffix@ + "\n"@
}

/// Renders one violation row.
pub fn row_line(r: &Row, w: ColumnWidths) -> (s: String)
    ensures
        s@ == row_text(*r, w),
{
    let mut s = owned("  ");
    push_str(&mut s, severity_tag(r.severity));
    push_str(&mut s, "  ");
    push_padded(&mut s, scope_kind_short(r.kind), 6);
    push_str(&mut s, "  ");
    push_padded(&mut s, r.file.as_str(), w.file);
    push_str(&mut s, ":");
    let mut line = String::new();
    push_decimal(&mut line, r.line as u64);
    assert(line@ =~= decimal(r.line as nat));
    push_padded(&mut s, line.as_str(), 5);
    push_str(&mut s, "  ");
    push_padded(&mut s, r.scope.as_str(), w.scope);
    push_str(&mut s, "  ");
    push_padded(&mut s, r.metric.as_str(), w.metric);
    push_str(&mut s, "  ");
    push_str(&mut s, r.value.as_str());
    push_str(&mut s, " (>");
    push_str(&mut s, r.threshold.as_str());
    push_str(&mut s, ")");
    push_str(&mut s, r.suffix.as_str());
    push_str(&mut s, "\n");
    assert(s@ =~= row_text(*r, w));
    s
}

/// The note after a row whose violation is covered by tests.
pub open spec fn justified_suffix_text(by: JustificationBasis, percent: Seq<char>) -> Seq<char> {
    " (justified by "@ + percent + "% "@ + basis_word_spec(by) + " coverage)"@
}

/// Renders the coverage note of a justified violation; `percent` comes
/// rendered.
pub fn justified_suffix(by: JustificationBasis, percent: &str) -> (s: String)
    ensures
        s@ == justified_suffix_text(by, percent@),
{
    let mut s = owned(" (justified by ");
    push_str(&mut s, percent);
    push_str(&mut s, "% ");
    push_str(&mut s, basis_word(by));
    push_str(&mut s, " coverage)");
    s
}

/// The hint lines under a row.
pub open spec fn hint_lines(hints: Seq<Seq<char>>) -> Seq<char>
    decreases hints.len(),
{
    if hints.len() == 0 {
        Seq::empty()
    } else {
        hint_lines(hints.drop_last()) + "      \u{2192} "@ + hints.last() + "\n"@
    }
}

/// The rationale and refactor hints printed under a row for `--explain`.
pub open spec fn inline_explain_text(rationale: Option<Seq<char>>, hints: Seq<Seq<char>>) -> Seq<char> {
    let text = match rationale {
        Some(t) => indented_lines(lines_spec(t), "      | "@),
        None => Seq::empty(),
    };
    text + hint_lines(hints)
}

/// Renders the rationale and refactor hints under a row.
pub fn inline_explain(rationale: Option<&str>, hints: &[String]) -> (s: String)
    ensures
        s@ == inline_explain_text(
            match rationale {
                Some(t) => Some(t@),
                None => None,
            },
            strs(hints@),
        ),
{
    let mut s = String::new();
    match rationale {
        Some(t) => push_indented_lines(&mut s, t, "      | "),
        None => {},
    }
    let ghost head = s@;
    let ghost hv = strs(hints@);
    let mut i: usize = 0;
    assert(hv.take(0) =~= Seq::<Seq<char>>::empty());
    while i < hints.len()
        invariant
            0 <= i <= hints@.len(),
            hv == strs(hints@),
            s@ == head + hint_lines(hv.take(i as int)),
        decreases hints@.len() - i,
    {
        proof {
            let t = hv.take(i + 1);
            assert(t.drop_last() =~= hv.take(i as int));
            assert(t.last() == hints@[i as int]@);
        }
        push_str(&mut s, "      \u{2192} ");
        push_str(&mut s, hints[i].as_str());
        push_str(&mut s, "\n");
        i = i + 1;
    }
    assert(hv.take(i as int) =~= hv);
    s
}

/// The summary line under the table.
pub open spec fn summary_text(files: usize, warnings: usize, errors: usize, unused: usize) -> Seq<char> {
    "summary: "@ + decimal(files as nat) + " files, "@ + decimal(warnings as nat) + " warnings, "@
        + decimal(errors as nat) + " errors, "@ + decimal(unused as nat) + " unused\n"@
}

/// Renders the summary line.
pub fn summary_line(files: usize, warnings: usize, errors: usize, unused: usize) -> (s: String)
    ensures
        s@ == summary_text(files, warnings, errors, unused),
{
    let mut s = owned("summary: ");
    push_decimal(&mut s, files as u64);
    push_str(&mut s, " files, ");
    push_decimal(&mut s, warnings as u64);
    push_str(&mut s, " warnings, ");
    push_decimal(&mut s, errors as u64);
    push_str(&mut s, " errors, ");
    push_decimal(&mut s, unused as u64);
    push_str(&mut s, " unused\n");
    s
}

/// How an unused finding is named: `<parent>::<name>`, or its name.
pub open spec fn display_name(u: UnusedItem) -> Seq<char> {
    match u.parent {
        Some(p) => p@ + "::"@ + u.name@,
        None => u.name@,
    }
}

/// One unused finding: `  <kind>  <name> — <file>:<line>`, the kind
/// padded to 6.
pub open spec fn unused_row(u: UnusedItem) -> Seq<char> {
    "  "@ + pad_right(u.kind@, 6) + "  "@ + display_name(u) + " \u{2014} "@ + u.file@ + ":"@ + decimal(
        u.line as nat,
    ) + "\n"@
}

/// The rows of the unused block.
pub open spec fn unused_rows(items: Seq<UnusedItem>) -> Seq<char>
    decreases items.len(),
{
    if items.len() == 0 {
        Seq::empty()
    } else {
        unused_rows(items.drop_last()) + unused_row(items.last())
    }
}

/// The unused block, or nothing when there are no findings.
pub open spec fn unused_text(items: Seq<UnusedItem>) -> Seq<char> {
    if items.len() == 0 {
        Seq::empty()
    } else {
        "rustics unused \u{2014} "@ + decimal(items.len()) + " candidate(s):\n"@ + unused_rows(items)
    }
}

/// Appends one unused row.
fn push_unused_row(s: &mut String, u: &UnusedItem)
    ensures
        final(s)@ == old(s)@ + unused_row(*u),
{
    push_str(s, "  ");
    push_padded(s, u.kind.as_str(), 6);
    push_str(s, "  ");
    match &u.parent {
        Some(p) => {
            push_str(s, p.as_str());
            push_str(s, "::");
        },
        None => {},
    }
    push_str(s, u.name.as_str());
    push_str(s, " \u{2014} ");
    push_str(s, u.file.as_str());
    push_str(s, ":");
    push_decimal(s, u.line as u64);
    push_str(s, "\n");
    assert(s@ =~= old(s)@ + unused_row(*u));
}

/// Renders the unused block.
pub fn unused_block(items: &[UnusedItem]) -> (s: String)
    ensures
        s@ == unused_text(items@),
{
    if items.len() == 0 {
        return String::new();
    }
    let mut s = owned("rustics unused \u{2014} ");
    push_decimal(&mut s, items.len() as u64);
    push_str(&mut s, " candidate(s):\n");
    let ghost head = s@;
    let mut i: usize = 0;
    assert(items@.take(0) =~= Seq::<UnusedItem>::empty());
    while i < items.len()
        invariant
            0 <= i <= items@.len(),
            s@ == head + unused_rows(items@.take(i as int)),
        decreases items@.len() - i,
    {
        proof {
            let t = items@.take(i + 1);
            assert(t.drop_last() =~= items@.take(i as int));
        }
        push_unused_row(&mut s, &items[i]);
        i = i + 1;
    }
    assert(items@.take(i as int) =~= items@);
    s
}

/// One violation of the console table, with what `--explain` prints
/// under it.
#[derive(Debug)]
pub struct ConsoleEntry {
    /// The row.
    pub row: Row,
    /// Why the lens matters.
    pub rationale: Option<String>,
    /// Suggested refactors.
    pub refactor_hints: Vec<String>,
}

/// The widths of the table's text columns: the widest file, scope and
/// lens id among the rows, in bytes.
pub open spec fn table_widths(entries: Seq<ConsoleEntry>) -> ColumnWidths
    decreases entries.len(),
{
    if entries.len() == 0 {
        ColumnWidths { file: 0, scope: 0, metric: 0 }
    } else {
        let w = table_widths(entries.drop_last());
        let r = entries.last().row;
        ColumnWidths {
            file: if byte_len(r.file@) > w.file { byte_len(r.file@) } else { w.file },
            scope: if byte_len(r.scope@) > w.scope { byte_len(r.scope@) } else { w.scope },
            metric: if byte_len(r.metric@) > w.metric { byte_len(r.metric@) } else { w.metric },
        }
    }
}

/// Measures the table's text columns.
pub fn column_widths(entries: &[ConsoleEntry]) -> (w: ColumnWidths)
    ensures
        w == table_widths(entries@),
{
    let mut w = ColumnWidths { file: 0, scope: 0, metric: 0 };
    let mut i: usize = 0;
    assert(entries@.take(0) =~= Seq::<ConsoleEntry>::empty());
    while i < entries.len()
        invariant
            0 <= i <= entries@.len(),
            w == table_widths(entries@.take(i as int)),
        decreases entries@.len() - i,
    {
        proof {
            let t = entries@.take(i + 1);
            assert(t.drop_last() =~= entries@.take(i as int));
        }
        let r = &entries[i].row;
        let f = r.file.as_str().len();
        let c = r.scope.as_str().len();
        let m = r.metric.as_str().len();
        if f > w.file {
            w.file = f;
        }
        if c > w.scope {
            w.scope = c;
        }
        if m > w.metric {
            w.metric = m;
        }
        i = i + 1;
    }
    assert(entries@.take(i as int) =~= entries@);
    w
}

/// The rows of the table, each followed by its explanation when its lens
/// is explained.
pub open spec fn table_rows(entries: Seq<ConsoleEntry>, w: ColumnWidths, opts: ReportOptions) -> Seq<char>
    decreases entries.len(),
{
    if entries.len() == 0 {
        Seq::empty()
    } else {
        let e = entries.last();
        let rat = match e.rationale {
            Some(r) => Some(r@),
            None => None,
        };
        table_rows(entries.drop_last(), w, opts) + row_text(e.row, w) + if explains(
            opts.auto_explain,
            strs(opts.explain_metrics@),
            e.row.metric@,
        ) {
            inline_explain_text(rat, strs(e.refactor_hints@))
        } else {
            Seq::empty()
        }
    }
}

/// The counts the console report prints.
#[derive(Debug, Clone, Copy)]
pub struct ConsoleCounts {
    /// Files analysed.
    pub files_analyzed: usize,
    /// Violations, as the summary counts them.
    pub violations: usize,
    /// Warning-severity violations.
    pub warnings: usize,
    /// Error-severity violations.
    pub errors: usize,
}

/// The whole console report. With no violations and no unused findings
/// it is the one clean line; otherwise the table (when there are
/// violations), the unused block, and the summary line.
pub open spec fn report_text(c: ConsoleCounts, entries: Seq<ConsoleEntry>, unused: Seq<UnusedItem>, opts: ReportOptions) -> Seq<char> {
    if entries.len() == 0 && unused.len() == 0 {
        clean_text(c.files_analyzed)
    } else {
        let table = if entries.len() == 0 {
            Seq::empty()
        } else {
            violations_heading_text(c.violations) + table_rows(entries, table_widths(entries), opts)
        };
        table + unused_text(unused) + summary_text(c.files_analyzed, c.warnings, c.errors, unused.len() as usize)
    }
}

/// Renders the console report.
pub fn render_report(c: ConsoleCounts, entries: &[ConsoleEntry], unused: &[UnusedItem], opts: &ReportOptions) -> (s: String)
    ensures
        s@ == report_text(c, entries@, unused@, *opts),
{
    if entries.len() == 0 && unused.len() == 0 {
        return clean_line(c.files_analyzed);
    }
    let mut s = String::new();
    if entries.len() > 0 {
        let w = column_widths(entries);
        let h = violations_heading(c.violations);
        push_str(&mut s, h.as_str());
        let ghost head = s@;
        let mut i: usize = 0;
        assert(entries@.take(0) =~= Seq::<ConsoleEntry>::empty());
        while i < entries.len()
            invariant
                0 <= i <= entries@.len(),
                w == table_widths(entries@),
                s@ == head + table_rows(entries@.take(i as int), w, *opts),
            decreases entries@.len() - i,
        {
            proof {
                let t = entries@.take(i + 1);
                assert(t.drop_last() =~= entries@.take(i as int));
                assert(t.last() == entries@[i as int]);
            }
            let e = &entries[i];
            let r = row_line(&e.row, w);
            push_str(&mut s, r.as_str());
            if opts.should_explain(e.row.metric.as_str()) {
                let x = match &e.rationale {
                    Some(t) => inline_explain(Some(t.as_str()), e.refactor_hints.as_slice()),
                    None => inline_explain(None, e.refactor_hints.as_slice()),
                };
                push_str(&mut s, x.as_str());
            }
            i = i + 1;
        }
        assert(entries@.take(i as int) =~= entries@);
    }
    let u = unused_block(unused);
    push_str(&mut s, u.as_str());
    let l = summary_line(c.files_analyzed, c.warnings, c.errors, unused.len());
    push_str(&mut s, l.as_str());
    assert(s@ =~= report_text(c, entries@, unused@, *opts));
    s
}

} // verus!
