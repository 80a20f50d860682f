//! Report data shared by every reporter.

use vstd::prelude::*;

verus! {

/// Severity tier of a finding.
#[derive(Debug, Clone, Copy, PartialEq, Eq, Structural)]
pub enum Severity {
    /// Informational.
    Info,
    /// Warning.
    Warning,
    /// Error.
    Error,
}

/// The word a severity is rendered as in machine-readable reports.
pub open spec fn severity_word_spec(s: Severity) -> Seq<char> {
    match s {
        Severity::Error => "error"@,
        Severity::Warning => "warning"@,
        Severity::Info => "info"@,
    }
}

/// Lower-case word for a severity.
pub fn severity_word(s: Severity) -> (w: &'static str)
    ensures
        w@ == severity_word_spec(s),
{
    match s {
        Severity::Error => "error",
        Severity::Warning => "warning",
        Severity::Info => "info",
    }
}

/// What kind of scope a violation is reported against.
#[derive(Debug, Clone, Copy, PartialEq, Eq, Structural)]
pub enum ScopeKind {
    /// A free function.
    FreeFunction,
    /// An inherent method.
    Method,
    /// A method of a trait or trait impl.
    TraitMethod,
    /// A whole module or file.
    Module,
    /// A whole impl block.
    ImplBlock,
    /// A trait definition.
    TraitDef,
}

/// The kebab-case word a scope kind is rendered as.
pub open spec fn scope_kind_word_spec(k: ScopeKind) -> Seq<char> {
    match k {
        ScopeKind::FreeFunction => "free-function"@,
        ScopeKind::Method => "method"@,
        ScopeKind::TraitMethod => "trait-method"@,
        ScopeKind::Module => "module"@,
        ScopeKind::ImplBlock => "impl-block"@,
        ScopeKind::TraitDef => "trait-def"@,
    }
}

/// Kebab-case word for a scope kind.
pub fn scope_kind_word(k: ScopeKind) -> (w: &'static str)
    ensures
        w@ == scope_kind_word_spec(k),
{
    match k {
        ScopeKind::FreeFunction => "free-function",
        ScopeKind::Method => "method",
        ScopeKind::TraitMethod => "trait-method",
        ScopeKind::Module => "module",
        ScopeKind::ImplBlock => "impl-block",
        ScopeKind::TraitDef => "trait-def",
    }
}

/// Aggregate counts.
#[derive(Debug, Clone, Copy, PartialEq, Eq)]
pub struct Summary {
    /// Total `.rs` files analysed.
    pub files_analyzed: usize,
    /// Total violation count.
    pub violations: usize,
    /// Number of warning-severity violations.
    pub warnings: usize,
    /// Number of error-severity violations.
    pub errors: usize,
    /// Warnings whose host file's coverage justifies them.
    pub warnings_justified: usize,
    /// Errors whose host file's coverage justifies them.
    pub errors_justified: usize,
}

/// How many of `s` are `t`.
pub open spec fn severity_count(s: Seq<Severity>, t: Severity) -> nat
    decreases s.len(),
{
    if s.len() == 0 {
        0
    } else {
        severity_count(s.drop_last(), t) + if s.last() == t {
            1nat
        } else {
            0nat
        }
    }
}

proof fn lemma_severity_count_bounded(s: Seq<Severity>, t: Severity)
    ensures
        severity_count(s, t) <= s.len(),
    decreases s.len(),
{
    if s.len() > 0 {
        lemma_severity_count_bounded(s.drop_last(), t);
    }
}

impl Summary {
    /// Recomputes the violation, warning and error counts from the
    /// severities of the report's violations; the other counts stay.
    pub fn recount(&mut self, severities: &[Severity])
        ensures
            final(self).violations == severities@.len(),
            final(self).warnings == severity_count(severities@, Severity::Warning),
            final(self).errors == severity_count(severities@, Severity::Error),
            final(self).files_analyzed == old(self).files_analyzed,
            final(self).warnings_justified == old(self).warnings_justified,
            final(self).errors_justified == old(self).errors_justified,
    {
        let mut warnings: usize = 0;
        let mut errors: usize = 0;
        let mut i: usize = 0;
        while i < severities.len()
            invariant
                0 <= i <= severities@.len(),
                warnings == severity_count(severities@.take(i as int), Severity::Warning),
                errors == severity_count(severities@.take(i as int), Severity::Error),
            decreases severities@.len() - i,
        {
            proof {
                let t = severities@.take(i + 1);
                assert(t.drop_last() =~= severities@.take(i as int));
                assert(t.last() == severities@[i as int]);
                lemma_severity_count_bounded(severities@.take(i as int), Severity::Warning);
                lemma_severity_count_bounded(severities@.take(i as int), Severity::Error);
            }
            match severities[i] {
                Severity::Warning => {
                    warnings = warnings + 1;
                },
                Severity::Error => {
                    errors = errors + 1;
                },
                Severity::Info => {},
            }
            i = i + 1;
        }
        assert(severities@.take(i as int) =~= severities@);
        self.violations = severities.len();
        self.warnings = warnings;
        self.errors = errors;
    }
}

/// A sidecar dismissal that no longer matches any live violation.
#[derive(Debug)]
pub struct StaleDismissal {
    /// Workspace-relative file path the dismissal targeted.
    pub file: String,
    /// Scope path the dismissal targeted.
    pub scope: String,
    /// Lens id the dismissal targeted.
    pub metric: String,
    /// The reason text from the entry.
    pub reason: String,
}

/// Coverage dimension used to justify a complexity-class violation.
#[derive(Debug, Clone, Copy, PartialEq, Eq)]
pub enum JustificationBasis {
    /// Line coverage.
    Line,
    /// Branch coverage (reserved).
    Branch,
}

/// The word a justification basis is rendered as.
pub open spec fn basis_word_spec(b: JustificationBasis) -> Seq<char> {
    match b {
        JustificationBasis::Line => "line"@,
        JustificationBasis::Branch => "branch"@,
    }
}

/// Lower-case word for a justification basis.
pub fn basis_word(b: JustificationBasis) -> (w: &'static str)
    ensures
        w@ == basis_word_spec(b),
{
    match b {
        JustificationBasis::Line => "line",
        JustificationBasis::Branch => "branch",
    }
}

/// Lens ids whose violations high test coverage can justify.
pub const COMPLEXITY_CLASS_METRICS: [&'static str; 4] = [
    "cyclomatic-complexity",
    "cognitive-complexity",
    "halstead-volume",
    "source-lines-of-code",
];

} // verus!
