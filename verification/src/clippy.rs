//! Clippy bridge: `cargo clippy --message-format=json` messages turned
//! into findings, one per `clippy::<lint>` diagnostic.
//!
//! The scope of a finding is `<file>:<line>` of the diagnostic's primary
//! span (its first span when none is marked primary).

use vstd::prelude::*;
use crate::report::Severity;
use crate::text::{chars_of, decimal, is_prefix, owned, push_decimal, push_str, starts_with, str_eq, trim, trim_chars, split_on, split_chars, seqs, string_from};

verus! {

/// One source span of a compiler message.
#[derive(Debug)]
pub struct MessageSpan {
    /// File the span lies in.
    pub file_name: String,
    /// 1-based first line of the span.
    pub line_start: usize,
    /// Whether this is the span the diagnostic points at.
    pub is_primary: bool,
}

/// A compiler message.
#[derive(Debug)]
pub struct Message {
    /// Human-readable text.
    pub message: String,
    /// `error`, `warning`, `note`, …
    pub level: String,
    /// Lint code, e.g. `clippy::needless_borrow`.
    pub code: Option<String>,
    /// Source spans.
    pub spans: Vec<MessageSpan>,
}

/// One line of cargo's JSON message stream.
#[derive(Debug)]
pub struct Envelope {
    /// `compiler-message`, `compiler-artifact`, …
    pub reason: String,
    /// The message, for compiler messages.
    pub message: Option<Message>,
}

/// One clippy lint, located.
#[derive(Debug)]
pub struct ClippyFinding {
    /// File of the primary span.
    pub file: String,
    /// Line of the primary span.
    pub line: usize,
    /// `<file>:<line>`.
    pub scope: String,
    /// The lint code, `clippy::<lint>`.
    pub metric: String,
    /// Severity from the message level.
    pub severity: Severity,
    /// The message text.
    pub rationale: String,
}

/// Position of the span a diagnostic points at: the first primary span,
/// else the first span.
pub open spec fn primary_index(spans: Seq<MessageSpan>) -> Option<int> {
    if exists|i: int| 0 <= i < spans.len() && (#[trigger] spans[i]).is_primary {
        Some(choose|i: int| 0 <= i < spans.len() && (#[trigger] spans[i]).is_primary && forall|j: int| 0 <= j < i ==> !spans[j].is_primary)
    } else if spans.len() > 0 {
        Some(0)
    } else {
        None
    }
}

/// The span a diagnostic points at.
pub fn primary_span(spans: &[MessageSpan]) -> (r: Option<&MessageSpan>)
    ensures
        match primary_index(spans@) {
            Some(i) => r == Some(&spans@[i]),
            None => r.is_none(),
        },
{
    let mut i: usize = 0;
    while i < spans.len()
        invariant
            0 <= i <= spans@.len(),
            forall|j: int| 0 <= j < i ==> !(#[trigger] spans@[j]).is_primary,
        decreases spans@.len() - i,
    {
        if spans[i].is_primary {
            proof {
                let k = choose|k: int| 0 <= k < spans@.len() && (#[trigger] spans@[k]).is_primary && forall|j: int| 0 <= j < k ==> !spans@[j].is_primary;
                if k < i {
                    assert(!spans@[k].is_primary);
                } else if k > i {
                    assert(!spans@[i as int].is_primary);
                }
            }
            return Some(&spans[i]);
        }
        i = i + 1;
    }
    if spans.len() > 0 {
        Some(&spans[0])
    } else {
        None
    }
}

/// The severity a message level maps to.
pub open spec fn level_severity(level: Seq<char>) -> Severity {
    if level == "error"@ {
        Severity::Error
    } else if level == "warning"@ {
        Severity::Warning
    } else {
        Severity::Info
    }
}

/// Maps a message level to a severity; unknown levels are informational.
pub fn severity_from_level(level: &str) -> (s: Severity)
    ensures
        s == level_severity(level@),
{
    if str_eq(level, "error") {
        Severity::Error
    } else if str_eq(level, "warning") {
        Severity::Warning
    } else {
        Severity::Info
    }
}

/// The finding for a message: present when the message has a
/// `clippy::` code and at least one span.
pub open spec fn finding_of(msg: Message) -> Option<FindingView> {
    match msg.code {
        Some(code) => if is_prefix("clippy::"@, code@) {
            match primary_index(msg.spans@) {
                Some(i) => {
                    let sp = msg.spans@[i];
                    Some((sp.file_name@, sp.line_start, sp.file_name@ + ":"@ + decimal(sp.line_start as nat), code@, level_severity(msg.level@), msg.message@))
                },
                None => None,
            }
        } else {
            None
        },
        None => None,
    }
}

/// The view of a finding.
pub open spec fn finding_view(f: ClippyFinding) -> FindingView {
    (f.file@, f.line, f.scope@, f.metric@, f.severity, f.rationale@)
}

/// Turns one compiler message into a finding, or `None` for plain rustc
/// warnings and messages without spans.
pub fn message_to_finding(msg: &Message) -> (r: Option<ClippyFinding>)
    ensures
        match r {
            Some(f) => finding_of(*msg) == Some(finding_view(f)),
            None => finding_of(*msg).is_none(),
        },
{
    let code = match &msg.code {
        Some(c) => c,
        None => {
            return None;
        },
    };
    let cv = chars_of(code.as_str());
    let prefix = chars_of("clippy::");
    if !starts_with(cv.as_slice(), prefix.as_slice()) {
        return None;
    }
    let span = match primary_span(msg.spans.as_slice()) {
        Some(s) => s,
        None => {
            return None;
        },
    };
    let file = owned(span.file_name.as_str());
    let line = span.line_start;
    let mut scope = owned(span.file_name.as_str());
    push_str(&mut scope, ":");
    push_decimal(&mut scope, line as u64);
    Some(ClippyFinding {
        file,
        line,
        scope,
        metric: owned(code.as_str()),
        severity: severity_from_level(msg.level.as_str()),
        rationale: owned(msg.message.as_str()),
    })
}

/// A finding as plain values: file, line, scope, lint code, severity,
/// message text.
pub type FindingView = (Seq<char>, usize, Seq<char>, Seq<char>, Severity, Seq<char>);

/// The findings a stream of envelopes yields: one per compiler message
/// that has a finding, in order.
pub open spec fn envelope_findings(envs: Seq<Envelope>) -> Seq<FindingView>
    decreases envs.len(),
{
    if envs.len() == 0 {
        Seq::empty()
    } else {
        let prev = envelope_findings(envs.drop_last());
        let e = envs.last();
        if e.reason@ == "compiler-message"@ {
            match e.message {
                Some(m) => match finding_of(m) {
                    Some(v) => prev.push(v),
                    None => prev,
                },
                None => prev,
            }
        } else {
            prev
        }
    }
}

/// The views of a list of findings.
pub open spec fn finding_views(fs: Seq<ClippyFinding>) -> Seq<FindingView> {
    fs.map_values(|f: ClippyFinding| finding_view(f))
}

/// The findings of a stream of parsed envelopes: compiler messages only,
/// in order.
pub fn collect_findings(envelopes: &[Envelope]) -> (out: Vec<ClippyFinding>)
    ensures
        finding_views(out@) == envelope_findings(envelopes@),
{
    let mut out: Vec<ClippyFinding> = Vec::new();
    let mut k: usize = 0;
    assert(finding_views(out@) =~= Seq::<FindingView>::empty());
    while k < envelopes.len()
        invariant
            0 <= k <= envelopes@.len(),
            finding_views(out@) == envelope_findings(envelopes@.take(k as int)),
        decreases envelopes@.len() - k,
    {
        let env = &envelopes[k];
        proof {
            let t = envelopes@.take(k + 1);
            assert(t.drop_last() =~= envelopes@.take(k as int));
            assert(t.last() == *env);
        }
        if str_eq(env.reason.as_str(), "compiler-message") {
            if let Some(msg) = &env.message {
                if let Some(f) = message_to_finding(msg) {
                    let ghost before = out@;
                    out.push(f);
                    assert(finding_views(out@) =~= finding_views(before).push(finding_view(f)));
                }
            }
        }
        k = k + 1;
    }
    assert(envelopes@.take(k as int) =~= envelopes@);
    out
}

/// The non-blank lines of a message stream, trimmed, in order.
pub fn stream_lines(stream: &str) -> (lines: Vec<String>)
    ensures
        strs_of(lines@) == split_on(stream@, '\n').map_values(|l: Seq<char>| trim(l)).filter(|l: Seq<char>| l.len() > 0),
{
    let chars = chars_of(stream);
    let parts = split_chars(chars.as_slice(), '\n');
    let ghost ps = seqs(parts@);
    let ghost tp = ps.map_values(|l: Seq<char>| trim(l));
    let ghost pred = |l: Seq<char>| l.len() > 0;
    let mut out: Vec<String> = Vec::new();
    let mut i: usize = 0;
    while i < parts.len()
        invariant
            0 <= i <= parts@.len(),
            ps == seqs(parts@),
            ps == split_on(stream@, '\n'),
            tp == ps.map_values(|l: Seq<char>| trim(l)),
            pred == (|l: Seq<char>| l.len() > 0),
            strs_of(out@) == tp.take(i as int).filter(pred),
        decreases parts@.len() - i,
    {
        let t = trim_chars(parts[i].as_slice());
        proof {
            assert(tp.take(i + 1) =~= tp.take(i as int).push(tp[i as int]));
            tp.take(i as int).lemma_filter_push(tp[i as int], pred);
            assert(tp[i as int] == trim(parts@[i as int]@));
        }
        if t.len() > 0 {
            let ghost o = out@;
            out.push(string_from(t.as_slice()));
            assert(strs_of(out@) =~= strs_of(o).push(t@));
        }
        i = i + 1;
    }
    assert(tp.take(i as int) =~= tp);
    out
}

/// The character views of a list of strings.
pub open spec fn strs_of(v: Seq<String>) -> Seq<Seq<char>> {
    v.map_values(|s: String| s@)
}

} // verus!
