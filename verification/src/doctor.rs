//! `cargo rustics doctor` — configuration validation.
//!
//! Every `[rustics.metrics.<id>]` key must be a known lens id, and
//! exclude patterns must not use gitignore negation (`!`) or path
//! traversal (`..`). The exit code is `1` when any finding is an error.

use vstd::prelude::*;
use crate::analyze::strs;
use crate::config::ExcludeTable;
use crate::text::{chars_of, contains, has_sub, occurs_at, owned, push_str, str_eq};

verus! {

/// Severity of a doctor finding.
#[derive(Debug, Clone, Copy, PartialEq, Eq, Structural)]
pub enum IssueSeverity {
    /// Informational — config is fine but worth noting.
    Info,
    /// Real problem — the exit code is non-zero when any is present.
    Error,
}

/// One diagnostic finding.
#[derive(Debug)]
pub struct Issue {
    /// Severity tag for human display.
    pub severity: IssueSeverity,
    /// One-line message.
    pub message: String,
}

/// The findings as `(severity, message)` pairs.
pub open spec fn issue_views(issues: Seq<Issue>) -> Seq<(IssueSeverity, Seq<char>)> {
    issues.map_values(|i: Issue| (i.severity, i.message@))
}

/// Some finding is an error.
pub open spec fn any_error(issues: Seq<Issue>) -> bool {
    exists|i: int| 0 <= i < issues.len() && (#[trigger] issues[i]).severity == IssueSeverity::Error
}

/// Whether any finding is an error.
pub fn has_errors(issues: &[Issue]) -> (b: bool)
    ensures
        b == any_error(issues@),
{
    let mut i: usize = 0;
    while i < issues.len()
        invariant
            0 <= i <= issues@.len(),
            forall|k: int| 0 <= k < i ==> (#[trigger] issues@[k]).severity != IssueSeverity::Error,
        decreases issues@.len() - i,
    {
        if issues[i].severity == IssueSeverity::Error {
            return true;
        }
        i = i + 1;
    }
    false
}

/// Exit code of `doctor`: `1` when some finding is an error.
pub fn doctor_exit(issues: &[Issue]) -> (code: u8)
    ensures
        code == (if any_error(issues@) { 1u8 } else { 0u8 }),
{
    if has_errors(issues) {
        1
    } else {
        0
    }
}

/// The message for a pattern that starts with `!`.
pub open spec fn negation_message(p: Seq<char>) -> Seq<char> {
    "exclude pattern `"@ + p + "` starts with `!` — negation is gitignore syntax, not supported here"@
}

/// The message for a pattern that contains `..`.
pub open spec fn traversal_message(p: Seq<char>) -> Seq<char> {
    "exclude pattern `"@ + p + "` contains `..` — path traversal is rejected; use a literal prefix instead"@
}

/// The findings about one exclude pattern.
pub open spec fn pattern_issues(p: Seq<char>) -> Seq<(IssueSeverity, Seq<char>)> {
    (if p.len() > 0 && p[0] == '!' {
        seq![(IssueSeverity::Error, negation_message(p))]
    } else {
        Seq::empty()
    }) + (if has_sub(p, ".."@) {
        seq![(IssueSeverity::Error, traversal_message(p))]
    } else {
        Seq::empty()
    })
}

/// The findings about a list of exclude patterns, in order.
pub open spec fn exclude_issues(ps: Seq<Seq<char>>) -> Seq<(IssueSeverity, Seq<char>)>
    decreases ps.len(),
{
    if ps.len() == 0 {
        Seq::empty()
    } else {
        exclude_issues(ps.drop_last()) + pattern_issues(ps.last())
    }
}

/// Appends the findings about the exclude patterns to `out`.
pub fn check_exclude(exclude: &ExcludeTable, out: &mut Vec<Issue>)
    ensures
        issue_views(final(out)@) == issue_views(old(out)@) + exclude_issues(strs(exclude.patterns@)),
{
    let ghost ps = strs(exclude.patterns@);
    let mut i: usize = 0;
    assert(ps.take(0) =~= Seq::<Seq<char>>::empty());
    assert(issue_views(out@) =~= issue_views(old(out)@) + exclude_issues(ps.take(0)));
    while i < exclude.patterns.len()
        invariant
            0 <= i <= exclude.patterns@.len(),
            ps == strs(exclude.patterns@),
            issue_views(out@) == issue_views(old(out)@) + exclude_issues(ps.take(i as int)),
        decreases exclude.patterns@.len() - i,
    {
        let pattern = exclude.patterns[i].as_str();
        let pv = chars_of(pattern);
        let ghost o0 = issue_views(out@);
        proof {
            let t = ps.take(i + 1);
            assert(t.drop_last() =~= ps.take(i as int));
            assert(t.last() == pattern@);
        }
        if pv.len() > 0 && pv[0] == '!' {
            let mut m = owned("exclude pattern `");
            push_str(&mut m, pattern);
            push_str(&mut m, "` starts with `!` — negation is gitignore syntax, not supported here");
            out.push(Issue { severity: IssueSeverity::Error, message: m });
        }
        let ghost o1 = issue_views(out@);
        let dots = ['.', '.'];
        proof {
            reveal_strlit("..");
            assert(dots@ =~= ".."@);
        }
        if contains(pv.as_slice(), &dots) {
            let mut m = owned("exclude pattern `");
            push_str(&mut m, pattern);
            push_str(&mut m, "` contains `..` — path traversal is rejected; use a literal prefix instead");
            out.push(Issue { severity: IssueSeverity::Error, message: m });
        }
        proof {
            assert(issue_views(out@) =~= o0 + pattern_issues(pattern@));
        }
        i = i + 1;
    }
    assert(ps.take(i as int) =~= ps);
}

/// The finding for a `[rustics.metrics.<id>]` key that names no known
/// lens.
pub open spec fn unknown_id_issue(id: Seq<char>, known: Seq<Seq<char>>) -> Option<(IssueSeverity, Seq<char>)> {
    if known.contains(id) {
        None
    } else {
        Some((IssueSeverity::Error, "unknown metric id `"@ + id + "` in rustics.toml"@))
    }
}

/// Checks one configured metric id against the known lens ids.
pub fn check_metric_id(id: &str, known: &[&str]) -> (r: Option<Issue>)
    ensures
        match r {
            Some(i) => unknown_id_issue(id@, known@.map_values(|k: &str| k@)) == Some((i.severity, i.message@)),
            None => unknown_id_issue(id@, known@.map_values(|k: &str| k@)).is_none(),
        },
{
    let ghost kv = known@.map_values(|k: &str| k@);
    let mut i: usize = 0;
    while i < known.len()
        invariant
            0 <= i <= known@.len(),
            kv == known@.map_values(|k: &str| k@),
            forall|t: int| 0 <= t < i ==> kv[t] != id@,
        decreases known@.len() - i,
    {
        if str_eq(known[i], id) {
            assert(kv[i as int] == id@);
            return None;
        }
        i = i + 1;
    }
    proof {
        if kv.contains(id@) {
            let t = choose|t: int| 0 <= t < kv.len() && kv[t] == id@;
            assert(kv[t] != id@);
        }
    }
    let mut m = owned("unknown metric id `");
    push_str(&mut m, id);
    push_str(&mut m, "` in rustics.toml");
    Some(Issue { severity: IssueSeverity::Error, message: m })
}

/// The informational finding when no `rustics.toml` exists.
pub fn missing_config_issue() -> (i: Issue)
    ensures
        i.severity == IssueSeverity::Info,
        i.message@ == "no rustics.toml found — using lens defaults"@,
{
    Issue { severity: IssueSeverity::Info, message: owned("no rustics.toml found — using lens defaults") }
}

/// One report line per finding.
pub open spec fn issue_lines(issues: Seq<(IssueSeverity, Seq<char>)>) -> Seq<char>
    decreases issues.len(),
{
    if issues.len() == 0 {
        Seq::empty()
    } else {
        let (sev, msg) = issues.last();
        issue_lines(issues.drop_last()) + "  "@ + (match sev {
            IssueSeverity::Info => "INFO "@,
            IssueSeverity::Error => "ERROR"@,
        }) + "  "@ + msg + "\n"@
    }
}

/// The doctor report printed to stdout.
pub open spec fn report_text(root: Seq<char>, issues: Seq<(IssueSeverity, Seq<char>)>) -> Seq<char> {
    "rustics doctor — workspace: "@ + root + "\n"@ + if issues.len() == 0 {
        "  no issues — config is healthy.\n"@
    } else {
        issue_lines(issues)
    }
}

/// Renders the doctor report.
pub fn render_report(workspace_root: &str, issues: &[Issue]) -> (s: String)
    ensures
        s@ == report_text(workspace_root@, issue_views(issues@)),
{
    let mut s = owned("rustics doctor — workspace: ");
    push_str(&mut s, workspace_root);
    push_str(&mut s, "\n");
    if issues.len() == 0 {
        push_str(&mut s, "  no issues — config is healthy.\n");
        return s;
    }
    let ghost head = s@;
    let ghost iv = issue_views(issues@);
    let mut i: usize = 0;
    assert(iv.take(0) =~= Seq::<(IssueSeverity, Seq<char>)>::empty());
    while i < issues.len()
        invariant
            0 <= i <= issues@.len(),
            iv == issue_views(issues@),
            s@ == head + issue_lines(iv.take(i as int)),
        decreases issues@.len() - i,
    {
        let issue = &issues[i];
        proof {
            let t = iv.take(i + 1);
            assert(t.drop_last() =~= iv.take(i as int));
            assert(t.last() == (issue.severity, issue.message@));
        }
        push_str(&mut s, "  ");
        match issue.severity {
            IssueSeverity::Info => push_str(&mut s, "INFO "),
            IssueSeverity::Error => push_str(&mut s, "ERROR"),
        }
        push_str(&mut s, "  ");
        push_str(&mut s, issue.message.as_str());
        push_str(&mut s, "\n");
        i = i + 1;
    }
    assert(iv.take(i as int) =~= iv);
    s
}

/// The findings about a list of patterns hold those about each of them.
proof fn lemma_exclude_issues_hold(ps: Seq<Seq<char>>, j: int, x: (IssueSeverity, Seq<char>))
    requires
        0 <= j < ps.len(),
        pattern_issues(ps[j]).contains(x),
    ensures
        exclude_issues(ps).contains(x),
    decreases ps.len(),
{
    let prev = exclude_issues(ps.drop_last());
    let last = pattern_issues(ps.last());
    if j < ps.len() - 1 {
        assert(ps.drop_last()[j] == ps[j]);
        lemma_exclude_issues_hold(ps.drop_last(), j, x);
        let k = choose|k: int| 0 <= k < prev.len() && prev[k] == x;
        assert((prev + last)[k] == x);
    } else {
        let k = choose|k: int| 0 <= k < last.len() && last[k] == x;
        assert((prev + last)[prev.len() + k] == x);
    }
}

/// An exclude pattern with `..` anywhere in it (at its start, in its
/// middle or at its end) draws the path-traversal error, which makes
/// `doctor` fail; a pattern without `..` and without a leading `!` draws
/// no finding at all.
pub proof fn law_traversal_anywhere_is_rejected(ps: Seq<Seq<char>>, j: int, before: Seq<char>, after: Seq<char>)
    requires
        0 <= j < ps.len(),
        ps[j] == before + ".."@ + after,
    ensures
        exclude_issues(ps).contains((IssueSeverity::Error, traversal_message(ps[j]))),
{
    let p = ps[j];
    let b: int = before.len() as int;
    reveal_strlit("..");
    assert(p.subrange(b, b + 2) =~= ".."@);
    assert(occurs_at(p, ".."@, before.len() as int));
    assert(has_sub(p, ".."@));
    let pi = pattern_issues(p);
    let neg = if p.len() > 0 && p[0] == '!' {
        seq![(IssueSeverity::Error, negation_message(p))]
    } else {
        Seq::empty()
    };
    assert(pi == neg + seq![(IssueSeverity::Error, traversal_message(p))]);
    assert(pi[neg.len() as int] == (IssueSeverity::Error, traversal_message(p)));
    lemma_exclude_issues_hold(ps, j, (IssueSeverity::Error, traversal_message(p)));
}

/// A pattern that neither starts with `!` nor holds `..` draws no
/// finding.
pub proof fn law_plain_pattern_is_accepted(p: Seq<char>)
    requires
        p.len() == 0 || p[0] != '!',
        forall|i: int| 0 <= i && i + 1 < p.len() ==> !(#[trigger] p[i] == '.' && p[i + 1] == '.'),
    ensures
        pattern_issues(p).len() == 0,
{
    reveal_strlit("..");
    if has_sub(p, ".."@) {
        let i = choose|i: int| occurs_at(p, ".."@, i);
        assert(p.subrange(i, i + 2)[0] == p[i]);
        assert(p.subrange(i, i + 2)[1] == p[i + 1]);
    }
}

} // verus!
