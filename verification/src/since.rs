//! `--since <ref>`: keep only findings in files changed against a git
//! reference.
//!
//! The changed files are read from the output of `git diff --name-only`
//! (workspace-relative paths with `/` separators, one per line); blank
//! lines are ignored and every path counts once.

use vstd::prelude::*;
use crate::analyze::strs;
use crate::text::{lines_spec, str_eq, str_lines, string_from, trim, trim_chars};

verus! {

/// The distinct trimmed, non-empty lines, in order of first appearance.
pub open spec fn changed_list(lines: Seq<Seq<char>>) -> Seq<Seq<char>>
    decreases lines.len(),
{
    if lines.len() == 0 {
        Seq::empty()
    } else {
        let prev = changed_list(lines.drop_last());
        let t = trim(lines.last());
        if t.len() == 0 || prev.contains(t) {
            prev
        } else {
            prev.push(t)
        }
    }
}

/// Whether `path` is one of `v`.
pub fn is_changed(v: &[String], path: &str) -> (b: bool)
    ensures
        b == strs(v@).contains(path@),
{
    let mut i: usize = 0;
    while i < v.len()
        invariant
            0 <= i <= v@.len(),
            forall|k: int| 0 <= k < i ==> v@[k]@ != path@,
        decreases v@.len() - i,
    {
        if str_eq(v[i].as_str(), path) {
            assert(strs(v@)[i as int] == path@);
            return true;
        }
        i = i + 1;
    }
    assert forall|k: int| 0 <= k < strs(v@).len() implies strs(v@)[k] != path@ by {
        assert(strs(v@)[k] == v@[k]@);
    }
    false
}

/// The changed files named in the output of `git diff --name-only`: each
/// trimmed, non-empty line, once, in order of first appearance.
pub fn changed_files(git_output: &str) -> (out: Vec<String>)
    ensures
        strs(out@) == changed_list(lines_spec(git_output@)),
{
    let lines = str_lines(git_output);
    let ghost ls = lines_spec(git_output@);
    let mut out: Vec<String> = Vec::new();
    let mut i: usize = 0;
    assert(strs(out@) =~= changed_list(ls.take(0)));
    while i < lines.len()
        invariant
            0 <= i <= lines@.len(),
            ls == lines_spec(git_output@),
            crate::text::seqs(lines@) == ls,
            strs(out@) == changed_list(ls.take(i as int)),
        decreases lines@.len() - i,
    {
        proof {
            let t = ls.take(i + 1);
            assert(t.drop_last() =~= ls.take(i as int));
            assert(t.last() == lines@[i as int]@);
        }
        let t = trim_chars(lines[i].as_slice());
        if t.len() > 0 {
            let p = string_from(t.as_slice());
            if !is_changed(out.as_slice(), p.as_str()) {
                let ghost before = strs(out@);
                out.push(p);
                assert(strs(out@) =~= before.push(t@));
            }
        }
        i = i + 1;
    }
    assert(ls.take(i as int) =~= ls);
    out
}

/// Keeps the paths that are among `changed`, in order.
pub fn filter(files: Vec<String>, changed: &[String]) -> (out: Vec<String>)
    ensures
        strs(out@) == strs(files@).filter(|f: Seq<char>| strs(changed@).contains(f)),
{
    let ghost fs = strs(files@);
    let ghost keep = |f: Seq<char>| strs(changed@).contains(f);
    let mut out: Vec<String> = Vec::new();
    let mut rest = files;
    let ghost mut taken: int = 0;
    while rest.len() > 0
        invariant
            0 <= taken <= fs.len(),
            keep == (|f: Seq<char>| strs(changed@).contains(f)),
            strs(rest@) == fs.skip(taken),
            strs(out@) == fs.take(taken).filter(keep),
        decreases rest@.len(),
    {
        let ghost r0 = rest@;
        let f = rest.remove(0);
        proof {
            assert(f == r0[0]);
            assert(strs(r0)[0] == f@);
            assert(strs(r0) == fs.skip(taken));
            assert(strs(r0).len() == r0.len());
            assert(taken < fs.len());
            assert(fs.skip(taken)[0] == fs[taken]);
            assert(fs[taken] == f@);
            assert(fs.take(taken + 1) =~= fs.take(taken).push(f@));
            fs.take(taken).lemma_filter_push(f@, keep);
            assert forall|k: int| 0 <= k < strs(rest@).len() implies strs(rest@)[k] == fs.skip(
                taken + 1,
            )[k] by {
                assert(rest@[k] == r0[k + 1]);
                assert(strs(r0)[k + 1] == fs.skip(taken)[k + 1]);
            }
            assert(strs(rest@) =~= fs.skip(taken + 1));
        }
        if is_changed(changed, f.as_str()) {
            let ghost before = strs(out@);
            out.push(f);
            assert(strs(out@) =~= before.push(fs[taken]));
        }
        proof {
            taken = taken + 1;
        }
    }
    assert(fs.take(taken) =~= fs);
    out
}

/// Whatever the output, every changed file is listed once, and a path is
/// listed exactly when it is the trimmed text of a non-blank line.
pub proof fn law_changed_files_are_the_named_paths(lines: Seq<Seq<char>>)
    ensures
        changed_list(lines).no_duplicates(),
        forall|p: Seq<char>|
            changed_list(lines).contains(p) <==> (p.len() > 0 && exists|i: int|
                0 <= i < lines.len() && trim(#[trigger] lines[i]) == p),
    decreases lines.len(),
{
    if lines.len() > 0 {
        let pl = lines.drop_last();
        law_changed_files_are_the_named_paths(pl);
        let prev = changed_list(pl);
        let t = trim(lines.last());
        assert forall|p: Seq<char>|
            changed_list(lines).contains(p) <==> (p.len() > 0 && exists|i: int|
                0 <= i < lines.len() && trim(#[trigger] lines[i]) == p) by {
            if changed_list(lines).contains(p) {
                if prev.contains(p) {
                    let i = choose|i: int| 0 <= i < pl.len() && trim(#[trigger] pl[i]) == p;
                    assert(lines[i] == pl[i]);
                } else {
                    assert(p == t);
                    assert(trim(lines[lines.len() - 1]) == p);
                }
            }
            if p.len() > 0 && exists|i: int| 0 <= i < lines.len() && trim(#[trigger] lines[i]) == p {
                let i = choose|i: int| 0 <= i < lines.len() && trim(#[trigger] lines[i]) == p;
                if i < lines.len() - 1 {
                    assert(pl[i] == lines[i]);
                    assert(prev.contains(p));
                    if !(t.len() == 0 || prev.contains(t)) {
                        assert(prev.push(t)[prev.index_of(p)] == p);
                    }
                } else {
                    assert(t == p);
                    if !prev.contains(t) {
                        assert(prev.push(t)[prev.len() as int] == t);
                    }
                }
            }
        }
        if !(t.len() == 0 || prev.contains(t)) {
            let s = prev.push(t);
            assert forall|a: int, b: int| 0 <= a < s.len() && 0 <= b < s.len() && a != b implies s[a] != s[b] by {
                if a < prev.len() && b < prev.len() {
                    assert(s[a] == prev[a] && s[b] == prev[b]);
                } else if a < prev.len() {
                    assert(s[a] == prev[a]);
                    assert(prev.contains(prev[a]));
                } else if b < prev.len() {
                    assert(s[b] == prev[b]);
                    assert(prev.contains(prev[b]));
                }
            }
        }
    }
}

} // verus!
