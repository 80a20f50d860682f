//! The `[rustics.exclude]` table of `rustics.toml` and its path matcher.
//!
//! Patterns are matched against the workspace-relative path:
//!
//! * `<prefix>/**` — the path is `prefix` or begins with `prefix/`;
//! * `**/<basename>` — the path ends with `basename`;
//! * anything else — the path begins with the pattern literally.

use vstd::prelude::*;
use crate::analyze::strs;
use crate::text::{chars_eq, chars_of, ends_with, is_prefix, is_suffix, starts_with};
use vstd::slice::slice_subrange;
use vstd::slice::slice_to_vec;

verus! {

/// `[rustics.exclude]` — file-walker exclusions.
#[derive(Debug, Clone)]
pub struct ExcludeTable {
    /// Glob-ish patterns, e.g. `target/**`, `**/build.rs`.
    pub patterns: Vec<String>,
}

impl Default for ExcludeTable {
    fn default() -> (t: Self)
        ensures
            t.patterns@.len() == 0,
    {
        ExcludeTable { patterns: Vec::new() }
    }
}

/// What one pattern says of one path.
pub open spec fn pattern_holds(pattern: Seq<char>, path: Seq<char>) -> bool {
    if is_suffix("/**"@, pattern) {
        let prefix = pattern.take(pattern.len() - 3);
        path == prefix || is_prefix(prefix + "/"@, path)
    } else if is_prefix("**/"@, pattern) {
        let suffix = pattern.skip(3);
        is_suffix(suffix, path) || path == suffix
    } else {
        is_prefix(pattern, path)
    }
}

/// Whether `pattern` matches the workspace-relative `path`.
pub fn pattern_matches(pattern: &str, path: &str) -> (b: bool)
    ensures
        b == pattern_holds(pattern@, path@),
{
    let p = chars_of(pattern);
    let s = chars_of(path);
    let star_tail = ['/', '*', '*'];
    let star_head = ['*', '*', '/'];
    proof {
        reveal_strlit("/**");
        reveal_strlit("**/");
        assert(star_tail@ =~= "/**"@);
        assert(star_head@ =~= "**/"@);
    }
    if ends_with(p.as_slice(), &star_tail) {
        let prefix = slice_subrange(p.as_slice(), 0, p.len() - 3);
        if chars_eq(s.as_slice(), prefix) {
            return true;
        }
        let mut needle: Vec<char> = slice_to_vec(prefix);
        needle.push('/');
        proof {
            reveal_strlit("/");
            assert(needle@ =~= prefix@ + "/"@);
        }
        return starts_with(s.as_slice(), needle.as_slice());
    }
    if starts_with(p.as_slice(), &star_head) {
        let suffix = slice_subrange(p.as_slice(), 3, p.len());
        assert(suffix@ =~= p@.skip(3));
        return ends_with(s.as_slice(), suffix) || chars_eq(s.as_slice(), suffix);
    }
    starts_with(s.as_slice(), p.as_slice())
}

impl ExcludeTable {
    /// True iff `relative` matches at least one configured pattern.
    pub fn matches(&self, relative: &str) -> (b: bool)
        ensures
            b == exists|i: int|
                0 <= i < self.patterns@.len() && pattern_holds(
                    #[trigger] strs(self.patterns@)[i],
                    relative@,
                ),
    {
        let mut i: usize = 0;
        while i < self.patterns.len()
            invariant
                0 <= i <= self.patterns@.len(),
                forall|k: int|
                    0 <= k < i ==> !pattern_holds(#[trigger] strs(self.patterns@)[k], relative@),
            decreases self.patterns@.len() - i,
        {
            if pattern_matches(self.patterns[i].as_str(), relative) {
                assert(strs(self.patterns@)[i as int] == self.patterns@[i as int]@);
                return true;
            }
            assert(strs(self.patterns@)[i as int] == self.patterns@[i as int]@);
            i = i + 1;
        }
        false
    }
}

} // verus!
