//! Coverage gating: per-file line totals read from an `lcov.info` stream.
//!
//! `--coverage` resolution order:
//!
//! 1. Explicit `--coverage <path>` (`none`, in any ASCII case, disables).
//! 2. `<workspace>/target/coverage/lcov.info` if it is a file.
//! 3. None — violations carry no coverage hint.

use vstd::prelude::*;
use crate::text::{
    chars_of, is_prefix, owned, push_str, split_chars, split_on, starts_with, string_from,
    trim, trim_chars, seqs,
};
use vstd::slice::slice_subrange;
use crate::path::{join_path, join_path_exec};

verus! {

/// Per-file coverage totals.
#[derive(Debug, Clone, Copy, PartialEq, Eq, Structural)]
pub struct FileCoverage {
    /// Total lines instrumented (`LF:` in lcov).
    pub total: u32,
    /// Lines hit at least once (`LH:` in lcov).
    pub hit: u32,
}

impl Default for FileCoverage {
    fn default() -> (c: Self)
        ensures
            c.total == 0,
            c.hit == 0,
    {
        FileCoverage { total: 0, hit: 0 }
    }
}

/// The all-zero totals a record starts from.
pub open spec fn zero_coverage() -> FileCoverage {
    FileCoverage { total: 0, hit: 0 }
}

impl FileCoverage {
    /// The two terms of the hit ratio, `(hit, total)`, or `None` when no
    /// line is instrumented (the ratio `hit / total` is then undefined).
    pub fn ratio_terms(&self) -> (r: Option<(u32, u32)>)
        ensures
            r == (if self.total == 0 {
                None
            } else {
                Some((self.hit, self.total))
            }),
    {
        if self.total == 0 {
            None
        } else {
            Some((self.hit, self.total))
        }
    }
}

/// The map that a list of `(file, totals)` entries stands for; a later
/// entry for the same file wins.
pub open spec fn entries_map(entries: Seq<(Seq<char>, FileCoverage)>) -> Map<Seq<char>, FileCoverage>
    decreases entries.len(),
{
    if entries.len() == 0 {
        Map::empty()
    } else {
        entries_map(entries.drop_last()).insert(entries.last().0, entries.last().1)
    }
}

/// Resolved coverage index: `file -> totals`.
#[derive(Debug)]
pub struct CoverageIndex {
    files: Vec<(String, FileCoverage)>,
}

/// The entries of the index with their keys taken as character sequences.
pub open spec fn entry_views(v: Seq<(String, FileCoverage)>) -> Seq<(Seq<char>, FileCoverage)> {
    v.map_values(|e: (String, FileCoverage)| (e.0@, e.1))
}

/// No file is listed twice.
pub open spec fn keys_unique(v: Seq<(Seq<char>, FileCoverage)>) -> bool {
    forall|i: int, j: int| 0 <= i < j < v.len() ==> v[i].0 != v[j].0
}

/// A file absent from every entry is absent from the map.
pub proof fn lemma_entries_map_absent(v: Seq<(Seq<char>, FileCoverage)>, k: Seq<char>)
    requires
        forall|i: int| 0 <= i < v.len() ==> v[i].0 != k,
    ensures
        !entries_map(v).dom().contains(k),
    decreases v.len(),
{
    if v.len() > 0 {
        lemma_entries_map_absent(v.drop_last(), k);
    }
}

/// The last entry for a file gives its totals.
pub proof fn lemma_entries_map_at(v: Seq<(Seq<char>, FileCoverage)>, j: int)
    requires
        0 <= j < v.len(),
        forall|t: int| j < t < v.len() ==> v[t].0 != v[j].0,
    ensures
        entries_map(v).dom().contains(v[j].0),
        entries_map(v)[v[j].0] == v[j].1,
    decreases v.len(),
{
    if j < v.len() - 1 {
        lemma_entries_map_at(v.drop_last(), j);
    }
}

/// Replacing the only entry of a file replaces its totals in the map.
pub proof fn lemma_entries_map_update(
    v: Seq<(Seq<char>, FileCoverage)>,
    j: int,
    c: FileCoverage,
)
    requires
        0 <= j < v.len(),
        keys_unique(v),
    ensures
        entries_map(v.update(j, (v[j].0, c))) == entries_map(v).insert(v[j].0, c),
    decreases v.len(),
{
    let w = v.update(j, (v[j].0, c));
    if j == v.len() - 1 {
        assert(w.drop_last() =~= v.drop_last());
        assert(entries_map(w) =~= entries_map(v).insert(v[j].0, c));
    } else {
        assert(w.drop_last() =~= v.drop_last().update(j, (v[j].0, c)));
        lemma_entries_map_update(v.drop_last(), j, c);
        assert(v.last().0 != v[j].0);
        assert(entries_map(w) =~= entries_map(v).insert(v[j].0, c));
    }
}

impl CoverageIndex {
    /// The index as a map from file to totals.
    pub closed spec fn view(&self) -> Map<Seq<char>, FileCoverage> {
        entries_map(entry_views(self.files@))
    }

    /// No file is listed twice.
    #[verifier::type_invariant]
    spec fn wf(self) -> bool {
        keys_unique(entry_views(self.files@))
    }

    /// The empty index.
    pub fn new() -> (idx: Self)
        ensures
            idx.view() == Map::<Seq<char>, FileCoverage>::empty(),
    {
        let idx = CoverageIndex { files: Vec::new() };
        assert(entry_views(idx.files@) =~= Seq::<(Seq<char>, FileCoverage)>::empty());
        idx
    }

    /// Position of `file` among the entries.
    fn position(&self, file: &str) -> (r: Option<usize>)
        ensures
            match r {
                Some(i) => i < self.files@.len() && entry_views(self.files@)[i as int].0
                    == file@,
                None => forall|i: int|
                    0 <= i < self.files@.len() ==> entry_views(self.files@)[i].0 != file@,
            },
    {
        proof {
            use_type_invariant(&*self);
        }
        let mut i: usize = 0;
        while i < self.files.len()
            invariant
                0 <= i <= self.files@.len(),
                forall|k: int| 0 <= k < i ==> entry_views(self.files@)[k].0 != file@,
            decreases self.files@.len() - i,
        {
            assert(entry_views(self.files@)[i as int].0 == self.files@[i as int].0@);
            if crate::text::str_eq(self.files[i].0.as_str(), file) {
                return Some(i);
            }
            i = i + 1;
        }
        None
    }

    /// Returns the coverage row for a file, if known.
    pub fn for_file(&self, file: &str) -> (r: Option<FileCoverage>)
        ensures
            r == (if self.view().dom().contains(file@) {
                Some(self.view()[file@])
            } else {
                None
            }),
    {
        proof {
            use_type_invariant(&*self);
        }
        match self.position(file) {
            Some(i) => {
                proof {
                    lemma_entries_map_at(entry_views(self.files@), i as int);
                }
                Some(self.files[i].1)
            },
            None => {
                proof {
                    lemma_entries_map_absent(entry_views(self.files@), file@);
                }
                None
            },
        }
    }

    /// Records `c` for `file`, replacing any earlier totals for it.
    pub fn insert(&mut self, file: String, c: FileCoverage)
        ensures
            final(self).view() == old(self).view().insert(file@, c),
    {
        proof {
            use_type_invariant(&*self);
        }
        let ghost v0 = entry_views(self.files@);
        let pos = self.position(file.as_str());
        let mut files: Vec<(String, FileCoverage)> = Vec::new();
        std::mem::swap(&mut files, &mut self.files);
        match pos {
            Some(i) => {
                let key = owned(files[i].0.as_str());
                files.set(i, (key, c));
                proof {
                    assert(entry_views(files@) =~= v0.update(i as int, (v0[i as int].0, c)));
                    lemma_entries_map_update(v0, i as int, c);
                }
            },
            None => {
                files.push((file, c));
                assert(entry_views(files@) =~= v0.push((file@, c)));
                assert(entry_views(files@).drop_last() =~= v0);
            },
        }
        self.files = files;
    }
}

/// `c` is an ASCII decimal digit.
pub open spec fn is_digit(c: char) -> bool {
    '0' <= c && c <= '9'
}

/// The number that a run of decimal digits spells.
pub open spec fn digits_value(s: Seq<char>) -> nat
    decreases s.len(),
{
    if s.len() == 0 {
        0
    } else {
        digits_value(s.drop_last()) * 10 + ((s.last() as u32 - '0' as u32) as nat)
    }
}

/// `s` without one leading `+`.
pub open spec fn unsigned_digits(s: Seq<char>) -> Seq<char> {
    if s.len() > 0 && s[0] == '+' {
        s.drop_first()
    } else {
        s
    }
}

/// Every character of `d` is an ASCII digit.
pub open spec fn all_digits(d: Seq<char>) -> bool {
    forall|i: int| 0 <= i < d.len() ==> is_digit(#[trigger] d[i])
}

/// `str::parse::<u32>`: an optional `+`, then one or more ASCII digits
/// whose value fits in 32 bits.
pub open spec fn parse_u32_spec(s: Seq<char>) -> Option<u32> {
    if unsigned_digits(s).len() > 0 && all_digits(unsigned_digits(s)) && digits_value(
        unsigned_digits(s),
    ) <= u32::MAX {
        Some(digits_value(unsigned_digits(s)) as u32)
    } else {
        None
    }
}

/// Parses a decimal `u32` as `str::parse` does.
pub fn parse_u32(s: &[char]) -> (r: Option<u32>)
    ensures
        r == parse_u32_spec(s@),
{
    let start: usize = if s.len() > 0 && s[0] == '+' {
        1
    } else {
        0
    };
    let ghost d = unsigned_digits(s@);
    assert(d =~= s@.skip(start as int));
    if start == s.len() {
        return None;
    }
    let big: u64 = 0x1_0000_0000;
    let mut acc: u64 = 0;
    let mut i: usize = start;
    assert(d.take(0) =~= Seq::<char>::empty());
    while i < s.len()
        invariant
            start <= i <= s.len(),
            d =~= s@.skip(start as int),
            d == unsigned_digits(s@),
            big == 0x1_0000_0000u64,
            forall|k: int| 0 <= k < i - start ==> is_digit(#[trigger] d[k]),
            acc == (if digits_value(d.take(i - start)) >= big {
                big as nat
            } else {
                digits_value(d.take(i - start))
            }),
        decreases s.len() - i,
    {
        let c = s[i];
        if !('0' <= c && c <= '9') {
            assert(d[i - start] == c);
            assert(!is_digit(d[i - start]));
            assert(!all_digits(d));
            return None;
        }
        let dv = (c as u32 - '0' as u32) as u64;
        proof {
            let t = d.take(i - start + 1);
            assert(t.drop_last() =~= d.take(i - start));
            assert(t.last() == c);
        }
        if acc < big {
            acc = acc * 10 + dv;
            if acc > big {
                acc = big;
            }
        }
        i = i + 1;
    }
    assert(d.take(i - start) =~= d);
    if acc < big {
        Some(acc as u32)
    } else {
        None
    }
}

/// The number a field holds, or 0 when it does not parse.
pub open spec fn number_or_zero(s: Seq<char>) -> u32 {
    match parse_u32_spec(s) {
        Some(n) => n,
        None => 0,
    }
}

/// The state threaded through the record stream: finished files, the
/// file of the open record, and its running totals.
pub type LcovState = (Map<Seq<char>, FileCoverage>, Option<Seq<char>>, FileCoverage);

/// Closes the open record, if any, into the finished files.
pub open spec fn commit_spec(
    files: Map<Seq<char>, FileCoverage>,
    file: Option<Seq<char>>,
    cur: FileCoverage,
) -> Map<Seq<char>, FileCoverage> {
    match file {
        Some(f) => files.insert(f, cur),
        None => files,
    }
}

/// What one line of the stream does to the state.
pub open spec fn lcov_step(st: LcovState, raw: Seq<char>) -> LcovState {
    let line = trim(raw);
    if is_prefix("SF:"@, line) {
        (commit_spec(st.0, st.1, st.2), Some(line.skip(3)), zero_coverage())
    } else if is_prefix("LF:"@, line) {
        (st.0, st.1, FileCoverage { total: number_or_zero(line.skip(3)), hit: st.2.hit })
    } else if is_prefix("LH:"@, line) {
        (st.0, st.1, FileCoverage { total: st.2.total, hit: number_or_zero(line.skip(3)) })
    } else if line == "end_of_record"@ {
        (commit_spec(st.0, st.1, st.2), None, zero_coverage())
    } else {
        st
    }
}

/// The state after the given lines, from an empty start.
pub open spec fn lcov_fold(lines: Seq<Seq<char>>) -> LcovState
    decreases lines.len(),
{
    if lines.len() == 0 {
        (Map::empty(), None, zero_coverage())
    } else {
        lcov_step(lcov_fold(lines.drop_last()), lines.last())
    }
}

/// The index an lcov text stands for. Lines are taken between `\n`
/// characters; a trailing `\r` and surrounding blanks are trimmed away, so
/// this agrees with `str::lines` followed by `str::trim`.
pub open spec fn lcov_index(text: Seq<char>) -> Map<Seq<char>, FileCoverage> {
    let st = lcov_fold(split_on(text, '\n'));
    commit_spec(st.0, st.1, st.2)
}

/// Closes the open record, if any, into `files`.
fn commit_current(files: &mut CoverageIndex, current_file: &mut Option<String>, current: &FileCoverage)
    ensures
        final(files).view() == commit_spec(
            old(files).view(),
            match *old(current_file) {
                Some(f) => Some(f@),
                None => None,
            },
            *current,
        ),
        *final(current_file) == None::<String>,
{
    if let Some(f) = current_file.take() {
        files.insert(f, *current);
    }
}

/// Pure parser for the lcov record stream: `SF:` opens a record (closing
/// any open one), `LF:` / `LH:` set its totals (unparsable numbers count
/// as 0), `end_of_record` closes it. A later record for the same file
/// replaces the earlier one.
pub fn parse(text: &str) -> (idx: CoverageIndex)
    ensures
        idx.view() == lcov_index(text@),
{
    let chars = chars_of(text);
    let lines = split_chars(chars.as_slice(), '\n');
    let ghost ls = seqs(lines@);
    let mut files = CoverageIndex::new();
    let mut current_file: Option<String> = None;
    let mut current = FileCoverage { total: 0, hit: 0 };
    let sf = ['S', 'F', ':'];
    let lf = ['L', 'F', ':'];
    let lh = ['L', 'H', ':'];
    let eor = ['e', 'n', 'd', '_', 'o', 'f', '_', 'r', 'e', 'c', 'o', 'r', 'd'];
    proof {
        reveal_strlit("SF:");
        reveal_strlit("LF:");
        reveal_strlit("LH:");
        reveal_strlit("end_of_record");
        assert(sf@ =~= "SF:"@);
        assert(lf@ =~= "LF:"@);
        assert(lh@ =~= "LH:"@);
        assert(eor@ =~= "end_of_record"@);
    }
    let mut i: usize = 0;
    while i < lines.len()
        invariant
            0 <= i <= lines@.len(),
            ls == seqs(lines@),
            ls == split_on(text@, '\n'),
            sf@ == "SF:"@,
            lf@ == "LF:"@,
            lh@ == "LH:"@,
            eor@ == "end_of_record"@,
            lcov_fold(ls.take(i as int)) == (
                files.view(),
                match current_file {
                    Some(f) => Some(f@),
                    None => None,
                },
                current,
            ),
        decreases lines@.len() - i,
    {
        proof {
            let t = ls.take(i + 1);
            assert(t.drop_last() =~= ls.take(i as int));
            assert(t.last() == lines@[i as int]@);
        }
        let line = trim_chars(lines[i].as_slice());
        if starts_with(line.as_slice(), &sf) {
            commit_current(&mut files, &mut current_file, &current);
            let rest = slice_subrange(line.as_slice(), 3, line.len());
            assert(rest@ =~= line@.skip(3));
            current_file = Some(string_from(rest));
            current = FileCoverage { total: 0, hit: 0 };
        } else if starts_with(line.as_slice(), &lf) {
            let rest = slice_subrange(line.as_slice(), 3, line.len());
            assert(rest@ =~= line@.skip(3));
            current.total = match parse_u32(rest) {
                Some(n) => n,
                None => 0,
            };
        } else if starts_with(line.as_slice(), &lh) {
            let rest = slice_subrange(line.as_slice(), 3, line.len());
            assert(rest@ =~= line@.skip(3));
            current.hit = match parse_u32(rest) {
                Some(n) => n,
                None => 0,
            };
        } else if crate::text::chars_eq(line.as_slice(), &eor) {
            commit_current(&mut files, &mut current_file, &current);
            current_file = None;
            current = FileCoverage { total: 0, hit: 0 };
        }
        i = i + 1;
    }
    assert(ls.take(i as int) =~= ls);
    commit_current(&mut files, &mut current_file, &current);
    files
}

/// `c` folded to ASCII lower case, as a code point.
pub open spec fn ascii_lower(c: char) -> u32 {
    if 'A' <= c && c <= 'Z' {
        (c as u32 + 32) as u32
    } else {
        c as u32
    }
}

/// `str::eq_ignore_ascii_case`.
pub open spec fn eq_ignore_ascii_case_spec(a: Seq<char>, b: Seq<char>) -> bool {
    a.len() == b.len() && forall|i: int| 0 <= i < a.len() ==> ascii_lower(a[i]) == ascii_lower(b[i])
}

/// Compares two strings, ignoring ASCII case.
pub fn eq_ignore_ascii_case(a: &str, b: &str) -> (r: bool)
    ensures
        r == eq_ignore_ascii_case_spec(a@, b@),
{
    let x = chars_of(a);
    let y = chars_of(b);
    if x.len() != y.len() {
        return false;
    }
    let mut i: usize = 0;
    while i < x.len()
        invariant
            x@ == a@,
            y@ == b@,
            x.len() == y.len(),
            0 <= i <= x.len(),
            forall|k: int| 0 <= k < i ==> ascii_lower(x@[k]) == ascii_lower(y@[k]),
        decreases x.len() - i,
    {
        let c = x[i];
        let d = y[i];
        let lc: u32 = if 'A' <= c && c <= 'Z' { c as u32 + 32 } else { c as u32 };
        let ld: u32 = if 'A' <= d && d <= 'Z' { d as u32 + 32 } else { d as u32 };
        if lc != ld {
            return false;
        }
        i = i + 1;
    }
    true
}

/// Where `cargo-llvm-cov` writes its report, under the workspace root.
pub open spec fn default_lcov_path_spec(root: Seq<char>) -> Seq<char> {
    join_path(root, "target/coverage/lcov.info"@)
}

/// `<root>/target/coverage/lcov.info`.
pub fn default_lcov_path(workspace_root: &str) -> (p: String)
    ensures
        p@ == default_lcov_path_spec(workspace_root@),
{
    join_path_exec(workspace_root, "target/coverage/lcov.info")
}

/// What `--coverage` resolves to, given whether the default report exists.
pub open spec fn resolved_path(explicit: Option<Seq<char>>, root: Seq<char>, default_is_file: bool) -> Option<Seq<char>> {
    match explicit {
        Some(s) => if eq_ignore_ascii_case_spec(s, "none"@) {
            None
        } else {
            Some(s)
        },
        None => if default_is_file {
            Some(default_lcov_path_spec(root))
        } else {
            None
        },
    }
}

/// Resolves the lcov path from CLI input and workspace conventions.
///
/// `explicit` is the value of `--coverage`; `"none"` (ASCII case
/// ignored) disables coverage. Without it the default
/// [`default_lcov_path`] is used when `default_is_file` says it is a file.
pub fn resolve_path(explicit: Option<&str>, workspace_root: &str, default_is_file: bool) -> (r: Option<String>)
    ensures
        match r {
            Some(p) => resolved_path(
                match explicit {
                    Some(s) => Some(s@),
                    None => None,
                },
                workspace_root@,
                default_is_file,
            ) == Some(p@),
            None => resolved_path(
                match explicit {
                    Some(s) => Some(s@),
                    None => None,
                },
                workspace_root@,
                default_is_file,
            ) == None::<Seq<char>>,
        },
{
    if let Some(s) = explicit {
        if eq_ignore_ascii_case(s, "none") {
            return None;
        }
        return Some(owned(s));
    }
    if default_is_file {
        Some(default_lcov_path(workspace_root))
    } else {
        None
    }
}

} // verus!
