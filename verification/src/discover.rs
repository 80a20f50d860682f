//! Source-file discovery: which walked paths are Rust sources, how they
//! are named relative to the workspace, and in what order they are
//! analysed.

use vstd::prelude::*;
use crate::path::{path_components, relative_components};
use crate::text::{chars_of, join, seqs};
pub use crate::path::make_relative;

verus! {

/// Discovered source file.
#[derive(Debug, Clone)]
pub struct DiscoveredFile {
    /// Absolute path on disk.
    pub absolute: String,
    /// Workspace-root-relative path with `/` separators.
    pub relative: String,
}

/// `a` sorts strictly before `b`: the order of `str` comparison, which
/// compares UTF-8 bytes and so agrees with comparing code points.
pub open spec fn lex_lt(a: Seq<char>, b: Seq<char>) -> bool
    decreases a.len(),
{
    if a.len() == 0 {
        b.len() > 0
    } else if b.len() == 0 {
        false
    } else if a[0] != b[0] {
        a[0] < b[0]
    } else {
        lex_lt(a.drop_first(), b.drop_first())
    }
}

/// Whether `a` sorts strictly before `b`.
pub fn lex_less(a: &[char], b: &[char]) -> (r: bool)
    ensures
        r == lex_lt(a@, b@),
{
    let mut i: usize = 0;
    assert(a@.skip(0) =~= a@ && b@.skip(0) =~= b@);
    while i < a.len() && i < b.len()
        invariant
            0 <= i <= a.len(),
            i <= b.len(),
            lex_lt(a@, b@) == lex_lt(a@.skip(i as int), b@.skip(i as int)),
        decreases a.len() - i,
    {
        let x = a[i];
        let y = b[i];
        proof {
            let sa = a@.skip(i as int);
            let sb = b@.skip(i as int);
            assert(sa[0] == x && sb[0] == y);
            assert(sa.drop_first() =~= a@.skip(i + 1));
            assert(sb.drop_first() =~= b@.skip(i + 1));
        }
        if x != y {
            return x < y;
        }
        i = i + 1;
    }
    proof {
        assert(a@.skip(i as int).len() == a@.len() - i);
        assert(b@.skip(i as int).len() == b@.len() - i);
    }
    i == a.len() && i < b.len()
}

/// No sequence sorts before itself.
pub proof fn lemma_lex_irreflexive(a: Seq<char>)
    ensures
        !lex_lt(a, a),
    decreases a.len(),
{
    if a.len() > 0 {
        lemma_lex_irreflexive(a.drop_first());
    }
}

/// Two different sequences are ordered one way or the other, never both.
pub proof fn lemma_lex_total(a: Seq<char>, b: Seq<char>)
    ensures
        a != b ==> (lex_lt(a, b) || lex_lt(b, a)),
        !(lex_lt(a, b) && lex_lt(b, a)),
    decreases a.len(),
{
    if a.len() > 0 && b.len() > 0 && a[0] == b[0] {
        lemma_lex_total(a.drop_first(), b.drop_first());
        if a.drop_first() == b.drop_first() {
            assert(a =~= seq![a[0]] + a.drop_first());
            assert(b =~= seq![b[0]] + b.drop_first());
            assert(a =~= b);
        }
    } else if a.len() == 0 && b.len() == 0 {
        assert(a =~= b);
    } else if a.len() > 0 && b.len() > 0 {
        assert(a[0] != b[0]);
    }
}

/// The order is transitive.
pub proof fn lemma_lex_transitive(a: Seq<char>, b: Seq<char>, c: Seq<char>)
    requires
        lex_lt(a, b),
        lex_lt(b, c),
    ensures
        lex_lt(a, c),
    decreases a.len(),
{
    if a.len() > 0 && b.len() > 0 && c.len() > 0 && a[0] == b[0] && b[0] == c[0] {
        lemma_lex_transitive(a.drop_first(), b.drop_first(), c.drop_first());
    }
}

/// A discovered file as a pair of character sequences
/// `(absolute, relative)`.
pub type FileView = (Seq<char>, Seq<char>);

/// The views of discovered files.
pub open spec fn file_views(files: Seq<DiscoveredFile>) -> Seq<FileView> {
    files.map_values(|f: DiscoveredFile| (f.absolute@, f.relative@))
}

/// `sorted` with `x` inserted after every entry that does not sort
/// after it.
pub open spec fn insert_by_relative(sorted: Seq<FileView>, x: FileView) -> Seq<FileView>
    decreases sorted.len(),
{
    if sorted.len() == 0 {
        seq![x]
    } else if lex_lt(x.1, sorted.last().1) {
        insert_by_relative(sorted.drop_last(), x).push(sorted.last())
    } else {
        sorted.push(x)
    }
}

/// The stable sort of `files` by relative path (`sort_by` on
/// `relative`).
pub open spec fn sorted_by_relative(files: Seq<FileView>) -> Seq<FileView>
    decreases files.len(),
{
    if files.len() == 0 {
        Seq::empty()
    } else {
        insert_by_relative(sorted_by_relative(files.drop_last()), files.last())
    }
}

/// Inserting at the position found by scanning back over the entries
/// that sort after `x`.
proof fn lemma_insert_at(s: Seq<FileView>, x: FileView, j: int)
    requires
        0 <= j <= s.len(),
        forall|k: int| j <= k < s.len() ==> lex_lt(x.1, #[trigger] s[k].1),
        j == 0 || !lex_lt(x.1, s[j - 1].1),
    ensures
        insert_by_relative(s, x) == s.insert(j, x),
    decreases s.len(),
{
    if s.len() == 0 {
        assert(s.insert(j, x) =~= seq![x]);
    } else if j == s.len() {
        assert(s.insert(j, x) =~= s.push(x));
    } else {
        assert(lex_lt(x.1, s.last().1));
        lemma_insert_at(s.drop_last(), x, j);
        assert(s.insert(j, x) =~= s.drop_last().insert(j, x).push(s.last()));
    }
}

/// The last normal component of a path, as `Path::file_name` gives it.
pub open spec fn file_name(path: Seq<char>) -> Option<Seq<char>> {
    let comps = path_components(path);
    if comps.len() == 0 {
        None
    } else {
        let last = comps.last();
        if last == seq!['/'] || last == seq!['.'] || last == seq!['.', '.'] {
            None
        } else {
            Some(last)
        }
    }
}

/// Index of the last `.` in `s`, if any.
pub open spec fn last_dot(s: Seq<char>) -> Option<int>
    decreases s.len(),
{
    if s.len() == 0 {
        None
    } else if s.last() == '.' {
        Some(s.len() - 1)
    } else {
        last_dot(s.drop_last())
    }
}

/// `Path::extension`: what follows the last `.` of the file name, unless
/// that dot starts the name.
pub open spec fn extension(path: Seq<char>) -> Option<Seq<char>> {
    match file_name(path) {
        None => None,
        Some(name) => match last_dot(name) {
            Some(i) => if i > 0 {
                Some(name.skip(i + 1))
            } else {
                None
            },
            None => None,
        },
    }
}

/// The path names a `.rs` file.
pub open spec fn is_rs_path(path: Seq<char>) -> bool {
    extension(path) == Some(seq!['r', 's'])
}

proof fn lemma_last_dot_at(s: Seq<char>, i: int)
    requires
        0 <= i < s.len(),
        s[i] == '.',
        forall|k: int| i < k < s.len() ==> s[k] != '.',
    ensures
        last_dot(s) == Some(i),
    decreases s.len(),
{
    if i < s.len() - 1 {
        lemma_last_dot_at(s.drop_last(), i);
    }
}

proof fn lemma_last_dot_none(s: Seq<char>)
    requires
        forall|k: int| 0 <= k < s.len() ==> s[k] != '.',
    ensures
        last_dot(s) == None::<int>,
    decreases s.len(),
{
    if s.len() > 0 {
        lemma_last_dot_none(s.drop_last());
    }
}

/// Whether `path` has the extension `rs`.
pub fn has_rs_extension(path: &str) -> (b: bool)
    ensures
        b == is_rs_path(path@),
{
    let v = chars_of(path);
    let comps = crate::path::components(v.as_slice());
    let ghost cs = seqs(comps@);
    if comps.len() == 0 {
        return false;
    }
    let name = &comps[comps.len() - 1];
    assert(name@ == cs.last());
    let n = name.len();
    if (n == 1 && name[0] == '/') || (n == 1 && name[0] == '.') || (n == 2 && name[0] == '.'
        && name[1] == '.') {
        assert(name@ =~= seq!['/'] || name@ =~= seq!['.'] || name@ =~= seq!['.', '.']);
        return false;
    }
    assert(name@ != seq!['/'] && name@ != seq!['.'] && name@ != seq!['.', '.']) by {
        if name@ == seq!['/'] || name@ == seq!['.'] {
            assert(n == 1);
        }
        if name@ == seq!['.', '.'] {
            assert(n == 2);
        }
    }
    let mut j: usize = n;
    while j > 0 && name[j - 1] != '.'
        invariant
            0 <= j <= n,
            n == name@.len(),
            forall|k: int| j <= k < n ==> name@[k] != '.',
        decreases j,
    {
        j = j - 1;
    }
    if j == 0 {
        proof {
            lemma_last_dot_none(name@);
        }
        return false;
    }
    proof {
        lemma_last_dot_at(name@, j - 1);
    }
    if j - 1 == 0 {
        return false;
    }
    let ok = n - j == 2 && name[j] == 'r' && name[j + 1] == 's';
    proof {
        let ext = name@.skip(j as int);
        if ok {
            assert(ext =~= seq!['r', 's']);
        } else if ext == seq!['r', 's'] {
            assert(ext.len() == 2);
            assert(ext[0] == name@[j as int] && ext[1] == name@[j + 1]);
        }
    }
    ok
}

/// The walked paths that are Rust files, as `(absolute, relative)`
/// pairs, in the order the walker produced them. A walked entry is the
/// path and whether it is a regular file.
pub open spec fn rust_files(walked: Seq<(Seq<char>, bool)>, root: Seq<char>) -> Seq<FileView>
    decreases walked.len(),
{
    if walked.len() == 0 {
        Seq::empty()
    } else {
        let prev = rust_files(walked.drop_last(), root);
        let e = walked.last();
        if e.1 && is_rs_path(e.0) {
            prev.push((e.0, join(relative_components(root, e.0), seq!['/'])))
        } else {
            prev
        }
    }
}

/// The views of walked entries.
pub open spec fn walked_views(walked: Seq<(String, bool)>) -> Seq<(Seq<char>, bool)> {
    walked.map_values(|e: (String, bool)| (e.0@, e.1))
}

/// Whether the relative path `fr` sorts strictly before that of `f`.
fn sorts_before(fr: &[char], f: &DiscoveredFile) -> (b: bool)
    ensures
        b == lex_lt(fr@, f.relative@),
{
    let er = chars_of(f.relative.as_str());
    lex_less(fr, er.as_slice())
}

/// Inserts `f` into the sorted `files` after every entry whose relative
/// path does not sort after it.
fn insert_sorted(files: &mut Vec<DiscoveredFile>, f: DiscoveredFile)
    ensures
        file_views(final(files)@) == insert_by_relative(
            file_views(old(files)@),
            (f.absolute@, f.relative@),
        ),
{
    let ghost s = file_views(files@);
    let ghost x = (f.absolute@, f.relative@);
    let fr = chars_of(f.relative.as_str());
    let mut j: usize = files.len();
    while j > 0 && sorts_before(fr.as_slice(), &files[j - 1])
        invariant
            0 <= j <= files@.len(),
            s == file_views(files@),
            x == (f.absolute@, f.relative@),
            fr@ == f.relative@,
            forall|k: int| j <= k < s.len() ==> lex_lt(x.1, #[trigger] s[k].1),
        decreases j,
    {
        assert(s[j - 1].1 == files@[j - 1].relative@);
        j = j - 1;
    }
    proof {
        if j > 0 {
            assert(s[j - 1].1 == files@[j - 1].relative@);
        }
        lemma_insert_at(s, x, j as int);
    }
    files.insert(j, f);
    assert(file_views(files@) =~= s.insert(j as int, x));
}

/// Keeps the walked entries that are regular `.rs` files, names each
/// relative to `workspace_root`, and sorts them by relative path.
pub fn collect_rust_files(walked: Vec<(String, bool)>, workspace_root: &str) -> (out: Vec<DiscoveredFile>)
    ensures
        file_views(out@) == sorted_by_relative(rust_files(walked_views(walked@), workspace_root@)),
{
    let ghost w = walked_views(walked@);
    let mut out: Vec<DiscoveredFile> = Vec::new();
    let mut i: usize = 0;
    assert(file_views(out@) =~= Seq::<FileView>::empty());
    while i < walked.len()
        invariant
            0 <= i <= walked@.len(),
            w == walked_views(walked@),
            file_views(out@) == sorted_by_relative(rust_files(w.take(i as int), workspace_root@)),
        decreases walked@.len() - i,
    {
        let (p, is_file) = (&walked[i].0, walked[i].1);
        proof {
            let t = w.take(i + 1);
            assert(t.drop_last() =~= w.take(i as int));
            assert(t.last() == (p@, is_file));
        }
        if is_file && has_rs_extension(p.as_str()) {
            let rel = make_relative(workspace_root, p.as_str());
            let f = DiscoveredFile { absolute: crate::text::owned(p.as_str()), relative: rel };
            proof {
                let t = w.take(i + 1);
                let r = rust_files(t, workspace_root@);
                assert(r == rust_files(w.take(i as int), workspace_root@).push((f.absolute@, f.relative@)));
                assert(r.drop_last() =~= rust_files(w.take(i as int), workspace_root@));
            }
            insert_sorted(&mut out, f);
        }
        i = i + 1;
    }
    assert(w.take(i as int) =~= w);
    out
}

// ----------------------------------------------------------------------
// Laws
// ----------------------------------------------------------------------

/// The relative paths never decrease along the sequence.
pub open spec fn relative_sorted(s: Seq<FileView>) -> bool {
    forall|i: int, j: int| #![trigger s[i], s[j]] 0 <= i < j < s.len() ==> !lex_lt(s[j].1, s[i].1)
}

/// No entry's relative path sorts after `b`.
spec fn bounded_by(s: Seq<FileView>, b: Seq<char>) -> bool {
    forall|k: int| 0 <= k < s.len() ==> !lex_lt(b, #[trigger] s[k].1)
}

proof fn lemma_insert_bounded(s: Seq<FileView>, x: FileView, b: Seq<char>)
    requires
        bounded_by(s, b),
        !lex_lt(b, x.1),
    ensures
        bounded_by(insert_by_relative(s, x), b),
    decreases s.len(),
{
    if s.len() > 0 && lex_lt(x.1, s.last().1) {
        lemma_insert_bounded(s.drop_last(), x, b);
        let t = insert_by_relative(s.drop_last(), x);
        assert forall|k: int| 0 <= k < t.push(s.last()).len() implies !lex_lt(
            b,
            #[trigger] t.push(s.last())[k].1,
        ) by {
            if k == t.len() {
                assert(s.last() == s[s.len() - 1]);
            } else {
                assert(t.push(s.last())[k] == t[k]);
            }
        }
    } else if s.len() > 0 {
        assert forall|k: int| 0 <= k < s.push(x).len() implies !lex_lt(b, #[trigger] s.push(x)[k].1) by {
            if k < s.len() {
                assert(s.push(x)[k] == s[k]);
            }
        }
    }
}

proof fn lemma_insert_sorted(s: Seq<FileView>, x: FileView)
    requires
        relative_sorted(s),
    ensures
        relative_sorted(insert_by_relative(s, x)),
        insert_by_relative(s, x).to_multiset() == s.to_multiset().insert(x),
    decreases s.len(),
{
    broadcast use vstd::seq_lib::group_to_multiset_ensures;

    if s.len() == 0 {
        assert(seq![x] =~= Seq::<FileView>::empty().push(x));
    } else if lex_lt(x.1, s.last().1) {
        let p = s.drop_last();
        let l = s.last();
        assert(s =~= p.push(l));
        lemma_insert_sorted(p, x);
        assert forall|k: int| 0 <= k < p.len() implies !lex_lt(l.1, #[trigger] p[k].1) by {
            assert(p[k] == s[k] && l == s[s.len() - 1]);
        }
        lemma_lex_total(x.1, l.1);
        lemma_insert_bounded(p, x, l.1);
        let t = insert_by_relative(p, x);
        let r = t.push(l);
        assert forall|i: int, j: int| #![trigger r[i], r[j]] 0 <= i < j < r.len() implies !lex_lt(
            r[j].1,
            r[i].1,
        ) by {
            assert(r[i] == t[i]);
            if j < t.len() {
                assert(r[j] == t[j]);
            } else {
                assert(r[j] == l);
            }
        }
        assert(r.to_multiset() =~= s.to_multiset().insert(x));
    } else {
        let r = s.push(x);
        assert forall|i: int, j: int| #![trigger r[i], r[j]] 0 <= i < j < r.len() implies !lex_lt(
            r[j].1,
            r[i].1,
        ) by {
            assert(r[i] == s[i]);
            if j < s.len() {
                assert(r[j] == s[j]);
            } else {
                let e = s[i].1;
                let l = s[s.len() - 1].1;
                assert(r[j] == x);
                if i < s.len() - 1 {
                    lemma_lex_total(e, l);
                    if lex_lt(x.1, e) && e != l {
                        lemma_lex_transitive(x.1, e, l);
                    }
                }
            }
        }
    }
}

/// The sort by relative path puts the paths in order, and it keeps
/// every file it was given, each as often as it was given: the order the
/// files are analysed in.
pub proof fn law_sorted_by_relative(files: Seq<FileView>)
    ensures
        relative_sorted(sorted_by_relative(files)),
        sorted_by_relative(files).to_multiset() == files.to_multiset(),
    decreases files.len(),
{
    broadcast use vstd::seq_lib::group_to_multiset_ensures;

    if files.len() > 0 {
        law_sorted_by_relative(files.drop_last());
        lemma_insert_sorted(sorted_by_relative(files.drop_last()), files.last());
        assert(files =~= files.drop_last().push(files.last()));
    }
}

} // verus!
