//! `/`-separated paths, modelled the way `std::path::Path::components`
//! reads them on Unix.

use vstd::prelude::*;
use crate::text::{chars_eq, chars_of, join, join_chars, owned, push_str, seqs, split_chars, split_on};

verus! {

/// A component other than the empty one and `.`.
pub open spec fn is_normal_part(p: Seq<char>) -> bool {
    p.len() > 0 && p != seq!['.']
}

/// The components of a Unix path: the root `/` if the path starts with
/// one, a leading `.` if the path starts with a `.` segment, then every
/// non-empty segment other than `.`.
pub open spec fn path_components(s: Seq<char>) -> Seq<Seq<char>> {
    let parts = split_on(s, '/');
    let body = parts.filter(|p: Seq<char>| is_normal_part(p));
    if s.len() > 0 && s[0] == '/' {
        seq![seq!['/']] + body
    } else if parts.len() > 0 && parts[0] == seq!['.'] {
        seq![seq!['.']] + body
    } else {
        body
    }
}

/// Position of the first element of `s` equal to `x`.
pub open spec fn first_pos<A>(s: Seq<A>, x: A) -> Option<nat>
    decreases s.len(),
{
    if s.len() == 0 {
        None
    } else if s[0] == x {
        Some(0)
    } else {
        match first_pos(s.drop_first(), x) {
            Some(i) => Some(i + 1),
            None => None,
        }
    }
}

/// A position with the first-occurrence property is `first_pos`.
pub proof fn lemma_first_pos_is<A>(s: Seq<A>, x: A, i: int)
    requires
        0 <= i <= s.len(),
        forall|k: int| 0 <= k < i ==> s[k] != x,
        i == s.len() || s[i] == x,
    ensures
        first_pos(s, x) == (if i == s.len() {
            None::<nat>
        } else {
            Some(i as nat)
        }),
    decreases i,
{
    if s.len() > 0 && i > 0 {
        let t = s.drop_first();
        assert forall|k: int| 0 <= k < i - 1 implies t[k] != x by {
            assert(t[k] == s[k + 1]);
        }
        if i < s.len() {
            assert(t[i - 1] == s[i]);
        }
        assert(s[0] != x);
        lemma_first_pos_is(t, x, i - 1);
    }
}

fn normal_part(p: &Vec<char>) -> (b: bool)
    ensures
        b == is_normal_part(p@),
{
    if p.len() == 0 {
        return false;
    }
    let dot = vec!['.'];
    assert(dot@ =~= seq!['.']);
    !chars_eq(p.as_slice(), dot.as_slice())
}

/// The components of `s` (see [`path_components`]).
pub fn components(s: &[char]) -> (r: Vec<Vec<char>>)
    ensures
        seqs(r@) == path_components(s@),
{
    let parts = split_chars(s, '/');
    let ghost ps = split_on(s@, '/');
    let ghost pred = |p: Seq<char>| is_normal_part(p);
    let mut body: Vec<Vec<char>> = Vec::new();
    let mut i: usize = 0;
    while i < parts.len()
        invariant
            0 <= i <= parts.len(),
            seqs(parts@) == ps,
            pred == (|p: Seq<char>| is_normal_part(p)),
            seqs(body@) == ps.take(i as int).filter(pred),
        decreases parts.len() - i,
    {
        proof {
            assert(ps.take(i + 1) =~= ps.take(i as int).push(ps[i as int]));
            ps.take(i as int).lemma_filter_push(ps[i as int], pred);
            assert(ps[i as int] == parts@[i as int]@);
        }
        if normal_part(&parts[i]) {
            let ghost b0 = body@;
            let copy = vstd::slice::slice_to_vec(parts[i].as_slice());
            body.push(copy);
            assert(seqs(body@) =~= seqs(b0).push(ps[i as int]));
        }
        i = i + 1;
    }
    assert(ps.take(i as int) =~= ps);
    let ghost body_v = seqs(body@);
    if s.len() > 0 && s[0] == '/' {
        let mut r: Vec<Vec<char>> = Vec::new();
        let root = vec!['/'];
        assert(root@ =~= seq!['/']);
        r.push(root);
        r.append(&mut body);
        assert(seqs(r@) =~= seq![seq!['/']] + body_v);
        r
    } else {
        let dot = vec!['.'];
        assert(dot@ =~= seq!['.']);
        if parts.len() > 0 && chars_eq(parts[0].as_slice(), dot.as_slice()) {
            let mut r: Vec<Vec<char>> = Vec::new();
            let cur = vec!['.'];
            assert(cur@ =~= seq!['.']);
            r.push(cur);
            r.append(&mut body);
            assert(seqs(r@) =~= seq![seq!['.']] + body_v);
            r
        } else {
            body
        }
    }
}

/// The components of `file` relative to `root`: what follows `root`'s
/// components when they are a prefix of `file`'s, else all of `file`'s.
pub open spec fn relative_components(root: Seq<char>, file: Seq<char>) -> Seq<Seq<char>> {
    let fc = path_components(file);
    let bc = path_components(root);
    if bc.len() <= fc.len() && fc.take(bc.len() as int) == bc {
        fc.skip(bc.len() as int)
    } else {
        fc
    }
}

/// Workspace-relative path with `/` separators: `file` stripped of the
/// `workspace_root` prefix (component-wise), or `file` itself when it is
/// not under the root.
pub fn make_relative(workspace_root: &str, file: &str) -> (r: String)
    ensures
        r@ == join(relative_components(workspace_root@, file@), seq!['/']),
{
    let fv = chars_of(file);
    let bv = chars_of(workspace_root);
    let fc = components(fv.as_slice());
    let bc = components(bv.as_slice());
    let ghost f = seqs(fc@);
    let ghost b = seqs(bc@);
    let mut is_prefix = bc.len() <= fc.len();
    let mut i: usize = 0;
    if is_prefix {
        while i < bc.len()
            invariant
                bc.len() <= fc.len(),
                0 <= i <= bc.len(),
                f == seqs(fc@),
                b == seqs(bc@),
                is_prefix == (forall|k: int| 0 <= k < i ==> f[k] == b[k]),
            decreases bc.len() - i,
        {
            let same = chars_eq(fc[i].as_slice(), bc[i].as_slice());
            assert(f[i as int] == fc@[i as int]@ && b[i as int] == bc@[i as int]@);
            if !same {
                is_prefix = false;
            }
            i = i + 1;
            assert(is_prefix == (forall|k: int| 0 <= k < i ==> f[k] == b[k])) by {
                if !same {
                    assert(f[i - 1] != b[i - 1]);
                }
            }
        }
    }
    proof {
        if is_prefix {
            assert(f.take(b.len() as int) =~= b);
        } else if b.len() <= f.len() {
            if f.take(b.len() as int) == b {
                assert forall|k: int| 0 <= k < b.len() implies f[k] == b[k] by {
                    assert(f.take(b.len() as int)[k] == f[k]);
                }
            }
        }
    }
    let sep = vec!['/'];
    assert(sep@ =~= seq!['/']);
    let out = if is_prefix {
        let rest = vstd::slice::slice_subrange(fc.as_slice(), bc.len(), fc.len());
        assert(seqs(rest@) =~= f.skip(b.len() as int));
        join_chars(rest, sep.as_slice())
    } else {
        join_chars(fc.as_slice(), sep.as_slice())
    };
    crate::text::string_from(out.as_slice())
}

/// `Path::join` of a relative path onto `root`: a separator is put
/// between them unless `root` is empty or already ends with one.
pub open spec fn join_path(root: Seq<char>, rel: Seq<char>) -> Seq<char> {
    if root.len() == 0 {
        rel
    } else if root.last() == '/' {
        root + rel
    } else {
        root + "/"@ + rel
    }
}

/// Joins the relative path `rel` onto `root`.
pub fn join_path_exec(root: &str, rel: &str) -> (p: String)
    ensures
        p@ == join_path(root@, rel@),
{
    let r = chars_of(root);
    let mut p = owned(root);
    if r.len() > 0 && r[r.len() - 1] != '/' {
        push_str(&mut p, "/");
    }
    push_str(&mut p, rel);
    proof {
        reveal_strlit("/");
    }
    p
}

} // verus!
