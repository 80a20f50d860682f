//! Scalar quoting for the YAML-ish AI report: a value is quoted when a
//! YAML reader would otherwise read it as something else.

use vstd::prelude::*;
use crate::text::{chars_of, contains, has_sub, occurs_at, push_char};

verus! {

/// A value that must be quoted to stay one plain scalar: empty, starting
/// with `-` or `:`, or holding `: `, `#` or `"`.
pub open spec fn needs_quoting_spec(s: Seq<char>) -> bool {
    s.len() == 0 || s[0] == '-' || s[0] == ':' || has_sub(s, ": "@) || s.contains('#')
        || s.contains('"')
}

/// Whether `s` has a character `c`.
fn has_char(s: &[char], c: char) -> (b: bool)
    ensures
        b == s@.contains(c),
{
    let mut i: usize = 0;
    while i < s.len()
        invariant
            0 <= i <= s.len(),
            forall|j: int| 0 <= j < i ==> s@[j] != c,
        decreases s.len() - i,
    {
        if s[i] == c {
            assert(s@[i as int] == c);
            return true;
        }
        i = i + 1;
    }
    false
}

/// Whether `s` must be quoted.
pub fn needs_quoting(s: &str) -> (b: bool)
    ensures
        b == needs_quoting_spec(s@),
{
    let v = chars_of(s);
    let colon_space = [':', ' '];
    proof {
        reveal_strlit(": ");
        assert(colon_space@ =~= ": "@);
    }
    v.len() == 0 || v[0] == '-' || v[0] == ':' || contains(v.as_slice(), &colon_space) || has_char(
        v.as_slice(),
        '#',
    ) || has_char(v.as_slice(), '"')
}

/// `s` with every `"` escaped as `\"`, and every newline turned into a
/// space when `flatten` is set.
pub open spec fn escaped(s: Seq<char>, flatten: bool) -> Seq<char>
    decreases s.len(),
{
    if s.len() == 0 {
        Seq::empty()
    } else {
        let c = s.last();
        escaped(s.drop_last(), flatten) + if c == '"' {
            seq!['\\', '"']
        } else if flatten && c == '\n' {
            seq![' ']
        } else {
            seq![c]
        }
    }
}

/// How a single-line scalar is written: multi-line values are flattened
/// and quoted, values that need it are quoted, others are left bare.
pub open spec fn scalar_spec(s: Seq<char>) -> Seq<char> {
    if s.contains('\n') {
        seq!['"'] + escaped(s, true) + seq!['"']
    } else if needs_quoting_spec(s) {
        seq!['"'] + escaped(s, false) + seq!['"']
    } else {
        s
    }
}

/// Appends `escaped(s, flatten)` to `out`.
fn push_escaped(out: &mut String, s: &[char], flatten: bool)
    ensures
        final(out)@ == old(out)@ + escaped(s@, flatten),
{
    let mut i: usize = 0;
    while i < s.len()
        invariant
            0 <= i <= s.len(),
            out@ == old(out)@ + escaped(s@.take(i as int), flatten),
        decreases s.len() - i,
    {
        let c = s[i];
        proof {
            let t = s@.take(i + 1);
            assert(t.drop_last() =~= s@.take(i as int));
            assert(t.last() == c);
        }
        let ghost o = out@;
        if c == '"' {
            push_char(out, '\\');
            push_char(out, '"');
        } else if flatten && c == '\n' {
            push_char(out, ' ');
        } else {
            push_char(out, c);
        }
        assert(out@ =~= old(out)@ + escaped(s@.take(i + 1), flatten));
        i = i + 1;
    }
    assert(s@.take(i as int) =~= s@);
}

/// Quotes a string, when needed, so YAML readers take it as one scalar.
pub fn scalar_string(s: &str) -> (r: String)
    ensures
        r@ == scalar_spec(s@),
{
    let v = chars_of(s);
    let mut r = String::new();
    if has_char(v.as_slice(), '\n') {
        push_char(&mut r, '"');
        push_escaped(&mut r, v.as_slice(), true);
        push_char(&mut r, '"');
    } else if needs_quoting(s) {
        push_char(&mut r, '"');
        push_escaped(&mut r, v.as_slice(), false);
        push_char(&mut r, '"');
    } else {
        let mut t = String::new();
        crate::text::push_chars(&mut t, v.as_slice());
        assert(t@ =~= s@);
        return t;
    }
    assert(r@ =~= scalar_spec(s@));
    r
}

/// Escaping adds no newline, and removes every one when flattening.
proof fn lemma_escaped_newlines(s: Seq<char>, flatten: bool)
    ensures
        (flatten || !s.contains('\n')) ==> !escaped(s, flatten).contains('\n'),
    decreases s.len(),
{
    if s.len() > 0 {
        let c = s.last();
        lemma_escaped_newlines(s.drop_last(), flatten);
        let prev = escaped(s.drop_last(), flatten);
        let tail: Seq<char> = if c == '"' {
            seq!['\\', '"']
        } else if flatten && c == '\n' {
            seq![' ']
        } else {
            seq![c]
        };
        assert(escaped(s, flatten) == prev + tail);
        if flatten || !s.contains('\n') {
            if !flatten {
                assert forall|i: int| 0 <= i < s.drop_last().len() implies s.drop_last()[i] != '\n' by {
                    assert(s[i] == s.drop_last()[i]);
                }
                assert(s[s.len() - 1] == c);
            }
            assert(!tail.contains('\n'));
            assert forall|i: int| 0 <= i < (prev + tail).len() implies (prev + tail)[i] != '\n' by {
                if i < prev.len() {
                    assert((prev + tail)[i] == prev[i]);
                } else {
                    assert((prev + tail)[i] == tail[i - prev.len()]);
                }
            }
        }
    }
}

/// A scalar written by [`scalar_string`] always fits on one line: no
/// value, multi-line or not, puts a newline into the report.
pub proof fn law_scalar_is_one_line(s: Seq<char>)
    ensures
        !scalar_spec(s).contains('\n'),
{
    lemma_escaped_newlines(s, true);
    lemma_escaped_newlines(s, false);
    let q: Seq<char> = seq!['"'];
    if s.contains('\n') {
        let e = escaped(s, true);
        assert forall|i: int| 0 <= i < (q + e + q).len() implies (q + e + q)[i] != '\n' by {
            if i == 0 || i == e.len() + 1 {
            } else {
                assert((q + e + q)[i] == e[i - 1]);
            }
        }
    } else if needs_quoting_spec(s) {
        let e = escaped(s, false);
        assert forall|i: int| 0 <= i < (q + e + q).len() implies (q + e + q)[i] != '\n' by {
            if i == 0 || i == e.len() + 1 {
            } else {
                assert((q + e + q)[i] == e[i - 1]);
            }
        }
    }
}

/// Escaping never shortens a value.
proof fn lemma_escaped_len(s: Seq<char>, flatten: bool)
    ensures
        escaped(s, flatten).len() >= s.len(),
    decreases s.len(),
{
    if s.len() > 0 {
        lemma_escaped_len(s.drop_last(), flatten);
    }
}

/// A value holding `#` anywhere, or `"`, or `: `, or starting with `-`
/// or `:`, or empty, is written quoted: its scalar opens and closes with
/// `"` and differs from the value. So a value written bare holds no `#`,
/// no `"` and no `: `, and a YAML reader cannot take part of it as a
/// comment.
pub proof fn law_comment_marks_are_quoted(s: Seq<char>, i: int)
    requires
        0 <= i < s.len(),
        s[i] == '#' || s[i] == '"' || (s[i] == ':' && i + 1 < s.len() && s[i + 1] == ' ') || (i == 0 && (s[0] == '-'
            || s[0] == ':')),
    ensures
        scalar_spec(s).len() >= 2,
        scalar_spec(s)[0] == '"',
        scalar_spec(s).last() == '"',
        scalar_spec(s) != s,
{
    reveal_strlit(": ");
    if s[i] == '#' {
        assert(s.contains('#'));
    } else if s[i] == '"' {
        assert(s.contains('"'));
    } else if s[i] == ':' && i + 1 < s.len() && s[i + 1] == ' ' {
        assert(s.subrange(i, i + 2) =~= ": "@);
        assert(occurs_at(s, ": "@, i));
    }
    let q: Seq<char> = seq!['"'];
    let flatten = s.contains('\n');
    let e = escaped(s, flatten);
    lemma_escaped_len(s, flatten);
    assert(scalar_spec(s) == q + e + q);
    assert((q + e + q)[0] == '"');
    assert((q + e + q).last() == '"');
    assert((q + e + q).len() == s.len() + 2 + (e.len() - s.len()));
}

/// The empty value is written as `""`.
pub proof fn law_empty_is_quoted()
    ensures
        scalar_spec(Seq::empty()) == seq!['"', '"'],
{
    assert(escaped(Seq::<char>::empty(), false) =~= Seq::<char>::empty());
    assert(seq!['"'] + Seq::<char>::empty() + seq!['"'] =~= seq!['"', '"']);
}

} // verus!
