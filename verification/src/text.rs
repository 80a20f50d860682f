//! Character-sequence helpers shared by the parsers and renderers.
//!
//! Every string the library inspects is modelled by its `Seq<char>` view;
//! the spec functions here say what trimming, prefix tests, splitting,
//! joining and decimal rendering mean on those sequences, and the
//! executable functions are proved against them.

use vstd::prelude::*;
use vstd::slice::slice_subrange;
use vstd::slice::slice_to_vec;
use vstd::string::StringSliceAdditionalSpecFns;

verus! {

/// The Unicode `White_Space` property, which is what `char::is_whitespace`
/// and `str::trim` use.
pub open spec fn is_ws(c: char) -> bool {
    let u = c as u32;
    (0x09 <= u && u <= 0x0D) || u == 0x20 || u == 0x85 || u == 0xA0 || u == 0x1680 || (0x2000
        <= u && u <= 0x200A) || u == 0x2028 || u == 0x2029 || u == 0x202F || u == 0x205F || u
        == 0x3000
}

/// Executable twin of [`is_ws`].
pub fn is_whitespace(c: char) -> (b: bool)
    ensures
        b == is_ws(c),
{
    let u = c as u32;
    (0x09 <= u && u <= 0x0D) || u == 0x20 || u == 0x85 || u == 0xA0 || u == 0x1680 || (0x2000
        <= u && u <= 0x200A) || u == 0x2028 || u == 0x2029 || u == 0x202F || u == 0x205F || u
        == 0x3000
}

/// `s` with its leading whitespace removed (`str::trim_start`).
pub open spec fn trim_start(s: Seq<char>) -> Seq<char>
    decreases s.len(),
{
    if s.len() > 0 && is_ws(s[0]) {
        trim_start(s.drop_first())
    } else {
        s
    }
}

/// `s` with its trailing whitespace removed (`str::trim_end`).
pub open spec fn trim_end(s: Seq<char>) -> Seq<char>
    decreases s.len(),
{
    if s.len() > 0 && is_ws(s.last()) {
        trim_end(s.drop_last())
    } else {
        s
    }
}

/// `s` with whitespace removed at both ends (`str::trim`).
pub open spec fn trim(s: Seq<char>) -> Seq<char> {
    trim_end(trim_start(s))
}

/// `p` is a prefix of `s`.
pub open spec fn is_prefix(p: Seq<char>, s: Seq<char>) -> bool {
    p.len() <= s.len() && s.subrange(0, p.len() as int) == p
}

/// `p` is a suffix of `s`.
pub open spec fn is_suffix(p: Seq<char>, s: Seq<char>) -> bool {
    p.len() <= s.len() && s.subrange(s.len() - p.len(), s.len() as int) == p
}

/// `p` occurs in `s` at position `i`.
pub open spec fn occurs_at(s: Seq<char>, p: Seq<char>, i: int) -> bool {
    0 <= i && i + p.len() <= s.len() && s.subrange(i, i + p.len()) == p
}

/// `p` occurs somewhere in `s` (`str::contains` with a string pattern).
pub open spec fn has_sub(s: Seq<char>, p: Seq<char>) -> bool {
    exists|i: int| occurs_at(s, p, i)
}

/// Position of the first `c` in `s`, if any.
pub open spec fn first_index(s: Seq<char>, c: char) -> Option<nat>
    decreases s.len(),
{
    if s.len() == 0 {
        None
    } else if s[0] == c {
        Some(0)
    } else {
        match first_index(s.drop_first(), c) {
            Some(i) => Some(i + 1),
            None => None,
        }
    }
}

/// The pieces of `s` between occurrences of `c` (`str::split` with a char).
pub open spec fn split_on(s: Seq<char>, c: char) -> Seq<Seq<char>>
    decreases s.len(),
{
    match first_index(s, c) {
        Some(i) => {
            proof {
                lemma_first_index(s, c);
            }
            seq![s.take(i as int)] + split_on(s.skip(i as int + 1), c)
        },
        None => seq![s],
    }
}

/// The `parts` joined with `sep` between neighbours (`[T]::join`).
pub open spec fn join(parts: Seq<Seq<char>>, sep: Seq<char>) -> Seq<char>
    decreases parts.len(),
{
    if parts.len() == 0 {
        Seq::empty()
    } else if parts.len() == 1 {
        parts[0]
    } else {
        join(parts.drop_last(), sep) + sep + parts.last()
    }
}

/// The ASCII digit for `d < 10`.
pub open spec fn digit(d: nat) -> char {
    if d == 0 {
        '0'
    } else if d == 1 {
        '1'
    } else if d == 2 {
        '2'
    } else if d == 3 {
        '3'
    } else if d == 4 {
        '4'
    } else if d == 5 {
        '5'
    } else if d == 6 {
        '6'
    } else if d == 7 {
        '7'
    } else if d == 8 {
        '8'
    } else {
        '9'
    }
}

/// Decimal rendering of `n` without leading zeros (`format!("{n}")`).
pub open spec fn decimal(n: nat) -> Seq<char>
    decreases n,
{
    if n < 10 {
        seq![digit(n)]
    } else {
        decimal(n / 10) + seq![digit(n % 10)]
    }
}

/// `s` left-padded with `'0'` up to `width` characters (`{:0width}`).
pub open spec fn zero_pad(s: Seq<char>, width: nat) -> Seq<char> {
    if s.len() >= width {
        s
    } else {
        Seq::new((width - s.len()) as nat, |i: int| '0') + s
    }
}

// ----------------------------------------------------------------------
// Lemmas
// ----------------------------------------------------------------------

/// Characterises `trim_start` by the index of the first non-blank.
pub proof fn lemma_trim_start_at(s: Seq<char>, i: int)
    requires
        0 <= i <= s.len(),
        forall|k: int| 0 <= k < i ==> is_ws(#[trigger] s[k]),
        i == s.len() || !is_ws(s[i]),
    ensures
        trim_start(s) == s.skip(i),
    decreases i,
{
    if i == 0 {
        assert(s.skip(0) =~= s);
    } else {
        assert(is_ws(s[0]));
        let t = s.drop_first();
        assert forall|k: int| 0 <= k < i - 1 implies is_ws(#[trigger] t[k]) by {
            assert(t[k] == s[k + 1]);
        }
        if i < s.len() {
            assert(t[i - 1] == s[i]);
        }
        lemma_trim_start_at(t, i - 1);
        assert(t.skip(i - 1) =~= s.skip(i));
    }
}

/// Characterises `trim_end` by the index just past the last non-blank.
pub proof fn lemma_trim_end_at(s: Seq<char>, j: int)
    requires
        0 <= j <= s.len(),
        forall|k: int| j <= k < s.len() ==> is_ws(#[trigger] s[k]),
        j == 0 || !is_ws(s[j - 1]),
    ensures
        trim_end(s) == s.take(j),
    decreases s.len() - j,
{
    if j == s.len() {
        assert(s.take(j) =~= s);
    } else {
        assert(is_ws(s.last()));
        let t = s.drop_last();
        assert forall|k: int| j <= k < t.len() implies is_ws(#[trigger] t[k]) by {
            assert(t[k] == s[k]);
        }
        if j > 0 {
            assert(t[j - 1] == s[j - 1]);
        }
        lemma_trim_end_at(t, j);
        assert(t.take(j) =~= s.take(j));
    }
}

/// `first_index` finds exactly the first occurrence.
pub proof fn lemma_first_index(s: Seq<char>, c: char)
    ensures
        match first_index(s, c) {
            Some(i) => i < s.len() && s[i as int] == c && forall|k: int|
                0 <= k < i ==> s[k] != c,
            None => forall|k: int| 0 <= k < s.len() ==> s[k] != c,
        },
    decreases s.len(),
{
    if s.len() > 0 && s[0] != c {
        let t = s.drop_first();
        lemma_first_index(t, c);
        match first_index(t, c) {
            Some(i) => {
                assert forall|k: int| 0 <= k < i + 1 implies s[k] != c by {
                    if k > 0 {
                        assert(s[k] == t[k - 1]);
                    }
                }
            },
            None => {
                assert forall|k: int| 0 <= k < s.len() implies s[k] != c by {
                    if k > 0 {
                        assert(s[k] == t[k - 1]);
                    }
                }
            },
        }
    }
}

/// The converse: a position with the first-occurrence property is `first_index`.
pub proof fn lemma_first_index_is(s: Seq<char>, c: char, i: int)
    requires
        0 <= i <= s.len(),
        forall|k: int| 0 <= k < i ==> s[k] != c,
        i == s.len() || s[i] == c,
    ensures
        first_index(s, c) == (if i == s.len() {
            None::<nat>
        } else {
            Some(i as nat)
        }),
{
    lemma_first_index(s, c);
    match first_index(s, c) {
        Some(j) => {
            if (j as int) < i {
            } else if (j as int) > i {
                assert(s[i] == c);
            }
        },
        None => {
            if i < s.len() {
                assert(s[i] == c);
            }
        },
    }
}

/// Splitting a piece that holds no separator gives that piece alone.
pub proof fn lemma_split_none(s: Seq<char>, c: char)
    requires
        forall|k: int| 0 <= k < s.len() ==> s[k] != c,
    ensures
        split_on(s, c) == seq![s],
{
    lemma_first_index_is(s, c, s.len() as int);
}

/// Splitting `cur + [c] + rest`, where `cur` holds no `c`, peels `cur` off.
pub proof fn lemma_split_step(cur: Seq<char>, c: char, rest: Seq<char>)
    requires
        forall|k: int| 0 <= k < cur.len() ==> cur[k] != c,
    ensures
        split_on(cur + seq![c] + rest, c) == seq![cur] + split_on(rest, c),
{
    let s = cur + seq![c] + rest;
    assert forall|k: int| 0 <= k < cur.len() implies s[k] != c by {
        assert(s[k] == cur[k]);
    }
    assert(s[cur.len() as int] == c);
    lemma_first_index_is(s, c, cur.len() as int);
    assert(s.take(cur.len() as int) =~= cur);
    assert(s.skip(cur.len() as int + 1) =~= rest);
}

/// The literal `.rs` has three characters.
pub proof fn lemma_str_len_3()
    ensures
        ".rs"@.len() == 3,
{
    reveal_strlit(".rs");
}

// ----------------------------------------------------------------------
// Executable helpers
// ----------------------------------------------------------------------

/// The characters of a string slice, in order.
pub fn chars_of(s: &str) -> (v: Vec<char>)
    ensures
        v@ == s@,
{
    let mut v: Vec<char> = Vec::new();
    for c in it: s.chars()
        invariant
            v@ == it.seq().take(it.index() as int),
            it.seq() == s@,
    {
        v.push(c);
    }
    v
}

/// Calls `String::push`. Trusted: appends `c` to the end of `s`, as the
/// standard library documents.
#[verifier::external_body]
pub(crate) fn push_char(s: &mut String, c: char)
    ensures
        final(s)@ == old(s)@.push(c),
{
    s.push(c);
}

/// Appends every character of `chars` to `s`.
pub fn push_chars(s: &mut String, chars: &[char])
    ensures
        final(s)@ == old(s)@ + chars@,
{
    let mut i: usize = 0;
    while i < chars.len()
        invariant
            0 <= i <= chars.len(),
            s@ == old(s)@ + chars@.take(i as int),
        decreases chars.len() - i,
    {
        push_char(s, chars[i]);
        i = i + 1;
        assert(s@ =~= old(s)@ + chars@.take(i as int));
    }
    assert(chars@.take(i as int) =~= chars@);
}

/// Appends a string slice to `s`.
pub fn push_str(s: &mut String, t: &str)
    ensures
        final(s)@ == old(s)@ + t@,
{
    let v = chars_of(t);
    push_chars(s, v.as_slice());
}

/// A new `String` holding exactly `chars`.
pub fn string_from(chars: &[char]) -> (s: String)
    ensures
        s@ == chars@,
{
    let mut s = String::new();
    push_chars(&mut s, chars);
    assert(s@ =~= chars@);
    s
}

/// Owned copy of a string slice.
pub fn owned(t: &str) -> (s: String)
    ensures
        s@ == t@,
{
    let mut s = String::new();
    push_str(&mut s, t);
    assert(s@ =~= t@);
    s
}

/// Exact equality of two character slices.
pub fn chars_eq(a: &[char], b: &[char]) -> (r: bool)
    ensures
        r == (a@ == b@),
{
    if a.len() != b.len() {
        return false;
    }
    let mut i: usize = 0;
    while i < a.len()
        invariant
            a.len() == b.len(),
            0 <= i <= a.len(),
            forall|k: int| 0 <= k < i ==> a@[k] == b@[k],
        decreases a.len() - i,
    {
        if a[i] != b[i] {
            return false;
        }
        i = i + 1;
    }
    assert(a@ =~= b@);
    true
}

/// Exact equality of two strings by their characters.
pub fn str_eq(a: &str, b: &str) -> (r: bool)
    ensures
        r == (a@ == b@),
{
    let va = chars_of(a);
    let vb = chars_of(b);
    chars_eq(va.as_slice(), vb.as_slice())
}

/// Index of the first non-blank character (or the length if none).
pub fn first_non_ws(s: &[char]) -> (i: usize)
    ensures
        i <= s.len(),
        forall|k: int| 0 <= k < i ==> is_ws(#[trigger] s@[k]),
        i == s.len() || !is_ws(s@[i as int]),
{
    let mut i: usize = 0;
    while i < s.len() && is_whitespace(s[i])
        invariant
            i <= s.len(),
            forall|k: int| 0 <= k < i ==> is_ws(#[trigger] s@[k]),
        decreases s.len() - i,
    {
        i = i + 1;
    }
    i
}

/// Index just past the last non-blank character at or after `from`.
pub fn end_non_ws(s: &[char], from: usize) -> (j: usize)
    requires
        from <= s.len(),
    ensures
        from <= j <= s.len(),
        forall|k: int| j <= k < s.len() ==> is_ws(#[trigger] s@[k]),
        j == from || !is_ws(s@[j - 1]),
{
    let mut j: usize = s.len();
    while j > from && is_whitespace(s[j - 1])
        invariant
            from <= j <= s.len(),
            forall|k: int| j <= k < s.len() ==> is_ws(#[trigger] s@[k]),
        decreases j,
    {
        j = j - 1;
    }
    j
}

/// `str::trim_start` on characters.
pub fn trim_start_chars(s: &[char]) -> (r: Vec<char>)
    ensures
        r@ == trim_start(s@),
{
    let i = first_non_ws(s);
    proof {
        lemma_trim_start_at(s@, i as int);
    }
    let r = slice_to_vec(slice_subrange(s, i, s.len()));
    assert(r@ =~= s@.skip(i as int));
    r
}

/// `str::trim_end` on characters.
pub fn trim_end_chars(s: &[char]) -> (r: Vec<char>)
    ensures
        r@ == trim_end(s@),
{
    let j = end_non_ws(s, 0);
    proof {
        lemma_trim_end_at(s@, j as int);
    }
    let r = slice_to_vec(slice_subrange(s, 0, j));
    assert(r@ =~= s@.take(j as int));
    r
}

/// `str::trim` on characters.
pub fn trim_chars(s: &[char]) -> (r: Vec<char>)
    ensures
        r@ == trim(s@),
{
    let a = trim_start_chars(s);
    trim_end_chars(a.as_slice())
}

/// `p` is a prefix of `s`.
pub fn starts_with(s: &[char], p: &[char]) -> (r: bool)
    ensures
        r == is_prefix(p@, s@),
{
    if p.len() > s.len() {
        return false;
    }
    let head = slice_subrange(s, 0, p.len());
    chars_eq(head, p)
}

/// `p` is a suffix of `s`.
pub fn ends_with(s: &[char], p: &[char]) -> (r: bool)
    ensures
        r == is_suffix(p@, s@),
{
    if p.len() > s.len() {
        return false;
    }
    let tail = slice_subrange(s, s.len() - p.len(), s.len());
    chars_eq(tail, p)
}

/// Whether `p` occurs at position `i` of `s`.
pub fn occurs_at_exec(s: &[char], p: &[char], i: usize) -> (r: bool)
    ensures
        r == occurs_at(s@, p@, i as int),
{
    if i > s.len() || p.len() > s.len() - i {
        return false;
    }
    let part = slice_subrange(s, i, i + p.len());
    chars_eq(part, p)
}

/// `p` occurs somewhere in `s`.
pub fn contains(s: &[char], p: &[char]) -> (r: bool)
    ensures
        r == has_sub(s@, p@),
{
    if p.len() > s.len() {
        assert forall|i: int| !occurs_at(s@, p@, i) by {}
        return false;
    }
    let last = s.len() - p.len();
    let mut i: usize = 0;
    while i < last
        invariant
            last == s.len() - p.len(),
            0 <= i <= last,
            forall|k: int| 0 <= k < i ==> !occurs_at(s@, p@, k),
        decreases last - i,
    {
        if occurs_at_exec(s, p, i) {
            return true;
        }
        i = i + 1;
    }
    if occurs_at_exec(s, p, last) {
        return true;
    }
    assert forall|k: int| !occurs_at(s@, p@, k) by {
        if 0 <= k < i {
        }
    }
    false
}

/// Position of the first `c` in `s`.
pub fn find_char(s: &[char], c: char) -> (r: Option<usize>)
    ensures
        r == (match first_index(s@, c) {
            Some(i) => Some(i as usize),
            None => None::<usize>,
        }),
{
    let mut i: usize = 0;
    while i < s.len()
        invariant
            0 <= i <= s.len(),
            forall|k: int| 0 <= k < i ==> s@[k] != c,
        decreases s.len() - i,
    {
        if s[i] == c {
            proof {
                lemma_first_index_is(s@, c, i as int);
            }
            return Some(i);
        }
        i = i + 1;
    }
    proof {
        lemma_first_index_is(s@, c, i as int);
    }
    None
}

/// The deep view of a vector of character vectors.
pub open spec fn seqs(v: Seq<Vec<char>>) -> Seq<Seq<char>> {
    v.map_values(|x: Vec<char>| x@)
}

/// `str::split` with a char separator.
pub fn split_chars(s: &[char], c: char) -> (r: Vec<Vec<char>>)
    ensures
        seqs(r@) == split_on(s@, c),
{
    let mut done: Vec<Vec<char>> = Vec::new();
    let mut cur: Vec<char> = Vec::new();
    let mut i: usize = 0;
    assert(cur@ + s@.skip(0) =~= s@);
    assert(seqs(done@) + split_on(s@, c) =~= split_on(s@, c));
    while i < s.len()
        invariant
            0 <= i <= s.len(),
            forall|k: int| 0 <= k < cur@.len() ==> cur@[k] != c,
            split_on(s@, c) == seqs(done@) + split_on(cur@ + s@.skip(i as int), c),
        decreases s.len() - i,
    {
        let x = s[i];
        if x == c {
            proof {
                let rest = s@.skip(i + 1);
                assert(cur@ + s@.skip(i as int) =~= cur@ + seq![c] + rest);
                lemma_split_step(cur@, c, rest);
                assert(seq![] + rest =~= rest);
            }
            let ghost before = done@;
            done.push(cur);
            cur = Vec::new();
            proof {
                assert(seqs(done@) =~= seqs(before) + seq![seqs(done@).last()]);
                assert(cur@ + s@.skip(i + 1) =~= s@.skip(i + 1));
            }
        } else {
            let ghost old_cur = cur@;
            cur.push(x);
            proof {
                assert(old_cur + s@.skip(i as int) =~= cur@ + s@.skip(i + 1));
            }
        }
        i = i + 1;
    }
    proof {
        assert(cur@ + s@.skip(i as int) =~= cur@);
        lemma_split_none(cur@, c);
    }
    let ghost before = done@;
    done.push(cur);
    assert(seqs(done@) =~= seqs(before) + seq![seqs(done@).last()]);
    done
}

/// Joins `parts` with `sep` between neighbours.
pub fn join_chars(parts: &[Vec<char>], sep: &[char]) -> (r: Vec<char>)
    ensures
        r@ == join(seqs(parts@), sep@),
{
    let mut r: Vec<char> = Vec::new();
    let mut i: usize = 0;
    while i < parts.len()
        invariant
            0 <= i <= parts.len(),
            r@ == join(seqs(parts@.take(i as int)), sep@),
        decreases parts.len() - i,
    {
        proof {
            let t = seqs(parts@.take(i + 1));
            assert(t.drop_last() =~= seqs(parts@.take(i as int)));
            assert(t.last() == parts@[i as int]@);
            assert(t.len() == i + 1);
        }
        if i > 0 {
            let mut k: usize = 0;
            let ghost r0 = r@;
            while k < sep.len()
                invariant
                    0 <= k <= sep.len(),
                    r@ == r0 + sep@.take(k as int),
                decreases sep.len() - k,
            {
                r.push(sep[k]);
                k = k + 1;
                assert(r@ =~= r0 + sep@.take(k as int));
            }
            assert(sep@.take(k as int) =~= sep@);
        }
        let part = &parts[i];
        let mut k: usize = 0;
        let ghost r1 = r@;
        while k < part.len()
            invariant
                0 <= k <= part.len(),
                r@ == r1 + part@.take(k as int),
            decreases part.len() - k,
        {
            r.push(part[k]);
            k = k + 1;
            assert(r@ =~= r1 + part@.take(k as int));
        }
        assert(part@.take(k as int) =~= part@);
        proof {
            if i == 0 {
                assert(r@ =~= join(seqs(parts@.take(1)), sep@));
            }
        }
        i = i + 1;
    }
    assert(parts@.take(i as int) =~= parts@);
    r
}

/// Decimal rendering of an unsigned integer.
pub fn decimal_chars(n: u64) -> (r: Vec<char>)
    ensures
        r@ == decimal(n as nat),
    decreases n,
{
    let d = n % 10;
    let c = if d == 0 {
        '0'
    } else if d == 1 {
        '1'
    } else if d == 2 {
        '2'
    } else if d == 3 {
        '3'
    } else if d == 4 {
        '4'
    } else if d == 5 {
        '5'
    } else if d == 6 {
        '6'
    } else if d == 7 {
        '7'
    } else if d == 8 {
        '8'
    } else {
        '9'
    };
    if n < 10 {
        let mut r: Vec<char> = Vec::new();
        r.push(c);
        assert(r@ =~= decimal(n as nat));
        r
    } else {
        let mut r = decimal_chars(n / 10);
        r.push(c);
        assert(r@ =~= decimal(n as nat));
        r
    }
}

/// Appends the decimal rendering of `n` to `s`.
pub fn push_decimal(s: &mut String, n: u64)
    ensures
        final(s)@ == old(s)@ + decimal(n as nat),
{
    let d = decimal_chars(n);
    push_chars(s, d.as_slice());
}

/// Appends `digits` left-padded with zeros up to `width` characters.
pub fn push_zero_padded(s: &mut String, digits: &[char], width: usize)
    ensures
        final(s)@ == old(s)@ + zero_pad(digits@, width as nat),
{
    if digits.len() < width {
        let pad = width - digits.len();
        let mut k: usize = 0;
        while k < pad
            invariant
                0 <= k <= pad,
                s@ == old(s)@ + Seq::new(k as nat, |i: int| '0'),
            decreases pad - k,
        {
            push_char(s, '0');
            k = k + 1;
            assert(s@ =~= old(s)@ + Seq::new(k as nat, |i: int| '0'));
        }
        push_chars(s, digits);
        assert(s@ =~= old(s)@ + zero_pad(digits@, width as nat));
    } else {
        push_chars(s, digits);
    }
}

/// `s` without one trailing `\r`.
pub open spec fn strip_cr(s: Seq<char>) -> Seq<char> {
    if s.len() > 0 && s.last() == '\r' {
        s.drop_last()
    } else {
        s
    }
}

/// `str::lines`: the pieces between `\n`s, each line ended by `\n`
/// losing one `\r` before it, and no line after a final `\n`.
pub open spec fn lines_spec(s: Seq<char>) -> Seq<Seq<char>> {
    let parts = split_on(s, '\n');
    let init = parts.drop_last().map_values(|p: Seq<char>| strip_cr(p));
    if parts.last().len() == 0 {
        init
    } else {
        init.push(parts.last())
    }
}

/// The lines of `s`, as `str::lines` yields them.
pub fn str_lines(s: &str) -> (lines: Vec<Vec<char>>)
    ensures
        seqs(lines@) == lines_spec(s@),
{
    let chars = chars_of(s);
    let parts = split_chars(chars.as_slice(), '\n');
    let ghost ps = seqs(parts@);
    proof {
        lemma_split_nonempty(s@, '\n');
    }
    let n = parts.len();
    let mut out: Vec<Vec<char>> = Vec::new();
    let mut i: usize = 0;
    while i + 1 < n
        invariant
            0 <= i < n,
            n == parts@.len(),
            ps == seqs(parts@),
            seqs(out@) == ps.take(i as int).map_values(|p: Seq<char>| strip_cr(p)),
        decreases n - i,
    {
        let p = &parts[i];
        let line: Vec<char> = if p.len() > 0 && p[p.len() - 1] == '\r' {
            slice_to_vec(slice_subrange(p.as_slice(), 0, p.len() - 1))
        } else {
            slice_to_vec(p.as_slice())
        };
        proof {
            assert(ps[i as int] == p@);
            if p@.len() > 0 && p@.last() == '\r' {
                assert(line@ =~= p@.drop_last());
            }
            assert(ps.take(i + 1) =~= ps.take(i as int).push(ps[i as int]));
        }
        let ghost o = seqs(out@);
        out.push(line);
        assert(seqs(out@) =~= o.push(strip_cr(ps[i as int])));
        i = i + 1;
    }
    assert(ps.take(i as int) =~= ps.drop_last());
    let last = &parts[n - 1];
    assert(ps.last() == last@);
    if last.len() > 0 {
        let ghost o = seqs(out@);
        out.push(slice_to_vec(last.as_slice()));
        assert(seqs(out@) =~= o.push(last@));
    }
    out
}

/// Splitting always yields at least one piece.
pub proof fn lemma_split_nonempty(s: Seq<char>, c: char)
    ensures
        split_on(s, c).len() >= 1,
    decreases s.len(),
{
    match first_index(s, c) {
        Some(i) => {
            lemma_first_index(s, c);
            lemma_split_nonempty(s.skip(i as int + 1), c);
        },
        None => {},
    }
}

/// Appends the UTF-8 bytes of `t` to `out`.
pub fn append_utf8(out: &mut Vec<u8>, t: &str)
    ensures
        final(out)@ == old(out)@ + vstd::utf8::encode_utf8(t@),
{
    let b = t.as_bytes();
    let mut i: usize = 0;
    while i < b.len()
        invariant
            0 <= i <= b@.len(),
            b@ == vstd::utf8::encode_utf8(t@),
            out@ == old(out)@ + b@.take(i as int),
        decreases b@.len() - i,
    {
        out.push(b[i]);
        i = i + 1;
        assert(out@ =~= old(out)@ + b@.take(i as int));
    }
    assert(b@.take(i as int) =~= b@);
}

} // verus!
