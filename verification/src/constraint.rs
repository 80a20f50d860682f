//! The argument list of `#[measured(...)]`: constraints written
//! `<metric> <op> <integer>`, separated by commas, with an optional
//! trailing comma. The operators are `<`, `<=`, `==`, `>=`, `>`, `!=`,
//! and `=` as a shorthand for `<=`.
//!
//! The arguments arrive as tokens. An operator of two characters is two
//! punctuation tokens, the first joined to the second; the threshold is an
//! integer literal (a `-` followed by a literal counts as one literal),
//! whose base-10 digits are then read as a `u64`. The first problem found
//! is the error, worded as the compiler would report it.

use vstd::prelude::*;
use crate::coverage::{digits_value, is_digit};
use crate::measured::Op;
use crate::text::{chars_of, owned, push_str, str_eq, string_from};

verus! {

/// One token of the argument list.
#[derive(Debug)]
pub enum ArgToken {
    /// An identifier or keyword, as written.
    Ident(String),
    /// A punctuation character, and whether it is joined to the next one.
    Punct(char, bool),
    /// A literal, as written.
    Literal(String),
    /// A delimited group.
    Group,
}

/// One parsed constraint.
#[derive(Debug)]
pub struct Constraint {
    /// The metric name, as written (snake case).
    pub metric: String,
    /// The comparison.
    pub op: Op,
    /// The threshold.
    pub threshold: u64,
}

/// What went wrong while reading the arguments.
#[derive(Debug, Clone, Copy, PartialEq, Eq, Structural)]
pub enum ErrorKind {
    /// No identifier where the metric name belongs.
    ExpectedIdent,
    /// A keyword where the metric name belongs.
    KeywordIdent,
    /// No comparison operator after the metric name.
    ExpectedOp,
    /// No integer literal after the operator.
    ExpectedInt,
    /// The literal's digits are empty.
    EmptyInt,
    /// The literal's digits hold something other than a digit.
    InvalidDigit,
    /// The literal's value does not fit in a `u64`.
    PosOverflow,
    /// No comma after a constraint that is not the last token.
    ExpectedComma,
}

/// A parse error: its kind, the keyword found (for
/// [`ErrorKind::KeywordIdent`], else empty), and whether the tokens ran
/// out where something was expected.
#[derive(Debug)]
pub struct ConstraintError {
    /// What went wrong.
    pub kind: ErrorKind,
    /// The keyword found where a metric name belongs; empty otherwise.
    pub keyword: String,
    /// The error lies past the last token.
    pub at_end: bool,
}

/// A constraint as `(metric, op, threshold)`.
pub open spec fn constraint_view(c: Constraint) -> (Seq<char>, Op, u64) {
    (c.metric@, c.op, c.threshold)
}

/// An error as `(kind, keyword, at_end)`.
pub open spec fn error_view(e: ConstraintError) -> (ErrorKind, Seq<char>, bool) {
    (e.kind, e.keyword@, e.at_end)
}

/// The identifiers the parser refuses as metric names: `_` and the
/// keywords.
pub open spec fn is_keyword(s: Seq<char>) -> bool {
    s == "_"@
        || s == "abstract"@
        || s == "as"@
        || s == "async"@
        || s == "await"@
        || s == "become"@
        || s == "box"@
        || s == "break"@
        || s == "const"@
        || s == "continue"@
        || s == "crate"@
        || s == "do"@
        || s == "dyn"@
        || s == "else"@
        || s == "enum"@
        || s == "extern"@
        || s == "false"@
        || s == "final"@
        || s == "fn"@
        || s == "for"@
        || s == "if"@
        || s == "impl"@
        || s == "in"@
        || s == "let"@
        || s == "loop"@
        || s == "macro"@
        || s == "match"@
        || s == "mod"@
        || s == "move"@
        || s == "mut"@
        || s == "override"@
        || s == "priv"@
        || s == "pub"@
        || s == "ref"@
        || s == "return"@
        || s == "Self"@
        || s == "self"@
        || s == "static"@
        || s == "struct"@
        || s == "super"@
        || s == "trait"@
        || s == "true"@
        || s == "try"@
        || s == "type"@
        || s == "typeof"@
        || s == "unsafe"@
        || s == "unsized"@
        || s == "use"@
        || s == "virtual"@
        || s == "where"@
        || s == "while"@
        || s == "yield"@
}

/// Whether `s` is `_` or a keyword.
pub fn keyword(s: &str) -> (b: bool)
    ensures
        b == is_keyword(s@),
{
    str_eq(s, "_")
        || str_eq(s, "abstract")
        || str_eq(s, "as")
        || str_eq(s, "async")
        || str_eq(s, "await")
        || str_eq(s, "become")
        || str_eq(s, "box")
        || str_eq(s, "break")
        || str_eq(s, "const")
        || str_eq(s, "continue")
        || str_eq(s, "crate")
        || str_eq(s, "do")
        || str_eq(s, "dyn")
        || str_eq(s, "else")
        || str_eq(s, "enum")
        || str_eq(s, "extern")
        || str_eq(s, "false")
        || str_eq(s, "final")
        || str_eq(s, "fn")
        || str_eq(s, "for")
        || str_eq(s, "if")
        || str_eq(s, "impl")
        || str_eq(s, "in")
        || str_eq(s, "let")
        || str_eq(s, "loop")
        || str_eq(s, "macro")
        || str_eq(s, "match")
        || str_eq(s, "mod")
        || str_eq(s, "move")
        || str_eq(s, "mut")
        || str_eq(s, "override")
        || str_eq(s, "priv")
        || str_eq(s, "pub")
        || str_eq(s, "ref")
        || str_eq(s, "return")
        || str_eq(s, "Self")
        || str_eq(s, "self")
        || str_eq(s, "static")
        || str_eq(s, "struct")
        || str_eq(s, "super")
        || str_eq(s, "trait")
        || str_eq(s, "true")
        || str_eq(s, "try")
        || str_eq(s, "type")
        || str_eq(s, "typeof")
        || str_eq(s, "unsafe")
        || str_eq(s, "unsized")
        || str_eq(s, "use")
        || str_eq(s, "virtual")
        || str_eq(s, "where")
        || str_eq(s, "while")
        || str_eq(s, "yield")
}

/// Token `i` is the punctuation character `c`.
pub open spec fn punct_at(toks: Seq<ArgToken>, i: int, c: char) -> bool {
    0 <= i < toks.len() && match toks[i] {
        ArgToken::Punct(p, _) => p == c,
        _ => false,
    }
}

/// Token `i` is the punctuation character `c`, joined to the next token.
pub open spec fn joint_punct_at(toks: Seq<ArgToken>, i: int, c: char) -> bool {
    0 <= i < toks.len() && match toks[i] {
        ArgToken::Punct(p, joint) => p == c && joint,
        _ => false,
    }
}

/// The two-character operator starting at token `i`, if any.
pub open spec fn two_char_op(toks: Seq<ArgToken>, i: int) -> Option<Op> {
    if !punct_at(toks, i + 1, '=') {
        None
    } else if joint_punct_at(toks, i, '<') {
        Some(Op::Le)
    } else if joint_punct_at(toks, i, '>') {
        Some(Op::Ge)
    } else if joint_punct_at(toks, i, '=') {
        Some(Op::Eq)
    } else if joint_punct_at(toks, i, '!') {
        Some(Op::Ne)
    } else {
        None
    }
}

/// The one-character operator at token `i`, if any. A lone `=` is the
/// shorthand for `<=`.
pub open spec fn one_char_op(toks: Seq<ArgToken>, i: int) -> Option<Op> {
    if punct_at(toks, i, '<') {
        Some(Op::Lt)
    } else if punct_at(toks, i, '>') {
        Some(Op::Gt)
    } else if punct_at(toks, i, '=') {
        Some(Op::Le)
    } else {
        None
    }
}

/// The operator starting at token `i` and the number of tokens it takes,
/// two-character ones first.
pub open spec fn op_at(toks: Seq<ArgToken>, i: int) -> Option<(Op, int)> {
    match two_char_op(toks, i) {
        Some(op) => Some((op, 2)),
        None => match one_char_op(toks, i) {
            Some(op) => Some((op, 1)),
            None => None,
        },
    }
}

/// The base-10 digits `syn` gives the integer literal written `repr`
/// (`LitInt::base10_digits`: underscores and suffix dropped, other bases
/// converted, a leading `-` kept), or `None` when `repr` is not an
/// integer literal.
pub uninterp spec fn lit_int_digits(repr: Seq<char>) -> Option<Seq<char>>;

/// Calls `syn::parse_str::<syn::LitInt>` on `repr` and, on success,
/// `LitInt::base10_digits`. Trusted: the result is `lit_int_digits` of
/// the text, a function of the text alone.
#[verifier::external_body]
fn literal_digits(repr: &str) -> (r: Option<String>)
    ensures
        match r {
            Some(d) => lit_int_digits(repr@) == Some(d@),
            None => lit_int_digits(repr@) == None::<Seq<char>>,
        },
{
    syn::parse_str::<syn::LitInt>(repr).ok().map(|l| l.base10_digits().to_string())
}

/// The digits of the integer literal starting at token `i` and the
/// number of tokens it takes.
pub open spec fn int_at(toks: Seq<ArgToken>, i: int) -> Option<(Seq<char>, int)> {
    if 0 <= i < toks.len() {
        match toks[i] {
            ArgToken::Literal(r) => match lit_int_digits(r@) {
                Some(d) => Some((d, 1)),
                None => None,
            },
            ArgToken::Punct(c, _) => if c == '-' && i + 1 < toks.len() {
                match toks[i + 1] {
                    ArgToken::Literal(r) => match lit_int_digits("-"@ + r@) {
                        Some(d) => Some((d, 2)),
                        None => None,
                    },
                    _ => None,
                }
            } else {
                None
            },
            _ => None,
        }
    } else {
        None
    }
}

/// The first failure among the first `n` characters of `d`: a
/// non-digit, or a prefix too large for a `u64`.
pub open spec fn first_failure(d: Seq<char>, n: int) -> Option<ErrorKind>
    decreases n,
{
    if n <= 0 {
        None
    } else {
        match first_failure(d, n - 1) {
            Some(k) => Some(k),
            None => if !is_digit(d[n - 1]) {
                Some(ErrorKind::InvalidDigit)
            } else if digits_value(d.take(n)) > u64::MAX {
                Some(ErrorKind::PosOverflow)
            } else {
                None
            },
        }
    }
}

/// `s` without one leading `+`.
pub open spec fn plus_stripped(s: Seq<char>) -> Seq<char> {
    if s.len() > 0 && s[0] == '+' {
        s.drop_first()
    } else {
        s
    }
}

/// `str::parse::<u64>`: an optional `+`, then digits, read left to right;
/// the first non-digit or the first overflow is the error.
pub open spec fn parse_u64_spec(s: Seq<char>) -> Result<u64, ErrorKind> {
    if s.len() == 0 {
        Err(ErrorKind::EmptyInt)
    } else if plus_stripped(s).len() == 0 {
        Err(ErrorKind::InvalidDigit)
    } else {
        match first_failure(plus_stripped(s), plus_stripped(s).len() as int) {
            Some(k) => Err(k),
            None => Ok(digits_value(plus_stripped(s)) as u64),
        }
    }
}

proof fn lemma_failure_persists(d: Seq<char>, n: int, m: int)
    requires
        0 <= n <= m,
        first_failure(d, n) is Some,
    ensures
        first_failure(d, m) == first_failure(d, n),
    decreases m - n,
{
    if m > n {
        lemma_failure_persists(d, n, m - 1);
    }
}

/// Reads a base-10 `u64` as `str::parse` does.
pub fn parse_u64(s: &[char]) -> (r: Result<u64, ErrorKind>)
    ensures
        r == parse_u64_spec(s@),
{
    if s.len() == 0 {
        return Err(ErrorKind::EmptyInt);
    }
    let start: usize = if s[0] == '+' {
        1
    } else {
        0
    };
    let ghost d = plus_stripped(s@);
    assert(d =~= s@.skip(start as int));
    if start == 1 && s.len() == 1 {
        return Err(ErrorKind::InvalidDigit);
    }
    let mut acc: u64 = 0;
    let mut i: usize = start;
    assert(d.take(0) =~= Seq::<char>::empty());
    while i < s.len()
        invariant
            start <= i <= s.len(),
            s@.len() > 0,
            d.len() > 0,
            d == plus_stripped(s@),
            d == s@.skip(start as int),
            first_failure(d, i - start) == None::<ErrorKind>,
            acc as nat == digits_value(d.take(i - start)),
        decreases s.len() - i,
    {
        let c = s[i];
        let ghost n: int = i - start;
        proof {
            assert(d[n] == c);
            assert(d.take(n + 1).drop_last() =~= d.take(n));
            assert(d.take(n + 1).last() == c);
        }
        if !('0' <= c && c <= '9') {
            proof {
                assert(first_failure(d, n + 1) == Some(ErrorKind::InvalidDigit));
                lemma_failure_persists(d, n + 1, d.len() as int);
            }
            return Err(ErrorKind::InvalidDigit);
        }
        let dv: u64 = (c as u32 - '0' as u32) as u64;
        let next: u128 = acc as u128 * 10 + dv as u128;
        assert(digits_value(d.take(n + 1)) == digits_value(d.take(n)) * 10 + (c as u32 - '0' as u32) as nat);
        if next > u64::MAX as u128 {
            proof {
                assert(first_failure(d, n + 1) == Some(ErrorKind::PosOverflow));
                lemma_failure_persists(d, n + 1, d.len() as int);
            }
            return Err(ErrorKind::PosOverflow);
        }
        acc = next as u64;
        i = i + 1;
    }
    assert(d.take(d.len() as int) =~= d);
    Ok(acc)
}

fn no_error(kind: ErrorKind, at_end: bool) -> (e: ConstraintError)
    ensures
        error_view(e) == (kind, Seq::<char>::empty(), at_end),
{
    proof {
        reveal_strlit("");
    }
    let keyword = owned("");
    assert(keyword@ =~= Seq::<char>::empty());
    ConstraintError { kind, keyword, at_end }
}

fn punct_is(toks: &[ArgToken], i: usize, c: char) -> (b: bool)
    ensures
        b == punct_at(toks@, i as int, c),
{
    if i < toks.len() {
        match &toks[i] {
            ArgToken::Punct(p, _) => *p == c,
            _ => false,
        }
    } else {
        false
    }
}

fn joint_punct_is(toks: &[ArgToken], i: usize, c: char) -> (b: bool)
    ensures
        b == joint_punct_at(toks@, i as int, c),
{
    if i < toks.len() {
        match &toks[i] {
            ArgToken::Punct(p, joint) => *p == c && *joint,
            _ => false,
        }
    } else {
        false
    }
}

/// The two-character operator (`<=`, `>=`, `==`, `!=`) at token `i`.
pub fn parse_two_char_op(toks: &[ArgToken], i: usize) -> (r: Option<Op>)
    ensures
        r == two_char_op(toks@, i as int),
{
    if i >= toks.len() || !punct_is(toks, i + 1, '=') {
        return None;
    }
    if joint_punct_is(toks, i, '<') {
        Some(Op::Le)
    } else if joint_punct_is(toks, i, '>') {
        Some(Op::Ge)
    } else if joint_punct_is(toks, i, '=') {
        Some(Op::Eq)
    } else if joint_punct_is(toks, i, '!') {
        Some(Op::Ne)
    } else {
        None
    }
}

/// The one-character operator (`<`, `>`, or `=` for `<=`) at token `i`;
/// the error says which operators are expected.
pub fn parse_one_char_op(toks: &[ArgToken], i: usize) -> (r: Result<Op, ConstraintError>)
    ensures
        match (r, one_char_op(toks@, i as int)) {
            (Ok(op), Some(o)) => op == o,
            (Err(e), None) => error_view(e) == (
                ErrorKind::ExpectedOp,
                Seq::<char>::empty(),
                i >= toks@.len(),
            ),
            _ => false,
        },
{
    if punct_is(toks, i, '<') {
        Ok(Op::Lt)
    } else if punct_is(toks, i, '>') {
        Ok(Op::Gt)
    } else if punct_is(toks, i, '=') {
        Ok(Op::Le)
    } else {
        Err(no_error(ErrorKind::ExpectedOp, i >= toks.len()))
    }
}

/// The operator at token `i` and the index after it.
pub fn parse_op(toks: &[ArgToken], i: usize) -> (r: Result<(Op, usize), ConstraintError>)
    requires
        i <= toks@.len(),
    ensures
        match (r, op_at(toks@, i as int)) {
            (Ok((op, k)), Some((o, n))) => op == o && k == i + n,
            (Err(e), None) => error_view(e) == (
                ErrorKind::ExpectedOp,
                Seq::<char>::empty(),
                i >= toks@.len(),
            ),
            _ => false,
        },
{
    match parse_two_char_op(toks, i) {
        Some(op) => {
            assert(punct_at(toks@, i + 1, '='));
            assert(i + 2 <= toks.len());
            Ok((op, i + 2))
        },
        None => match parse_one_char_op(toks, i) {
            Ok(op) => {
                assert(punct_at(toks@, i as int, '<') || punct_at(toks@, i as int, '>') || punct_at(
                    toks@,
                    i as int,
                    '=',
                ));
                assert(i + 1 <= toks.len());
                Ok((op, i + 1))
            },
            Err(e) => Err(e),
        },
    }
}

/// The threshold starting at token `k` and the index after it.
fn parse_int_at(toks: &[ArgToken], k: usize) -> (r: Result<(u64, usize), ConstraintError>)
    requires
        k <= toks@.len(),
    ensures
        match int_at(toks@, k as int) {
            None => match r {
                Err(e) => error_view(e) == (
                    ErrorKind::ExpectedInt,
                    Seq::<char>::empty(),
                    k >= toks@.len(),
                ),
                Ok(_) => false,
            },
            Some((d, n)) => match (r, parse_u64_spec(d)) {
                (Ok((v, j)), Ok(w)) => v == w && j == k + n,
                (Err(e), Err(kind)) => error_view(e) == (kind, Seq::<char>::empty(), false),
                _ => false,
            },
        },
{
    if k >= toks.len() {
        return Err(no_error(ErrorKind::ExpectedInt, true));
    }
    let (digits, n): (Option<String>, usize) = match &toks[k] {
        ArgToken::Literal(r) => (literal_digits(r.as_str()), 1),
        ArgToken::Punct(c, _) => {
            if *c == '-' && k + 1 < toks.len() {
                match &toks[k + 1] {
                    ArgToken::Literal(r) => {
                        let mut neg = owned("-");
                        push_str(&mut neg, r.as_str());
                        (literal_digits(neg.as_str()), 2)
                    },
                    _ => (None, 2),
                }
            } else {
                (None, 1)
            }
        },
        _ => (None, 1),
    };
    match digits {
        None => Err(no_error(ErrorKind::ExpectedInt, false)),
        Some(d) => {
            let dc = chars_of(d.as_str());
            match parse_u64(dc.as_slice()) {
                Ok(v) => Ok((v, k + n)),
                Err(kind) => Err(no_error(kind, false)),
            }
        },
    }
}

/// One constraint read at token `i` and the index after it.
pub open spec fn parse_one(toks: Seq<ArgToken>, i: int) -> Result<((Seq<char>, Op, u64), int), (ErrorKind, Seq<char>, bool)> {
    if !(0 <= i < toks.len()) {
        Err((ErrorKind::ExpectedIdent, Seq::empty(), true))
    } else {
        match toks[i] {
            ArgToken::Ident(name) => if is_keyword(name@) {
                Err((ErrorKind::KeywordIdent, name@, false))
            } else {
                match op_at(toks, i + 1) {
                    None => Err((ErrorKind::ExpectedOp, Seq::empty(), i + 1 >= toks.len())),
                    Some((op, len)) => {
                        let k = i + 1 + len;
                        match int_at(toks, k) {
                            None => Err((ErrorKind::ExpectedInt, Seq::empty(), k >= toks.len())),
                            Some((d, n)) => match parse_u64_spec(d) {
                                Err(kind) => Err((kind, Seq::empty(), false)),
                                Ok(v) => Ok(((name@, op, v), k + n)),
                            },
                        }
                    },
                }
            },
            _ => Err((ErrorKind::ExpectedIdent, Seq::empty(), false)),
        }
    }
}

/// Reads one constraint at token `i`: the metric name, the operator, the
/// threshold.
pub fn parse_constraint(toks: &[ArgToken], i: usize) -> (r: Result<(Constraint, usize), ConstraintError>)
    requires
        i < toks@.len(),
    ensures
        match (r, parse_one(toks@, i as int)) {
            (Ok((c, j)), Ok((v, k))) => constraint_view(c) == v && j == k,
            (Err(e), Err(x)) => error_view(e) == x,
            _ => false,
        },
{
    match &toks[i] {
        ArgToken::Ident(name) => {
            if keyword(name.as_str()) {
                return Err(
                    ConstraintError {
                        kind: ErrorKind::KeywordIdent,
                        keyword: owned(name.as_str()),
                        at_end: false,
                    },
                );
            }
            let (op, k) = match parse_op(toks, i + 1) {
                Ok(p) => p,
                Err(e) => {
                    return Err(e);
                },
            };
            match parse_int_at(toks, k) {
                Ok((v, j)) => Ok((Constraint { metric: owned(name.as_str()), op, threshold: v }, j)),
                Err(e) => Err(e),
            }
        },
        _ => Err(no_error(ErrorKind::ExpectedIdent, false)),
    }
}

/// The constraints read from token `i` on: one constraint, then either
/// the end or a comma and the rest (a trailing comma is allowed).
pub open spec fn parse_list_from(toks: Seq<ArgToken>, i: int) -> Result<Seq<(Seq<char>, Op, u64)>, (ErrorKind, Seq<char>, bool)>
    decreases toks.len() - i,
{
    if i < 0 || i >= toks.len() {
        Ok(Seq::empty())
    } else {
        match parse_one(toks, i) {
            Err(e) => Err(e),
            Ok((c, j)) => if j >= toks.len() {
                Ok(seq![c])
            } else if punct_at(toks, j, ',') {
                match parse_list_from(toks, j + 1) {
                    Ok(rest) => Ok(seq![c] + rest),
                    Err(e) => Err(e),
                }
            } else {
                Err((ErrorKind::ExpectedComma, Seq::empty(), false))
            },
        }
    }
}

/// `vs` in front of the constraints of a parse; errors pass through.
pub open spec fn prefixed(
    vs: Seq<(Seq<char>, Op, u64)>,
    r: Result<Seq<(Seq<char>, Op, u64)>, (ErrorKind, Seq<char>, bool)>,
) -> Result<Seq<(Seq<char>, Op, u64)>, (ErrorKind, Seq<char>, bool)> {
    match r {
        Ok(rest) => Ok(vs + rest),
        Err(e) => Err(e),
    }
}

/// The views of parsed constraints.
pub open spec fn constraint_views(cs: Seq<Constraint>) -> Seq<(Seq<char>, Op, u64)> {
    cs.map_values(|c: Constraint| constraint_view(c))
}

/// Reads the whole argument list of `#[measured(...)]`.
pub fn parse_constraints(toks: &[ArgToken]) -> (r: Result<Vec<Constraint>, ConstraintError>)
    ensures
        match (r, parse_list_from(toks@, 0)) {
            (Ok(cs), Ok(vs)) => constraint_views(cs@) == vs,
            (Err(e), Err(x)) => error_view(e) == x,
            _ => false,
        },
{
    let mut out: Vec<Constraint> = Vec::new();
    let mut i: usize = 0;
    assert(prefixed(constraint_views(out@), parse_list_from(toks@, 0)) =~= parse_list_from(toks@, 0)) by {
        assert(constraint_views(out@) =~= Seq::<(Seq<char>, Op, u64)>::empty());
        match parse_list_from(toks@, 0) {
            Ok(rest) => {
                assert(Seq::<(Seq<char>, Op, u64)>::empty() + rest =~= rest);
            },
            Err(_) => {},
        }
    }
    while i < toks.len()
        invariant
            0 <= i <= toks@.len(),
            parse_list_from(toks@, 0) == prefixed(constraint_views(out@), parse_list_from(toks@, i as int)),
        decreases toks@.len() - i,
    {
        let ghost before = constraint_views(out@);
        let (c, j) = match parse_constraint(toks, i) {
            Ok(p) => p,
            Err(e) => {
                return Err(e);
            },
        };
        let ghost cv = constraint_view(c);
        out.push(c);
        assert(constraint_views(out@) =~= before.push(cv));
        if j >= toks.len() {
            assert(before + seq![cv] =~= before.push(cv));
            return Ok(out);
        }
        if !punct_is(toks, j, ',') {
            return Err(no_error(ErrorKind::ExpectedComma, false));
        }
        proof {
            match parse_list_from(toks@, j + 1) {
                Ok(rest) => {
                    assert(before + (seq![cv] + rest) =~= before.push(cv) + rest);
                },
                Err(_) => {},
            }
        }
        i = j + 1;
    }
    assert(constraint_views(out@) + Seq::<(Seq<char>, Op, u64)>::empty() =~= constraint_views(out@));
    Ok(out)
}

/// The text of an error, as the compiler reports it.
pub open spec fn error_text(v: (ErrorKind, Seq<char>, bool)) -> Seq<char> {
    (if v.2 {
        "unexpected end of input, "@
    } else {
        Seq::empty()
    }) + match v.0 {
        ErrorKind::ExpectedIdent => "expected identifier"@,
        ErrorKind::KeywordIdent => "expected identifier, found keyword `"@ + v.1 + "`"@,
        ErrorKind::ExpectedOp => "expected one of `<`, `<=`, `==`, `>=`, `>`, `!=`"@,
        ErrorKind::ExpectedInt => "expected integer literal"@,
        ErrorKind::EmptyInt => "cannot parse integer from empty string"@,
        ErrorKind::InvalidDigit => "invalid digit found in string"@,
        ErrorKind::PosOverflow => "number too large to fit in target type"@,
        ErrorKind::ExpectedComma => "expected `,`"@,
    }
}

impl ConstraintError {
    /// The error text, as the compiler reports it.
    pub fn message(&self) -> (s: String)
        ensures
            s@ == error_text(error_view(*self)),
    {
        proof {
            reveal_strlit("");
        }
        let mut s = if self.at_end {
            owned("unexpected end of input, ")
        } else {
            owned("")
        };
        let ghost head = s@;
        match self.kind {
            ErrorKind::ExpectedIdent => push_str(&mut s, "expected identifier"),
            ErrorKind::KeywordIdent => {
                push_str(&mut s, "expected identifier, found keyword `");
                push_str(&mut s, self.keyword.as_str());
                push_str(&mut s, "`");
            },
            ErrorKind::ExpectedOp => push_str(&mut s, "expected one of `<`, `<=`, `==`, `>=`, `>`, `!=`"),
            ErrorKind::ExpectedInt => push_str(&mut s, "expected integer literal"),
            ErrorKind::EmptyInt => push_str(&mut s, "cannot parse integer from empty string"),
            ErrorKind::InvalidDigit => push_str(&mut s, "invalid digit found in string"),
            ErrorKind::PosOverflow => push_str(&mut s, "number too large to fit in target type"),
            ErrorKind::ExpectedComma => push_str(&mut s, "expected `,`"),
        }
        assert(head =~= (if self.at_end {
            "unexpected end of input, "@
        } else {
            Seq::<char>::empty()
        }));
        s
    }
}

} // verus!
