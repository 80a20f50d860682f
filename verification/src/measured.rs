//! `#[measured(...)]` constraints: the comparison operators, the lens a
//! snake-case metric name refers to, and the error a failed check
//! reports.

use vstd::prelude::*;
use crate::text::{chars_of, owned, push_str, str_eq};

verus! {

/// A comparison operator of a constraint.
#[derive(Debug, Clone, Copy, PartialEq, Eq, Structural)]
pub enum Op {
    /// `<`
    Lt,
    /// `<=`
    Le,
    /// `==`
    Eq,
    /// `>=`
    Ge,
    /// `>`
    Gt,
    /// `!=`
    Ne,
}

/// The symbol of an operator.
pub open spec fn op_symbol(op: Op) -> Seq<char> {
    match op {
        Op::Lt => "<"@,
        Op::Le => "<="@,
        Op::Eq => "=="@,
        Op::Ge => ">="@,
        Op::Gt => ">"@,
        Op::Ne => "!="@,
    }
}

/// The symbol an operator is written with.
pub fn op_word(op: Op) -> (w: &'static str)
    ensures
        w@ == op_symbol(op),
{
    match op {
        Op::Lt => "<",
        Op::Le => "<=",
        Op::Eq => "==",
        Op::Ge => ">=",
        Op::Gt => ">",
        Op::Ne => "!=",
    }
}

/// Reads an operator token; `None` for anything else.
pub fn op_from_symbol(token: &str) -> (r: Option<Op>)
    ensures
        match r {
            Some(op) => op_symbol(op) == token@,
            None => forall|op: Op| op_symbol(op) != token@,
        },
{
    proof {
        reveal_strlit("<");
        reveal_strlit("<=");
        reveal_strlit("==");
        reveal_strlit(">=");
        reveal_strlit(">");
        reveal_strlit("!=");
    }
    if str_eq(token, "<=") {
        Some(Op::Le)
    } else if str_eq(token, ">=") {
        Some(Op::Ge)
    } else if str_eq(token, "==") {
        Some(Op::Eq)
    } else if str_eq(token, "!=") {
        Some(Op::Ne)
    } else if str_eq(token, "<") {
        Some(Op::Lt)
    } else if str_eq(token, ">") {
        Some(Op::Gt)
    } else {
        None
    }
}

/// A failed `#[measured]` check; the message becomes the compile error.
#[derive(Debug)]
pub struct CheckError(pub String);

impl CheckError {
    /// The error text.
    pub fn message(&self) -> (s: String)
        ensures
            s@ == self.0@,
    {
        owned(self.0.as_str())
    }
}

/// The snake-case spelling of a kebab-case lens id.
pub open spec fn snake_of(id: Seq<char>) -> Seq<char> {
    id.map_values(|c: char| if c == '-' { '_' } else { c })
}

/// Whether `snake` is the snake-case spelling of `kebab`.
fn snake_matches(kebab: &str, snake: &str) -> (b: bool)
    ensures
        b == (snake_of(kebab@) == snake@),
{
    let k = chars_of(kebab);
    let s = chars_of(snake);
    if k.len() != s.len() {
        return false;
    }
    let mut i: usize = 0;
    while i < k.len()
        invariant
            k@ == kebab@,
            s@ == snake@,
            k.len() == s.len(),
            0 <= i <= k.len(),
            forall|j: int| 0 <= j < i ==> snake_of(k@)[j] == s@[j],
        decreases k.len() - i,
    {
        let c = k[i];
        let t = if c == '-' { '_' } else { c };
        if t != s[i] {
            return false;
        }
        i = i + 1;
    }
    assert(snake_of(k@) =~= s@);
    true
}

/// The error for a metric name no lens has.
pub open spec fn unknown_metric_message(snake: Seq<char>) -> Seq<char> {
    "rustics::measured: unknown metric `"@ + snake
        + "` — see #[measured] doc for the supported set"@
}

/// The position in the catalogue `known` of the lens whose id, spelled
/// in snake case, is `snake`: the first such.
pub fn metric_id_for(snake: &str, known: &[&str]) -> (r: Result<usize, CheckError>)
    ensures
        match r {
            Ok(i) => i < known@.len() && snake_of(known@[i as int]@) == snake@ && forall|j: int|
                0 <= j < i ==> snake_of(known@[j]@) != snake@,
            Err(e) => e.0@ == unknown_metric_message(snake@) && forall|j: int|
                0 <= j < known@.len() ==> snake_of(known@[j]@) != snake@,
        },
{
    let mut i: usize = 0;
    while i < known.len()
        invariant
            0 <= i <= known@.len(),
            forall|j: int| 0 <= j < i ==> snake_of(known@[j]@) != snake@,
        decreases known@.len() - i,
    {
        if snake_matches(known[i], snake) {
            return Ok(i);
        }
        i = i + 1;
    }
    let mut m = owned("rustics::measured: unknown metric `");
    push_str(&mut m, snake);
    push_str(&mut m, "` — see #[measured] doc for the supported set");
    Err(CheckError(m))
}

} // verus!
