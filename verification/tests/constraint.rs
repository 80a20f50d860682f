use cargo_rustics::constraint::{parse_constraints, parse_u64, ArgToken, ErrorKind};
use cargo_rustics::measured::Op;

fn ident(s: &str) -> ArgToken {
    ArgToken::Ident(s.to_string())
}
fn punct(c: char) -> ArgToken {
    ArgToken::Punct(c, false)
}
fn joint(c: char) -> ArgToken {
    ArgToken::Punct(c, true)
}
fn lit(s: &str) -> ArgToken {
    ArgToken::Literal(s.to_string())
}

fn parsed(toks: &[ArgToken]) -> Vec<(String, Op, u64)> {
    parse_constraints(toks)
        .map_err(|e| e.message())
        .unwrap()
        .into_iter()
        .map(|c| (c.metric, c.op, c.threshold))
        .collect()
}

fn error(toks: &[ArgToken]) -> (ErrorKind, String) {
    let e = parse_constraints(toks).err().expect("an error");
    (e.kind, e.message())
}

#[test]
fn multi_constraints_cover_every_operator() {
    let toks = vec![
        ident("cyclomatic_complexity"), joint('<'), punct('='), lit("10"), punct(','),
        ident("cognitive_complexity"), joint('<'), punct('='), lit("15"), punct(','),
        ident("lifetime_arity"), joint('='), punct('='), lit("0"), punct(','),
        ident("generic_arity"), joint('!'), punct('='), lit("9999"), punct(','),
        ident("halstead_volume"), punct('<'), lit("1500"), punct(','),
        ident("x"), joint('>'), punct('='), lit("1"), punct(','),
        ident("y"), punct('>'), lit("2"), punct(','),
    ];
    let got = parsed(&toks);
    assert_eq!(
        got,
        vec![
            ("cyclomatic_complexity".to_string(), Op::Le, 10),
            ("cognitive_complexity".to_string(), Op::Le, 15),
            ("lifetime_arity".to_string(), Op::Eq, 0),
            ("generic_arity".to_string(), Op::Ne, 9999),
            ("halstead_volume".to_string(), Op::Lt, 1500),
            ("x".to_string(), Op::Ge, 1),
            ("y".to_string(), Op::Gt, 2),
        ]
    );
}

#[test]
fn equals_shorthand_means_at_most() {
    let toks = vec![ident("cyclomatic_complexity"), punct('='), lit("10")];
    assert_eq!(parsed(&toks), vec![("cyclomatic_complexity".to_string(), Op::Le, 10)]);
}

#[test]
fn empty_argument_list_is_empty() {
    assert!(parsed(&[]).is_empty());
}

#[test]
fn literals_are_read_through_syn() {
    let toks = vec![
        ident("a"), punct('<'), lit("1_000u64"), punct(','),
        ident("b"), punct('<'), lit("0x10"),
    ];
    assert_eq!(
        parsed(&toks),
        vec![("a".to_string(), Op::Lt, 1000), ("b".to_string(), Op::Lt, 16)]
    );
}

#[test]
fn bad_operator_is_reported() {
    let toks = vec![ident("cyclomatic_complexity"), joint('?'), punct('?'), lit("10")];
    assert_eq!(
        error(&toks),
        (ErrorKind::ExpectedOp, "expected one of `<`, `<=`, `==`, `>=`, `>`, `!=`".to_string())
    );
}

#[test]
fn missing_operator_at_the_end_is_reported_as_end_of_input() {
    let (kind, msg) = error(&[ident("cc")]);
    assert_eq!(kind, ErrorKind::ExpectedOp);
    assert!(msg.starts_with("unexpected end of input, expected one of"));
}

#[test]
fn keyword_is_not_a_metric_name() {
    let toks = vec![ident("fn"), punct('<'), lit("3")];
    assert_eq!(
        error(&toks),
        (ErrorKind::KeywordIdent, "expected identifier, found keyword `fn`".to_string())
    );
    assert_eq!(error(&[lit("3")]).0, ErrorKind::ExpectedIdent);
}

#[test]
fn separated_two_char_operator_is_not_an_operator() {
    // `< =` with the two characters apart: `<` is read, then `=` is no literal.
    let toks = vec![ident("cc"), punct('<'), punct('='), lit("3")];
    assert_eq!(error(&toks), (ErrorKind::ExpectedInt, "expected integer literal".to_string()));
}

#[test]
fn threshold_errors() {
    assert_eq!(
        error(&[ident("cc"), punct('<'), lit("1.5")]),
        (ErrorKind::ExpectedInt, "expected integer literal".to_string())
    );
    assert_eq!(
        error(&[ident("cc"), punct('<'), punct('-'), lit("5")]),
        (ErrorKind::InvalidDigit, "invalid digit found in string".to_string())
    );
    assert_eq!(
        error(&[ident("cc"), punct('<'), lit("18446744073709551616")]),
        (ErrorKind::PosOverflow, "number too large to fit in target type".to_string())
    );
    assert_eq!(
        error(&[ident("cc"), punct('<')]),
        (ErrorKind::ExpectedInt, "unexpected end of input, expected integer literal".to_string())
    );
}

#[test]
fn constraints_need_commas_between_them() {
    let toks = vec![ident("a"), punct('<'), lit("1"), ident("b"), punct('<'), lit("2")];
    assert_eq!(error(&toks), (ErrorKind::ExpectedComma, "expected `,`".to_string()));
    let doubled = vec![ident("a"), punct('<'), lit("1"), punct(','), punct(',')];
    assert_eq!(error(&doubled).0, ErrorKind::ExpectedIdent);
}

#[test]
fn parse_u64_follows_str_parse() {
    let p = |s: &str| parse_u64(&s.chars().collect::<Vec<char>>());
    assert_eq!(p("0"), Ok(0));
    assert_eq!(p("+42"), Ok(42));
    assert_eq!(p("18446744073709551615"), Ok(u64::MAX));
    assert_eq!(p(""), Err(ErrorKind::EmptyInt));
    assert_eq!(p("+"), Err(ErrorKind::InvalidDigit));
    assert_eq!(p("-1"), Err(ErrorKind::InvalidDigit));
    assert_eq!(p("99999999999999999999x"), Err(ErrorKind::PosOverflow));
    assert_eq!(p("12x99999999999999999999"), Err(ErrorKind::InvalidDigit));
    for s in ["0", "+7", "", "+", "-1", "18446744073709551616", "1 2"] {
        assert_eq!(p(s).ok(), s.parse::<u64>().ok());
    }
}
