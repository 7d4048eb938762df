use bitseq::error::ParseErrorKind;
use bitseq::repetition::{expand_invocation, expand_range, parse_repetition};
use bitseq::token::{Delim, Token};

fn ident(s: &str) -> Token {
    Token::Ident(s.to_string())
}

fn lit(n: u64) -> Token {
    Token::Lit(n)
}

fn punct(c: char) -> Token {
    Token::Punct(c)
}

fn invocation(name: &str, start: u64, inclusive: bool, end: u64, body: Vec<Token>) -> Vec<Token> {
    let mut toks = vec![ident(name), ident("in"), lit(start), punct('.'), punct('.')];
    if inclusive {
        toks.push(punct('='));
    }
    toks.push(lit(end));
    toks.push(Token::Group(Delim::Brace, body));
    toks
}

#[test]
fn exclusive_range_expands_three_times() {
    let toks = invocation("N", 0, false, 3, vec![ident("f"), punct('#'), ident("N")]);
    let out = expand_invocation(&toks).unwrap();
    assert_eq!(out, vec![ident("f0"), ident("f1"), ident("f2")]);
}

#[test]
fn inclusive_range_expands_four_times() {
    let toks = invocation("N", 0, true, 3, vec![ident("f"), punct('#'), ident("N")]);
    let out = expand_invocation(&toks).unwrap();
    assert_eq!(out, vec![ident("f0"), ident("f1"), ident("f2"), ident("f3")]);
}

#[test]
fn repeat_block_alone_is_replayed() {
    // a #(x#N)* b over 0..2: only the marked block repeats.
    let body = vec![
        ident("a"),
        punct('#'),
        Token::Group(Delim::Paren, vec![ident("x"), punct('#'), ident("N")]),
        punct('*'),
        ident("b"),
    ];
    let toks = invocation("N", 0, false, 2, body);
    let out = expand_invocation(&toks).unwrap();
    assert_eq!(out, vec![ident("a"), ident("x0"), ident("x1"), ident("b")]);
}

#[test]
fn body_without_marker_is_replayed_whole() {
    let toks = invocation("N", 0, false, 2, vec![ident("c"), punct('#'), ident("N")]);
    let out = expand_invocation(&toks).unwrap();
    assert_eq!(out, vec![ident("c0"), ident("c1")]);
}

#[test]
fn empty_range_yields_empty_output() {
    let toks = invocation("N", 5, false, 5, vec![ident("f"), punct('#'), ident("N")]);
    let out = expand_invocation(&toks).unwrap();
    assert_eq!(out, Vec::<Token>::new());
}

#[test]
fn reversed_range_yields_empty_output() {
    let toks = invocation("N", 7, false, 3, vec![ident("f")]);
    let out = expand_invocation(&toks).unwrap();
    assert_eq!(out, Vec::<Token>::new());
}

#[test]
fn fusion_uses_all_decimal_digits() {
    let toks = invocation("N", 10, false, 11, vec![ident("f"), punct('#'), ident("N")]);
    let out = expand_invocation(&toks).unwrap();
    assert_eq!(out, vec![ident("f10")]);
}

#[test]
fn bare_name_becomes_index_literal() {
    let toks = invocation("N", 5, false, 6, vec![ident("N")]);
    let out = expand_invocation(&toks).unwrap();
    assert_eq!(out, vec![lit(5)]);
}

#[test]
fn substitution_reaches_into_groups() {
    let body = vec![Token::Group(Delim::Paren, vec![ident("N")])];
    let toks = invocation("N", 0, false, 2, body);
    let out = expand_invocation(&toks).unwrap();
    assert_eq!(
        out,
        vec![
            Token::Group(Delim::Paren, vec![lit(0)]),
            Token::Group(Delim::Paren, vec![lit(1)]),
        ]
    );
}

#[test]
fn name_hash_name_does_not_fuse() {
    // The bound name itself is substituted, never fused.
    let toks = invocation("N", 3, false, 4, vec![ident("N"), punct('#'), ident("N")]);
    let out = expand_invocation(&toks).unwrap();
    assert_eq!(out, vec![lit(3), punct('#'), lit(3)]);
}

#[test]
fn marker_inside_brace_group_counts() {
    // The marker is found inside a nested group, so only it repeats.
    let body = vec![Token::Group(
        Delim::Brace,
        vec![
            punct('#'),
            Token::Group(Delim::Paren, vec![ident("y"), punct('#'), ident("N")]),
            punct('*'),
        ],
    )];
    let toks = invocation("N", 0, false, 2, body);
    let out = expand_invocation(&toks).unwrap();
    assert_eq!(
        out,
        vec![Token::Group(Delim::Brace, vec![ident("y0"), ident("y1")])]
    );
}

#[test]
fn empty_invocation_wants_a_name() {
    let err = expand_invocation(&vec![]).unwrap_err();
    assert_eq!(err.kind, ParseErrorKind::ExpectedName);
    assert_eq!(err.at, 0);
}

#[test]
fn literal_head_is_not_a_name() {
    let err = expand_invocation(&vec![lit(3)]).unwrap_err();
    assert_eq!(err.kind, ParseErrorKind::ExpectedName);
    assert_eq!(err.at, 0);
}

#[test]
fn missing_body_is_reported() {
    let toks = vec![ident("N"), ident("in"), lit(0), punct('.'), punct('.'), lit(3)];
    let err = expand_invocation(&toks).unwrap_err();
    assert_eq!(err.kind, ParseErrorKind::ExpectedBody);
    assert_eq!(err.at, 6);
}

#[test]
fn missing_in_is_reported_at_position_one() {
    let toks = vec![ident("N"), lit(0), punct('.'), punct('.'), lit(3)];
    let err = expand_invocation(&toks).unwrap_err();
    assert_eq!(err.kind, ParseErrorKind::ExpectedIn);
    assert_eq!(err.at, 1);
}

#[test]
fn missing_range_operator_is_reported() {
    let toks = vec![
        ident("N"),
        ident("in"),
        lit(0),
        lit(3),
        Token::Group(Delim::Brace, vec![]),
    ];
    let err = expand_invocation(&toks).unwrap_err();
    assert_eq!(err.kind, ParseErrorKind::ExpectedRangeOp);
    assert_eq!(err.at, 3);
}

#[test]
fn non_integer_bound_is_reported() {
    let toks = vec![ident("N"), ident("in"), ident("x")];
    let err = expand_invocation(&toks).unwrap_err();
    assert_eq!(err.kind, ParseErrorKind::ExpectedBound);
    assert_eq!(err.at, 2);
}

#[test]
fn trailing_tokens_are_reported() {
    let mut toks = invocation("N", 0, false, 2, vec![ident("f")]);
    toks.push(ident("junk"));
    let err = expand_invocation(&toks).unwrap_err();
    assert_eq!(err.kind, ParseErrorKind::TrailingTokens);
    assert_eq!(err.at, 7);
    assert_eq!(err.message(), "unexpected tokens after the body");
}

#[test]
fn inclusive_max_bound_overflows() {
    let toks = invocation("N", 0, true, u64::MAX, vec![ident("f")]);
    let err = expand_invocation(&toks).unwrap_err();
    assert_eq!(err.kind, ParseErrorKind::BoundOverflow);
    assert_eq!(err.at, 6);
}

#[test]
fn parse_normalizes_inclusive_bound() {
    let toks = invocation("N", 1, true, 4, vec![ident("f")]);
    let req = parse_repetition(&toks).unwrap();
    assert_eq!(req.name, "N".to_string());
    assert_eq!(req.start, 1);
    assert_eq!(req.end, 5);
    assert_eq!(req.body_delim, Delim::Brace);
    assert_eq!(req.body, vec![ident("f")]);
}

#[test]
fn expand_range_concatenates_passes() {
    let body = vec![ident("w"), punct('#'), ident("K")];
    let out = expand_range(&body, &"K".to_string(), 2, 4);
    assert_eq!(out, vec![ident("w2"), ident("w3")]);
}

#[test]
fn reserved_word_cannot_be_the_name() {
    let toks = invocation("in", 0, false, 2, vec![ident("f")]);
    let err = expand_invocation(&toks).unwrap_err();
    assert_eq!(err.kind, ParseErrorKind::ExpectedName);
    assert_eq!(err.at, 0);
}

#[test]
fn any_delimiter_may_enclose_the_body() {
    for delim in [Delim::Paren, Delim::Brace, Delim::Bracket] {
        let toks = vec![
            ident("N"),
            ident("in"),
            lit(0),
            punct('.'),
            punct('.'),
            lit(2),
            Token::Group(delim, vec![ident("q"), punct('#'), ident("N")]),
        ];
        let out = expand_invocation(&toks).unwrap();
        assert_eq!(out, vec![ident("q0"), ident("q1")]);
    }
}
