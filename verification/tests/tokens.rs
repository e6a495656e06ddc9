use lqdc::error::Span;
use lqdc::lower::{le_bytes, parse_i64};
use lqdc::token::{filter_structural, tokenize, Tok, Token};
use lqdc::type_::{Type, Types};

fn chars(s: &str) -> Vec<char> {
    s.chars().collect()
}

#[test]
fn test_parse_i64() {
    let input = chars("5476332");
    let sp = Span { start: 0, end: 7 };
    assert_eq!(parse_i64(&input, sp), Some(5476332));
}

#[test]
fn parse_i64_rejects_fraction() {
    let input = chars("3.5");
    assert_eq!(parse_i64(&input, Span { start: 0, end: 3 }), None);
}

#[test]
fn parse_i64_rejects_overflow() {
    let input = chars("9223372036854775808");
    assert_eq!(parse_i64(&input, Span { start: 0, end: 19 }), None);
    let input = chars("9223372036854775807");
    assert_eq!(parse_i64(&input, Span { start: 0, end: 19 }), Some(i64::MAX));
}

#[test]
fn le_bytes_matches_std_encoding() {
    for v in [0i64, 1, 5476332, 158910, i64::MAX] {
        assert_eq!(le_bytes(v), v.to_le_bytes().to_vec());
    }
}

#[test]
fn tokens_cover_input_and_end_with_eof() {
    let input = chars("fn main -> void { 1 + 2; }");
    let toks = tokenize(&input).unwrap();
    assert_eq!(toks[0].span.start, 0);
    for w in toks.windows(2) {
        assert_eq!(w[0].span.end, w[1].span.start);
    }
    let last: &Tok = toks.last().unwrap();
    assert_eq!(last.token, Token::EOF);
    assert_eq!(last.span.start, input.len());
}

#[test]
fn keywords_resolve_after_identifier_match() {
    let input = chars("let letx if iffy true");
    let toks = tokenize(&input).unwrap();
    let st = filter_structural(&toks);
    let kinds: Vec<Token> = st.iter().map(|t| t.token).collect();
    assert_eq!(kinds, vec![Token::Let, Token::Id, Token::If, Token::Id, Token::True, Token::EOF]);
}

#[test]
fn comments_and_whitespace_are_not_structural() {
    let input = chars("1 // rest of the line\n2");
    let toks = tokenize(&input).unwrap();
    let st = filter_structural(&toks);
    let kinds: Vec<Token> = st.iter().map(|t| t.token).collect();
    assert_eq!(kinds, vec![Token::Number, Token::Number, Token::EOF]);
}

#[test]
fn two_char_operators_take_longest_match() {
    let input = chars("<= >= == -> < > =");
    let st = filter_structural(&tokenize(&input).unwrap());
    let kinds: Vec<Token> = st.iter().map(|t| t.token).collect();
    assert_eq!(kinds, vec![Token::LTE, Token::GTE, Token::EQ, Token::TypeArrow, Token::LT,
        Token::GT, Token::Assign, Token::EOF]);
}

#[test]
fn unknown_byte_is_a_lex_error() {
    let input = chars("fn @");
    let e = tokenize(&input).unwrap_err();
    assert_eq!(e, lqdc::error::Error::ParseError(Span { start: 3, end: 4 }));
}

#[test]
fn wide_numeric_literals_lex_as_one_token() {
    let input = chars("1.25e10");
    let st = filter_structural(&tokenize(&input).unwrap());
    assert_eq!(st.len(), 2);
    assert_eq!(st[0].token, Token::Number);
    assert_eq!(st[0].span, Span { start: 0, end: 7 });
}

#[test]
fn type_names_resolve() {
    let types = Types::new();
    let input = chars("int bool void uint nope");
    assert_eq!(types.get(&input, Span { start: 0, end: 3 }), Some(Type::Int));
    assert_eq!(types.get(&input, Span { start: 4, end: 8 }), Some(Type::Bool));
    assert_eq!(types.get(&input, Span { start: 9, end: 13 }), Some(Type::Void));
    assert_eq!(types.get(&input, Span { start: 14, end: 18 }), Some(Type::Uint));
    assert_eq!(types.get(&input, Span { start: 19, end: 23 }), None);
}

#[test]
fn coercion_narrows_only_inferable_numbers() {
    let at = Span { start: 0, end: 0 };
    assert_eq!(Type::Int.coerce(Type::Int, at), Ok(Type::Int));
    assert!(Type::Int.coerce(Type::Bool, at).is_err());
    assert_eq!(Type::Number.coerce(Type::Int, at), Ok(Type::Int));
    assert_eq!(Type::Number.coerce(Type::Uint, at), Ok(Type::Uint));
    assert_eq!(Type::Number.coerce(Type::Number, at), Ok(Type::Number));
    assert!(Type::Number.coerce(Type::Bool, at).is_err());
    assert!(Type::Number.coerce(Type::Void, at).is_err());
}
