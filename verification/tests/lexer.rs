//! Tests of the lexer: numeric literals, string escapes, operators.

use rua::{Lexer, Token};

fn all_tokens(source: &str) -> Vec<Token> {
    let mut lexer = Lexer::new(source);
    let mut out = Vec::new();
    loop {
        let t = lexer.next().expect("lexing failed");
        let done = t == Token::Eof;
        out.push(t);
        if done {
            return out;
        }
    }
}

#[test]
fn integer_literal_lexes_to_its_value() {
    assert_eq!(all_tokens("42"), vec![Token::Integer(42), Token::Eof]);
    assert_eq!(all_tokens("  -7 "), vec![Token::Integer(-7), Token::Eof]);
    assert_eq!(
        all_tokens("9223372036854775807"),
        vec![Token::Integer(i64::MAX), Token::Eof]
    );
}

#[test]
fn float_lexing_takes_precedence_with_dot_or_exponent() {
    assert_eq!(
        all_tokens("42.5"),
        vec![Token::Float(b"42.5".to_vec()), Token::Eof]
    );
    assert_eq!(
        all_tokens(".5"),
        vec![Token::Float(b".5".to_vec()), Token::Eof]
    );
    assert_eq!(
        all_tokens("1e3"),
        vec![Token::Float(b"1e3".to_vec()), Token::Eof]
    );
    assert_eq!(
        all_tokens("2.5e-1"),
        vec![Token::Float(b"2.5e-1".to_vec()), Token::Eof]
    );
    // a trailing dot still makes a float, never the split `42` `.5`
    assert_eq!(
        all_tokens("42."),
        vec![Token::Float(b"42.".to_vec()), Token::Eof]
    );
}

#[test]
fn number_then_terminator_is_one_token() {
    assert_eq!(
        all_tokens("42)"),
        vec![Token::Integer(42), Token::ParR, Token::Eof]
    );
    assert_eq!(
        all_tokens("42.5)"),
        vec![Token::Float(b"42.5".to_vec()), Token::ParR, Token::Eof]
    );
}

#[test]
fn plain_string_decodes_to_verbatim_bytes() {
    assert_eq!(
        all_tokens("\"hello\""),
        vec![Token::String(b"hello".to_vec()), Token::Eof]
    );
}

#[test]
fn escape_n_decodes_to_one_newline_byte() {
    assert_eq!(
        all_tokens("\"a\\nb\""),
        vec![Token::String(b"a\nb".to_vec()), Token::Eof]
    );
}

#[test]
fn hex_escape_decodes_to_its_byte() {
    assert_eq!(
        all_tokens("\"\\x41\""),
        vec![Token::String(vec![0x41]), Token::Eof]
    );
}

#[test]
fn decimal_escape_decodes_to_its_byte() {
    assert_eq!(
        all_tokens("\"\\65\""),
        vec![Token::String(vec![65]), Token::Eof]
    );
    assert_eq!(
        all_tokens("\"\\255\""),
        vec![Token::String(vec![255]), Token::Eof]
    );
}

#[test]
fn escaped_whitespace_contributes_no_bytes() {
    assert_eq!(
        all_tokens("\"a\\   b\""),
        vec![Token::String(b"ab".to_vec()), Token::Eof]
    );
}

#[test]
fn out_of_range_decimal_escape_fails() {
    let mut lexer = Lexer::new("\"\\999\"");
    assert!(lexer.next().is_err());
}

#[test]
fn unterminated_string_fails() {
    let mut lexer = Lexer::new("\"abc");
    let err = lexer.next().unwrap_err();
    assert_eq!(err.pos, 0);
}

#[test]
fn unrecognized_character_reports_its_position() {
    let mut lexer = Lexer::new("  ?");
    let err = lexer.next().unwrap_err();
    assert_eq!(err.pos, 2);
}

#[test]
fn keywords_and_names_are_distinguished() {
    assert_eq!(
        all_tokens("local x while whilex"),
        vec![
            Token::Local,
            Token::Name(b"x".to_vec()),
            Token::While,
            Token::Name(b"whilex".to_vec()),
            Token::Eof
        ]
    );
}

#[test]
fn multi_character_operators_lex_greedily() {
    assert_eq!(
        all_tokens("<< >= == ~="),
        vec![
            Token::ShiftL,
            Token::GreEq,
            Token::Equal,
            Token::NotEq,
            Token::Eof
        ]
    );
    // `..` matches before `...` is considered, so three dots split as
    // a concat token and a dot
    assert_eq!(
        all_tokens("..."),
        vec![Token::Concat, Token::Dot, Token::Eof]
    );
}

#[test]
fn comment_token_consumes_through_newline() {
    assert_eq!(
        all_tokens("-- note\n1"),
        vec![Token::Comment, Token::Integer(1), Token::Eof]
    );
}
