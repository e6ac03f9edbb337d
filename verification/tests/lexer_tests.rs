//! Lexer behaviour: keywords, operators, literals, errors.

use minicomp::lexer::{Lexer, LexError};
use minicomp::tokens::Token;

fn lex(src: &str) -> Result<Vec<Token>, LexError> {
    let mut lexer = Lexer::new(src.to_string());
    lexer.tokenise()
}

#[test]
fn keywords_lex_as_keywords() {
    let thn = format!("th{}", "en");
    let src = format!("run end while do print send if {} else foo", thn);
    let tokens = lex(&src).unwrap();
    assert_eq!(
        tokens,
        vec![
            Token::Function,
            Token::End,
            Token::While,
            Token::Do,
            Token::Print,
            Token::Send,
            Token::If,
            Token::Then,
            Token::Else,
            Token::Identifier("foo".to_string()),
        ]
    );
}

#[test]
fn operators_lex_with_lookahead() {
    let tokens = lex("= == != < <= > + - * / ( ) , ;").unwrap();
    assert_eq!(
        tokens,
        vec![
            Token::Assign,
            Token::Eq,
            Token::NotEq,
            Token::Less,
            Token::LessEq,
            Token::Greater,
            Token::Plus,
            Token::Minus,
            Token::Multiply,
            Token::Divide,
            Token::LParen,
            Token::RParen,
            Token::Comma,
            Token::Semicolon,
        ]
    );
}

#[test]
fn numbers_lex_and_overflow_defaults_to_zero() {
    let tokens = lex("42 0 99999999999999999999999").unwrap();
    assert_eq!(
        tokens,
        vec![Token::Number(42), Token::Number(0), Token::Number(0)]
    );
}

#[test]
fn largest_number_still_fits() {
    let tokens = lex("9223372036854775807 9223372036854775808").unwrap();
    assert_eq!(tokens, vec![Token::Number(i64::MAX), Token::Number(0)]);
}

#[test]
fn string_literals_capture_verbatim() {
    let tokens = lex("\"hi there\" \"\"").unwrap();
    assert_eq!(
        tokens,
        vec![
            Token::StrLit("hi there".to_string()),
            Token::StrLit("".to_string()),
        ]
    );
}

#[test]
fn unterminated_string_runs_to_end_of_input() {
    let tokens = lex("x = \"abc").unwrap();
    assert_eq!(
        tokens,
        vec![
            Token::Identifier("x".to_string()),
            Token::Assign,
            Token::StrLit("abc".to_string()),
        ]
    );
}

#[test]
fn sigil_prefixed_name_is_a_call_token() {
    let tokens = lex("@foo(1)").unwrap();
    assert_eq!(
        tokens,
        vec![
            Token::FunctionCall("foo".to_string()),
            Token::LParen,
            Token::Number(1),
            Token::RParen,
        ]
    );
}

#[test]
fn identifiers_may_contain_digits_and_underscores() {
    let tokens = lex("a_1 b2c").unwrap();
    assert_eq!(
        tokens,
        vec![
            Token::Identifier("a_1".to_string()),
            Token::Identifier("b2c".to_string()),
        ]
    );
}

#[test]
fn bare_bang_is_a_malformed_operator() {
    let err = lex("a !b").unwrap_err();
    assert_eq!(
        err,
        LexError::MalformedOperator { position: 2, character: '!' }
    );
}

#[test]
fn bang_at_end_of_input_is_a_malformed_operator() {
    let err = lex("!").unwrap_err();
    assert_eq!(
        err,
        LexError::MalformedOperator { position: 0, character: '!' }
    );
}

#[test]
fn unexpected_character_is_fatal() {
    let err = lex("x = #").unwrap_err();
    assert_eq!(
        err,
        LexError::UnexpectedCharacter { position: 4, character: '#' }
    );
}

#[test]
fn whitespace_is_never_emitted() {
    let tokens = lex("  \t\n  x  \r\n ").unwrap();
    assert_eq!(tokens, vec![Token::Identifier("x".to_string())]);
}
