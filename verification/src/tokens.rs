//! The token vocabulary of the source language.
//!
//! Tokens are immutable once produced; their identity is purely structural.
//! `TokenView` is the mathematical image of a token, with identifier and
//! literal text abstracted to character sequences.

use vstd::prelude::*;

verus! {

/// One lexical token of the source language.
///
/// `Number` carries the integer value of a digit run, `Identifier` a plain
/// name, `FunctionCall` the name that followed the call sigil, and `StrLit`
/// the text between two quote characters, verbatim.
#[derive(Debug, PartialEq)]
pub enum Token {
    Number(i64),
    StrLit(String),
    Identifier(String),
    /// The function-definition keyword.
    Function,
    /// A sigil-prefixed name: a reference to the function of that name.
    FunctionCall(String),
    If,
    Then,
    Else,
    While,
    Do,
    End,
    Print,
    Send,
    Plus,
    Minus,
    Multiply,
    Divide,
    Assign,
    Eq,
    NotEq,
    Less,
    LessEq,
    Greater,
    LParen,
    RParen,
    Comma,
    Semicolon,
}

/// The mathematical image of a `Token`: text payloads become `Seq<char>`.
pub enum TokenView {
    Number(i64),
    StrLit(Seq<char>),
    Identifier(Seq<char>),
    Function,
    FunctionCall(Seq<char>),
    If,
    Then,
    Else,
    While,
    Do,
    End,
    Print,
    Send,
    Plus,
    Minus,
    Multiply,
    Divide,
    Assign,
    Eq,
    NotEq,
    Less,
    LessEq,
    Greater,
    LParen,
    RParen,
    Comma,
    Semicolon,
}

impl View for Token {
    type V = TokenView;

    open spec fn view(&self) -> TokenView {
        match self {
            Token::Number(n) => TokenView::Number(*n),
            Token::StrLit(s) => TokenView::StrLit(s@),
            Token::Identifier(s) => TokenView::Identifier(s@),
            Token::Function => TokenView::Function,
            Token::FunctionCall(s) => TokenView::FunctionCall(s@),
            Token::If => TokenView::If,
            Token::Then => TokenView::Then,
            Token::Else => TokenView::Else,
            Token::While => TokenView::While,
            Token::Do => TokenView::Do,
            Token::End => TokenView::End,
            Token::Print => TokenView::Print,
            Token::Send => TokenView::Send,
            Token::Plus => TokenView::Plus,
            Token::Minus => TokenView::Minus,
            Token::Multiply => TokenView::Multiply,
            Token::Divide => TokenView::Divide,
            Token::Assign => TokenView::Assign,
            Token::Eq => TokenView::Eq,
            Token::NotEq => TokenView::NotEq,
            Token::Less => TokenView::Less,
            Token::LessEq => TokenView::LessEq,
            Token::Greater => TokenView::Greater,
            Token::LParen => TokenView::LParen,
            Token::RParen => TokenView::RParen,
            Token::Comma => TokenView::Comma,
            Token::Semicolon => TokenView::Semicolon,
        }
    }
}

impl Clone for Token {
    /// A clone is equal to the original, string payloads included.
    fn clone(&self) -> (t: Token)
        ensures
            t == self,
    {
        match self {
            Token::Number(n) => Token::Number(*n),
            Token::StrLit(s) => Token::StrLit(s.clone()),
            Token::Identifier(s) => Token::Identifier(s.clone()),
            Token::Function => Token::Function,
            Token::FunctionCall(s) => Token::FunctionCall(s.clone()),
            Token::If => Token::If,
            Token::Then => Token::Then,
            Token::Else => Token::Else,
            Token::While => Token::While,
            Token::Do => Token::Do,
            Token::End => Token::End,
            Token::Print => Token::Print,
            Token::Send => Token::Send,
            Token::Plus => Token::Plus,
            Token::Minus => Token::Minus,
            Token::Multiply => Token::Multiply,
            Token::Divide => Token::Divide,
            Token::Assign => Token::Assign,
            Token::Eq => Token::Eq,
            Token::NotEq => Token::NotEq,
            Token::Less => Token::Less,
            Token::LessEq => Token::LessEq,
            Token::Greater => Token::Greater,
            Token::LParen => Token::LParen,
            Token::RParen => Token::RParen,
            Token::Comma => Token::Comma,
            Token::Semicolon => Token::Semicolon,
        }
    }
}

/// The views of a token sequence, in order.
pub open spec fn tokens_view(ts: Seq<Token>) -> Seq<TokenView> {
    ts.map_values(|t: Token| t@)
}

} // verus!
