//! The SQL front end: tokens, lexer, AST, parser and the query engine.

pub mod ast;
pub mod engine;
pub mod errors;
pub mod lexer;
pub mod parser;

use vstd::prelude::*;

verus! {

/// The keywords the lexer recognises, case-insensitively.
#[derive(Debug, Clone, Copy, PartialEq, Eq, Structural)]
pub enum SqlKeyword {
    Select,
    From,
    Insert,
    Into,
    Values,
    Where,
    And,
    Or,
}

/// The binary operators of the expression grammar.
#[derive(Debug, Clone, Copy, PartialEq, Eq, Structural)]
pub enum Operator {
    Equal,
    NotEqual,
    Greater,
    Smaller,
    And,
    Or,
}

/// A token of the SQL surface syntax.
#[derive(Debug)]
pub enum SqlToken {
    Keyword(SqlKeyword),
    Identifier(String),
    StringLiteral(String),
    NumberLiteral(String),
    Operator(Operator),
    Comma,
    Semicolon,
    LeftParen,
    RightParen,
    EOF,
}

/// The mathematical value of a token.
pub enum TokenV {
    Keyword(SqlKeyword),
    Identifier(Seq<char>),
    StringLiteral(Seq<char>),
    NumberLiteral(Seq<char>),
    Operator(Operator),
    Comma,
    Semicolon,
    LeftParen,
    RightParen,
    EOF,
}

impl View for SqlToken {
    type V = TokenV;

    open spec fn view(&self) -> TokenV {
        match self {
            SqlToken::Keyword(k) => TokenV::Keyword(*k),
            SqlToken::Identifier(s) => TokenV::Identifier(s@),
            SqlToken::StringLiteral(s) => TokenV::StringLiteral(s@),
            SqlToken::NumberLiteral(s) => TokenV::NumberLiteral(s@),
            SqlToken::Operator(o) => TokenV::Operator(*o),
            SqlToken::Comma => TokenV::Comma,
            SqlToken::Semicolon => TokenV::Semicolon,
            SqlToken::LeftParen => TokenV::LeftParen,
            SqlToken::RightParen => TokenV::RightParen,
            SqlToken::EOF => TokenV::EOF,
        }
    }
}

impl DeepView for SqlToken {
    type V = TokenV;

    open spec fn deep_view(&self) -> TokenV {
        self.view()
    }
}

impl Clone for SqlToken {
    fn clone(&self) -> (r: Self)
        ensures
            r@ == self@,
    {
        match self {
            SqlToken::Keyword(k) => SqlToken::Keyword(*k),
            SqlToken::Identifier(s) => SqlToken::Identifier(s.clone()),
            SqlToken::StringLiteral(s) => SqlToken::StringLiteral(s.clone()),
            SqlToken::NumberLiteral(s) => SqlToken::NumberLiteral(s.clone()),
            SqlToken::Operator(o) => SqlToken::Operator(*o),
            SqlToken::Comma => SqlToken::Comma,
            SqlToken::Semicolon => SqlToken::Semicolon,
            SqlToken::LeftParen => SqlToken::LeftParen,
            SqlToken::RightParen => SqlToken::RightParen,
            SqlToken::EOF => SqlToken::EOF,
        }
    }
}

impl PartialEq for SqlToken {
    fn eq(&self, other: &Self) -> (r: bool) {
        match (self, other) {
            (SqlToken::Keyword(a), SqlToken::Keyword(b)) => *a == *b,
            (SqlToken::Identifier(a), SqlToken::Identifier(b)) => *a == *b,
            (SqlToken::StringLiteral(a), SqlToken::StringLiteral(b)) => *a == *b,
            (SqlToken::NumberLiteral(a), SqlToken::NumberLiteral(b)) => *a == *b,
            (SqlToken::Operator(a), SqlToken::Operator(b)) => *a == *b,
            (SqlToken::Comma, SqlToken::Comma) => true,
            (SqlToken::Semicolon, SqlToken::Semicolon) => true,
            (SqlToken::LeftParen, SqlToken::LeftParen) => true,
            (SqlToken::RightParen, SqlToken::RightParen) => true,
            (SqlToken::EOF, SqlToken::EOF) => true,
            _ => false,
        }
    }
}

impl vstd::std_specs::cmp::PartialEqSpecImpl for SqlToken {
    open spec fn obeys_eq_spec() -> bool {
        true
    }

    open spec fn eq_spec(&self, other: &Self) -> bool {
        self@ == other@
    }
}

} // verus!
