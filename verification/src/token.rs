//! Tokens: the units the scanner hands to the compiler.

use vstd::prelude::*;
use crate::text::copy_bytes;

verus! {

/// The kind of a token.
#[derive(Clone, Copy, Debug, PartialEq, Eq, Hash, Structural)]
pub enum TokenKind {
    LParen,
    RParen,
    LBrace,
    RBrace,
    Comma,
    Dot,
    Minus,
    Plus,
    Semicolon,
    Slash,
    Star,
    Bang,
    BangEqual,
    Equal,
    EqualEqual,
    Greater,
    GreaterEqual,
    Less,
    LessEqual,
    Identifier,
    String,
    Number,
    And,
    Class,
    Else,
    False,
    For,
    Fun,
    If,
    Nil,
    Or,
    Print,
    Return,
    Super,
    This,
    True,
    Var,
    While,
    /// A lexical error; the token's lexeme is the message.
    Error,
    Eof,
}

/// A token: its kind, its text and the line on which it ends.
#[derive(Debug)]
pub struct Token {
    pub kind: TokenKind,
    /// The bytes of the source that make up the token; for an `Error` token,
    /// the diagnostic message.
    pub lexeme: Vec<u8>,
    pub line: usize,
}

/// The mathematical value of a [`Token`].
pub struct TokenView {
    pub kind: TokenKind,
    pub lexeme: Seq<u8>,
    pub line: nat,
}

impl View for Token {
    type V = TokenView;

    open spec fn view(&self) -> TokenView {
        TokenView { kind: self.kind, lexeme: self.lexeme@, line: self.line as nat }
    }
}

impl Token {
    pub fn new(kind: TokenKind, lexeme: Vec<u8>, line: usize) -> (token: Token)
        ensures
            token@ == (TokenView { kind, lexeme: lexeme@, line: line as nat }),
    {
        Token { kind, lexeme, line }
    }
}

impl Clone for Token {
    fn clone(&self) -> (token: Token)
        ensures
            token@ == self@,
    {
        Token { kind: self.kind, lexeme: copy_bytes(self.lexeme.as_slice()), line: self.line }
    }
}

} // verus!
