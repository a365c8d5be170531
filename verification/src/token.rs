use vstd::prelude::*;

verus! {

/// The kind of a lexical token.
#[allow(non_camel_case_types)]
#[derive(Copy, Clone, PartialEq, Eq, Structural, Debug)]
pub enum TokenType {
    ILLEGAL,
    EOF,
    COMMENT,
    COMMA,
    SYMBOL,
    NUMBER,
    STRING,
    RPAREN,
    LPAREN,
    QUOTE,
}

/// One lexical token: its kind, literal text, and source position.
pub struct Token {
    pub ttype: TokenType,
    pub literal: String,
    pub line: u32,
    pub col: u32,
    pub file: String,
}

impl Token {
    /// Builds a token carrying literal text.
    pub fn with_literal(t: TokenType, lit: String, line: u32, col: u32, file: &str) -> (tok: Token)
        ensures
            tok.ttype == t,
            tok.literal@ == lit@,
            tok.line == line,
            tok.col == col,
            tok.file@ == file@,
    {
        Token { ttype: t, literal: lit, line, col, file: file.to_owned() }
    }

    /// Builds a token whose literal text is empty.
    pub fn simple(t: TokenType, line: u32, col: u32, file: &str) -> (tok: Token)
        ensures
            tok.ttype == t,
            tok.literal@ == Seq::<char>::empty(),
            tok.line == line,
            tok.col == col,
            tok.file@ == file@,
    {
        Token::with_literal(t, String::new(), line, col, file)
    }
}

} // verus!
