//! Token and error vocabulary of the OTL expression language.

use vstd::prelude::*;

verus! {

#[derive(Clone, Copy, Debug, PartialEq, Eq, Structural)]
pub enum BinOp {
    Add,
    Sub,
    Mul,
    Div,
}

#[derive(Clone, Copy, Debug, PartialEq, Eq, Structural)]
pub enum TokenKind {
    Number,
    Ident,
    Plus,
    Minus,
    Star,
    Slash,
    LParen,
    RParen,
    Comma,
    Eof,
}

impl TokenKind {
    pub open spec fn spec_describe(self) -> Seq<char> {
        match self {
            TokenKind::Number => "number"@,
            TokenKind::Ident => "identifier"@,
            TokenKind::Plus => "'+'"@,
            TokenKind::Minus => "'-'"@,
            TokenKind::Star => "'*'"@,
            TokenKind::Slash => "'/'"@,
            TokenKind::LParen => "'('"@,
            TokenKind::RParen => "')'"@,
            TokenKind::Comma => "','"@,
            TokenKind::Eof => "end of input"@,
        }
    }

    /// How the token kind is named in diagnostics.
    pub fn describe(self) -> (r: &'static str)
        ensures
            r@ == self.spec_describe(),
    {
        match self {
            TokenKind::Number => "number",
            TokenKind::Ident => "identifier",
            TokenKind::Plus => "'+'",
            TokenKind::Minus => "'-'",
            TokenKind::Star => "'*'",
            TokenKind::Slash => "'/'",
            TokenKind::LParen => "'('",
            TokenKind::RParen => "')'",
            TokenKind::Comma => "','",
            TokenKind::Eof => "end of input",
        }
    }
}

#[derive(Debug, PartialEq)]
pub enum CompileError {
    EmptyInput,
    UnexpectedToken { expected: &'static str, got: TokenKind },
    UnknownIdentifier(String),
    UnknownFunction(String),
    InvalidArgumentCount { name: String, expected: usize, got: usize },
    ExpectedLiteral { label: &'static str },
    InvalidPeriod,
    DivisionByZero,
    Evaluation(String),
}

/// OSL parameter type from a shader signature header.
#[derive(Clone, Copy, Debug, PartialEq, Eq, Structural)]
pub enum OslParamType {
    Float,
    Int,
    String,
}

} // verus!
