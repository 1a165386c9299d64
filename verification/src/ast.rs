//! Tokens: the transient output of the lexer, consumed once by the parser.

use vstd::prelude::*;

verus! {

/// Mathematical model of one token.
pub enum TokenV {
    Int(int),
    Symbol(Seq<char>),
    RParen,
    LParen,
    True,
    False,
    Nil,
    Quote,
}

/// One lexed word of the source text.
#[derive(Debug, PartialEq)]
pub enum Token {
    /// A word that parses as a signed 32-bit decimal integer.
    Int(i32),
    /// Any other word: the lenient default classification.
    Symbol(String),
    RParen,
    LParen,
    /// The word `#t`.
    True,
    /// The word `#f`.
    False,
    /// The word `nil`.
    Nil,
    /// The word `'`; recognized but discarded by the parser.
    Quote,
}

impl View for Token {
    type V = TokenV;

    open spec fn view(&self) -> TokenV {
        match self {
            Token::Int(n) => TokenV::Int(*n as int),
            Token::Symbol(s) => TokenV::Symbol(s@),
            Token::RParen => TokenV::RParen,
            Token::LParen => TokenV::LParen,
            Token::True => TokenV::True,
            Token::False => TokenV::False,
            Token::Nil => TokenV::Nil,
            Token::Quote => TokenV::Quote,
        }
    }
}

/// The models of a sequence of tokens, in order.
pub open spec fn tokens_v(s: Seq<Token>) -> Seq<TokenV> {
    Seq::new(s.len(), |i: int| s[i]@)
}

} // verus!
