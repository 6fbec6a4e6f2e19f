//! Tokens, and their mathematical view.

use vstd::prelude::*;

verus! {

/// One lexical unit of the input.
#[derive(Debug, PartialEq, Eq)]
pub enum Token {
    LeftParen,
    RightParen,
    LeftSquare,
    RightSquare,
    /// The sigil that marks a macro call.
    Colon,
    /// The sigil that marks an identifier as a name rather than a lookup.
    At,
    /// The bytes between two double quotes.
    StringLit(Vec<u8>),
    Ident(Vec<u8>),
    Number(i32),
}

/// What a [`Token`] stands for.
pub enum TokenView {
    LeftParen,
    RightParen,
    LeftSquare,
    RightSquare,
    Colon,
    At,
    StringLit(Seq<u8>),
    Ident(Seq<u8>),
    Number(i32),
}

impl View for Token {
    type V = TokenView;

    open spec fn view(&self) -> TokenView {
        match self {
            Token::LeftParen => TokenView::LeftParen,
            Token::RightParen => TokenView::RightParen,
            Token::LeftSquare => TokenView::LeftSquare,
            Token::RightSquare => TokenView::RightSquare,
            Token::Colon => TokenView::Colon,
            Token::At => TokenView::At,
            Token::StringLit(s) => TokenView::StringLit(s@),
            Token::Ident(s) => TokenView::Ident(s@),
            Token::Number(n) => TokenView::Number(*n),
        }
    }
}

} // verus!
