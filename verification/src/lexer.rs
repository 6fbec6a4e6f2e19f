//! The lexer: from raw bytes to tokens, one token at a time.
//!
//! `lex` says which token starts at a position of a text and where the next
//! one is to be looked for; `Lexer::make_token` computes it.

use vstd::prelude::*;
use vstd::slice::slice_subrange;
use vstd::slice::slice_to_vec;
use crate::error::LexError;
use crate::scan::byte_is_digit;
use crate::scan::byte_is_letter;
use crate::scan::decimal_value;
use crate::scan::is_digit;
use crate::scan::is_letter;
use crate::scan::lemma_run_end_bounds;
use crate::scan::lemma_run_end_maximal;
use crate::scan::read_decimal;
use crate::scan::run_end;
use crate::scan::scan_run;
use crate::scan::ByteClass;
use crate::scan::QUOTE;
use crate::token::Token;
use crate::token::TokenView;

verus! {

/// The byte `(`, which opens a call form.
pub const LEFT_PAREN: u8 = 0x28;

/// The byte `)`, which closes a call form.
pub const RIGHT_PAREN: u8 = 0x29;

/// The byte `[`, which opens an array literal.
pub const LEFT_SQUARE: u8 = 0x5b;

/// The byte `]`, which closes an array literal.
pub const RIGHT_SQUARE: u8 = 0x5d;

/// The byte `:`, the sigil of a macro call.
pub const COLON: u8 = 0x3a;

/// The byte `@`, the sigil of a name that stands for itself.
pub const AT_SIGN: u8 = 0x40;

/// Where the token after `pos` starts: the first byte that is not blank.
pub open spec fn token_start(text: Seq<u8>, pos: int) -> int {
    run_end(text, pos, ByteClass::Blank)
}

/// The token of `text` that follows position `pos`, and where the lexer
/// stands afterwards.
///
/// `Ok(None)` is the end of the input. After an error the lexer stands on the
/// first byte of what it could not read.
pub open spec fn lex(text: Seq<u8>, pos: int) -> (Result<Option<TokenView>, LexError>, int) {
    let start = token_start(text, pos);
    if !(0 <= start < text.len()) {
        (Ok(None), start)
    } else if text[start] == LEFT_PAREN {
        (Ok(Some(TokenView::LeftParen)), start + 1)
    } else if text[start] == RIGHT_PAREN {
        (Ok(Some(TokenView::RightParen)), start + 1)
    } else if text[start] == LEFT_SQUARE {
        (Ok(Some(TokenView::LeftSquare)), start + 1)
    } else if text[start] == RIGHT_SQUARE {
        (Ok(Some(TokenView::RightSquare)), start + 1)
    } else if text[start] == COLON {
        (Ok(Some(TokenView::Colon)), start + 1)
    } else if text[start] == AT_SIGN {
        (Ok(Some(TokenView::At)), start + 1)
    } else if text[start] == QUOTE {
        let close = run_end(text, start + 1, ByteClass::StringBody);
        if close < text.len() {
            (Ok(Some(TokenView::StringLit(text.subrange(start + 1, close)))), close + 1)
        } else {
            (Err(LexError::UnterminatedString), start)
        }
    } else if is_digit(text[start]) {
        let end = run_end(text, start, ByteClass::Digit);
        let value = decimal_value(text.subrange(start, end));
        if value <= i32::MAX {
            (Ok(Some(TokenView::Number(value as i32))), end)
        } else {
            (Err(LexError::NumberTooLarge), start)
        }
    } else if is_letter(text[start]) {
        let end = run_end(text, start, ByteClass::Alphanumeric);
        (Ok(Some(TokenView::Ident(text.subrange(start, end)))), end)
    } else {
        (Err(LexError::UnexpectedByte), start)
    }
}

/// What the result of `Lexer::make_token` stands for.
pub open spec fn token_result_view(r: Result<Option<Token>, LexError>) -> Result<
    Option<TokenView>,
    LexError,
> {
    match r {
        Ok(Some(token)) => Ok(Some(token@)),
        Ok(None) => Ok(None),
        Err(e) => Err(e),
    }
}

/// A token is never empty: the lexer moves forward whenever it returns one,
/// and it never leaves the text.
pub proof fn lemma_lex_advances(text: Seq<u8>, pos: int)
    ensures
        pos <= lex(text, pos).1,
        pos <= text.len() ==> lex(text, pos).1 <= text.len(),
        lex(text, pos).0 matches Ok(Some(_)) ==> 0 <= pos < lex(text, pos).1 <= text.len(),
{
    let start = token_start(text, pos);
    lemma_run_end_bounds(text, pos, ByteClass::Blank);
    if 0 <= start < text.len() {
        lemma_run_end_bounds(text, start + 1, ByteClass::StringBody);
        lemma_run_end_bounds(text, start + 1, ByteClass::Digit);
        lemma_run_end_bounds(text, start + 1, ByteClass::Alphanumeric);
    }
}

/// A cursor over a text that hands out its tokens one by one.
pub struct Lexer<'a> {
    text: &'a [u8],
    position: usize,
}

impl<'a> Clone for Lexer<'a> {
    /// A second lexer over the same text, at the same place.
    fn clone(&self) -> (copy: Self)
        ensures
            copy.input() == self.input(),
            copy.offset() == self.offset(),
    {
        proof {
            use_type_invariant(self);
        }
        Lexer { text: self.text, position: self.position }
    }
}

impl<'a> Lexer<'a> {
    #[verifier::type_invariant]
    spec fn within_text(self) -> bool {
        self.position <= self.text@.len()
    }

    /// The text that is being read.
    pub closed spec fn input(self) -> Seq<u8> {
        self.text@
    }

    /// Where in the text the lexer stands.
    pub closed spec fn offset(self) -> int {
        self.position as int
    }

    /// A lexer at the start of `text`.
    pub fn new(text: &'a [u8]) -> (lexer: Self)
        ensures
            lexer.input() == text@,
            lexer.offset() == 0,
    {
        Lexer { text, position: 0 }
    }

    /// Where in the text the lexer stands.
    pub fn position(&self) -> (position: usize)
        ensures
            position == self.offset(),
            position <= self.input().len(),
    {
        proof {
            use_type_invariant(self);
        }
        self.position
    }

    /// Reads the next token: `Ok(None)` at the end of the input.
    pub fn make_token(&mut self) -> (r: Result<Option<Token>, LexError>)
        ensures
            final(self).input() == old(self).input(),
            token_result_view(r) == lex(old(self).input(), old(self).offset()).0,
            final(self).offset() == lex(old(self).input(), old(self).offset()).1,
            old(self).offset() <= final(self).offset() <= old(self).input().len(),
            r matches Ok(Some(_)) ==> old(self).offset() < final(self).offset(),
    {
        proof {
            use_type_invariant(&*self);
            lemma_lex_advances(self.input(), self.offset());
        }
        let text = self.text;
        let start = scan_run(text, self.position, ByteClass::Blank);
        self.position = start;
        if start >= text.len() {
            return Ok(None);
        }
        let first = text[start];
        if first == LEFT_PAREN {
            self.position = start + 1;
            Ok(Some(Token::LeftParen))
        } else if first == RIGHT_PAREN {
            self.position = start + 1;
            Ok(Some(Token::RightParen))
        } else if first == LEFT_SQUARE {
            self.position = start + 1;
            Ok(Some(Token::LeftSquare))
        } else if first == RIGHT_SQUARE {
            self.position = start + 1;
            Ok(Some(Token::RightSquare))
        } else if first == COLON {
            self.position = start + 1;
            Ok(Some(Token::Colon))
        } else if first == AT_SIGN {
            self.position = start + 1;
            Ok(Some(Token::At))
        } else if first == QUOTE {
            let close = scan_run(text, start + 1, ByteClass::StringBody);
            if close < text.len() {
                let body = slice_to_vec(slice_subrange(text, start + 1, close));
                self.position = close + 1;
                Ok(Some(Token::StringLit(body)))
            } else {
                Err(LexError::UnterminatedString)
            }
        } else if byte_is_digit(first) {
            let end = scan_run(text, start, ByteClass::Digit);
            proof {
                lemma_run_end_maximal(text@, start as int, ByteClass::Digit);
            }
            match read_decimal(text, start, end) {
                Some(n) => {
                    self.position = end;
                    Ok(Some(Token::Number(n)))
                },
                None => Err(LexError::NumberTooLarge),
            }
        } else if byte_is_letter(first) {
            let end = scan_run(text, start, ByteClass::Alphanumeric);
            let name = slice_to_vec(slice_subrange(text, start, end));
            self.position = end;
            Ok(Some(Token::Ident(name)))
        } else {
            Err(LexError::UnexpectedByte)
        }
    }
}

} // verus!
