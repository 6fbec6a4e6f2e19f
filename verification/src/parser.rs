//! The parser: recursive descent over the tokens, with one token of lookahead.
//!
//! The grammar, with `name`, `string` and `number` for the tokens that carry
//! data:
//!
//! ```text
//! unit     = form, with no ")" behind it
//! form     = "(" call
//! call     = [ ":" ] name { argument } ")"
//! argument = "(" call | "[" { item } "]" | item | "@" name
//! item     = string | name | number
//! ```
//!
//! `parse_unit` and its companions say what this grammar makes of a text;
//! the methods of `Parser` compute it.

use vstd::prelude::*;
use crate::ast::exprs_view;
use crate::ast::Expr;
use crate::ast::ExprView;
use crate::error::LexError;
use crate::error::ParseError;
use crate::lexer::lemma_lex_advances;
use crate::lexer::lex;
use crate::lexer::Lexer;
use crate::token::Token;
use crate::token::TokenView;

verus! {

/// The callee of a call form that starts at `pos`, just behind its opening
/// parenthesis: the name, and whether the macro sigil stood before it.
pub open spec fn parse_callee(text: Seq<u8>, pos: int) -> (
    Result<(Seq<u8>, bool), ParseError>,
    int,
) {
    let (first, after_first) = lex(text, pos);
    match first {
        Err(e) => (Err(ParseError::Lex(e)), after_first),
        Ok(None) => (Err(ParseError::UnexpectedEnd), after_first),
        Ok(Some(TokenView::Ident(name))) => (Ok((name, false)), after_first),
        Ok(Some(TokenView::Colon)) => {
            let (second, after_second) = lex(text, after_first);
            match second {
                Err(e) => (Err(ParseError::Lex(e)), after_second),
                Ok(None) => (Err(ParseError::UnexpectedEnd), after_second),
                Ok(Some(TokenView::Ident(name))) => (Ok((name, true)), after_second),
                Ok(Some(_)) => (Err(ParseError::UnexpectedToken), after_second),
            }
        },
        Ok(Some(_)) => (Err(ParseError::UnexpectedToken), after_first),
    }
}

/// The identifier that must follow a bind sigil at `pos`.
pub open spec fn parse_bound_name(text: Seq<u8>, pos: int) -> (Result<ExprView, ParseError>, int) {
    let (token, after) = lex(text, pos);
    match token {
        Err(e) => (Err(ParseError::Lex(e)), after),
        Ok(None) => (Err(ParseError::UnexpectedEnd), after),
        Ok(Some(TokenView::Ident(name))) => (
            Ok(ExprView::Ident { name, is_bind_marker: true }),
            after,
        ),
        Ok(Some(_)) => (Err(ParseError::UnexpectedToken), after),
    }
}

/// The items of an array literal from `pos` up to its closing bracket,
/// appended to those already read.
pub open spec fn parse_items(text: Seq<u8>, pos: int, read: Seq<ExprView>) -> (
    Result<Seq<ExprView>, ParseError>,
    int,
)
    decreases text.len() - pos,
{
    let (token, after) = lex(text, pos);
    match token {
        Err(e) => (Err(ParseError::Lex(e)), after),
        Ok(None) => (Err(ParseError::UnexpectedEnd), after),
        Ok(Some(token)) => {
            proof {
                lemma_lex_advances(text, pos);
            }
            match token {
                TokenView::RightSquare => (Ok(read), after),
                TokenView::StringLit(s) => parse_items(
                    text,
                    after,
                    read.push(ExprView::StringLit(s)),
                ),
                TokenView::Ident(name) => parse_items(
                    text,
                    after,
                    read.push(ExprView::Ident { name, is_bind_marker: false }),
                ),
                TokenView::Number(n) => parse_items(text, after, read.push(ExprView::Number(n))),
                _ => (Err(ParseError::UnexpectedToken), after),
            }
        },
    }
}

/// An array literal is never empty: the parser moves forward when it has
/// read one, and it never leaves the text.
pub proof fn lemma_parse_items_advances(text: Seq<u8>, pos: int, read: Seq<ExprView>)
    ensures
        pos <= parse_items(text, pos, read).1,
        pos <= text.len() ==> parse_items(text, pos, read).1 <= text.len(),
        parse_items(text, pos, read).0 is Ok ==> 0 <= pos < parse_items(text, pos, read).1
            <= text.len(),
    decreases text.len() - pos,
{
    lemma_lex_advances(text, pos);
    let (token, after) = lex(text, pos);
    match token {
        Ok(Some(TokenView::StringLit(s))) => lemma_parse_items_advances(
            text,
            after,
            read.push(ExprView::StringLit(s)),
        ),
        Ok(Some(TokenView::Ident(name))) => lemma_parse_items_advances(
            text,
            after,
            read.push(ExprView::Ident { name, is_bind_marker: false }),
        ),
        Ok(Some(TokenView::Number(n))) => lemma_parse_items_advances(
            text,
            after,
            read.push(ExprView::Number(n)),
        ),
        _ => {},
    }
}

/// A callee is never empty: the parser moves forward when it has read one.
pub proof fn lemma_parse_callee_advances(text: Seq<u8>, pos: int)
    ensures
        pos <= parse_callee(text, pos).1,
        pos <= text.len() ==> parse_callee(text, pos).1 <= text.len(),
        parse_callee(text, pos).0 is Ok ==> 0 <= pos < parse_callee(text, pos).1 <= text.len(),
{
    lemma_lex_advances(text, pos);
    lemma_lex_advances(text, lex(text, pos).1);
}

/// The call form whose callee starts at `pos`, and where the parser stands
/// behind its closing parenthesis.
pub open spec fn parse_call(text: Seq<u8>, pos: int) -> (Result<ExprView, ParseError>, int)
    decreases text.len() - pos, 1int,
{
    let (callee, after_callee) = parse_callee(text, pos);
    match callee {
        Err(e) => (Err(e), after_callee),
        Ok((func_name, is_macro)) => {
            proof {
                lemma_parse_callee_advances(text, pos);
            }
            let (arguments, end) = parse_arguments(text, after_callee, Seq::empty());
            match arguments {
                Err(e) => (Err(e), end),
                Ok(arguments) => (Ok(ExprView::Call { func_name, arguments, is_macro }), end),
            }
        },
    }
}

/// The arguments of a call form from `pos` up to its closing parenthesis,
/// appended to those already read.
///
/// Behind a nested call the parser goes on where that call ended. A call is
/// never empty (`lemma_parse_call_advances`), so the test that it ended
/// further on always holds; it is here to make the recursion well-founded.
pub open spec fn parse_arguments(text: Seq<u8>, pos: int, read: Seq<ExprView>) -> (
    Result<Seq<ExprView>, ParseError>,
    int,
)
    decreases text.len() - pos, 0int,
{
    let (token, after) = lex(text, pos);
    match token {
        Err(e) => (Err(ParseError::Lex(e)), after),
        Ok(None) => (Err(ParseError::UnexpectedEnd), after),
        Ok(Some(token)) => {
            proof {
                lemma_lex_advances(text, pos);
            }
            match token {
                TokenView::RightParen => (Ok(read), after),
                TokenView::LeftParen => {
                    let (call, end) = parse_call(text, after);
                    match call {
                        Ok(call) if after < end <= text.len() => parse_arguments(
                            text,
                            end,
                            read.push(call),
                        ),
                        Ok(_) => (Err(ParseError::UnexpectedEnd), end),
                        Err(e) => (Err(e), end),
                    }
                },
                TokenView::LeftSquare => {
                    proof {
                        lemma_parse_items_advances(text, after, Seq::empty());
                    }
                    let (items, end) = parse_items(text, after, Seq::empty());
                    match items {
                        Ok(items) => parse_arguments(text, end, read.push(ExprView::Array(items))),
                        Err(e) => (Err(e), end),
                    }
                },
                TokenView::At => {
                    proof {
                        lemma_lex_advances(text, after);
                    }
                    let (name, end) = parse_bound_name(text, after);
                    match name {
                        Ok(name) => parse_arguments(text, end, read.push(name)),
                        Err(e) => (Err(e), end),
                    }
                },
                TokenView::StringLit(s) => parse_arguments(
                    text,
                    after,
                    read.push(ExprView::StringLit(s)),
                ),
                TokenView::Ident(name) => parse_arguments(
                    text,
                    after,
                    read.push(ExprView::Ident { name, is_bind_marker: false }),
                ),
                TokenView::Number(n) => parse_arguments(
                    text,
                    after,
                    read.push(ExprView::Number(n)),
                ),
                TokenView::Colon => (Err(ParseError::UnexpectedToken), after),
                TokenView::RightSquare => (Err(ParseError::UnexpectedToken), after),
            }
        },
    }
}

/// A call is never empty: the parser moves forward when it has read one, and
/// it never leaves the text.
pub proof fn lemma_parse_call_advances(text: Seq<u8>, pos: int)
    ensures
        pos <= parse_call(text, pos).1,
        pos <= text.len() ==> parse_call(text, pos).1 <= text.len(),
        parse_call(text, pos).0 is Ok ==> 0 <= pos < parse_call(text, pos).1 <= text.len(),
    decreases text.len() - pos, 1int,
{
    lemma_parse_callee_advances(text, pos);
    let (callee, after_callee) = parse_callee(text, pos);
    if callee is Ok {
        lemma_parse_arguments_advances(text, after_callee, Seq::empty());
    }
}

/// The same of an argument list.
pub proof fn lemma_parse_arguments_advances(text: Seq<u8>, pos: int, read: Seq<ExprView>)
    ensures
        pos <= parse_arguments(text, pos, read).1,
        pos <= text.len() ==> parse_arguments(text, pos, read).1 <= text.len(),
        parse_arguments(text, pos, read).0 is Ok ==> 0 <= pos < parse_arguments(
            text,
            pos,
            read,
        ).1 <= text.len(),
    decreases text.len() - pos, 0int,
{
    lemma_lex_advances(text, pos);
    let (token, after) = lex(text, pos);
    match token {
        Ok(Some(TokenView::LeftParen)) => {
            lemma_parse_call_advances(text, after);
            let (call, end) = parse_call(text, after);
            if let Ok(call) = call {
                lemma_parse_arguments_advances(text, end, read.push(call));
            }
        },
        Ok(Some(TokenView::LeftSquare)) => {
            lemma_parse_items_advances(text, after, Seq::empty());
            let (items, end) = parse_items(text, after, Seq::empty());
            if let Ok(items) = items {
                lemma_parse_arguments_advances(text, end, read.push(ExprView::Array(items)));
            }
        },
        Ok(Some(TokenView::At)) => {
            lemma_lex_advances(text, after);
            let (name, end) = parse_bound_name(text, after);
            if let Ok(name) = name {
                lemma_parse_arguments_advances(text, end, read.push(name));
            }
        },
        Ok(Some(TokenView::StringLit(s))) => lemma_parse_arguments_advances(
            text,
            after,
            read.push(ExprView::StringLit(s)),
        ),
        Ok(Some(TokenView::Ident(name))) => lemma_parse_arguments_advances(
            text,
            after,
            read.push(ExprView::Ident { name, is_bind_marker: false }),
        ),
        Ok(Some(TokenView::Number(n))) => lemma_parse_arguments_advances(
            text,
            after,
            read.push(ExprView::Number(n)),
        ),
        _ => {},
    }
}

/// The form that starts at `pos`: an opening parenthesis, then a call.
pub open spec fn parse_form(text: Seq<u8>, pos: int) -> (Result<ExprView, ParseError>, int) {
    let (token, after) = lex(text, pos);
    match token {
        Err(e) => (Err(ParseError::Lex(e)), after),
        Ok(None) => (Err(ParseError::UnexpectedEnd), after),
        Ok(Some(TokenView::LeftParen)) => parse_call(text, after),
        Ok(Some(_)) => (Err(ParseError::UnexpectedToken), after),
    }
}

/// The unit of input that starts at `pos`: one form, behind which no
/// closing parenthesis may stand, for there is nothing left that it could
/// close. The parser looks one token ahead for it: it reads a closing
/// parenthesis that it finds there, and leaves every other token unread.
pub open spec fn parse_unit(text: Seq<u8>, pos: int) -> (Result<ExprView, ParseError>, int) {
    let (form, end) = parse_form(text, pos);
    match form {
        Err(e) => (Err(e), end),
        Ok(expr) => {
            let (ahead, after) = lex(text, end);
            if ahead == Ok::<Option<TokenView>, LexError>(Some(TokenView::RightParen)) {
                (Err(ParseError::UnexpectedToken), after)
            } else {
                (Ok(expr), end)
            }
        },
    }
}

/// What the result of a parsing method stands for.
pub open spec fn expr_result_view(r: Result<Expr, ParseError>) -> Result<ExprView, ParseError> {
    match r {
        Ok(expr) => Ok(expr@),
        Err(e) => Err(e),
    }
}

/// The view of a sequence of expressions grows with the sequence.
pub proof fn lemma_exprs_view_push(exprs: Seq<Expr>, expr: Expr)
    ensures
        exprs_view(exprs.push(expr)) == exprs_view(exprs).push(expr@),
{
}

/// A parser over one text.
pub struct Parser<'a> {
    tokens: Lexer<'a>,
}

impl<'a> Parser<'a> {
    /// The text that is being parsed.
    pub closed spec fn input(self) -> Seq<u8> {
        self.tokens.input()
    }

    /// Where in the text the parser stands.
    pub closed spec fn offset(self) -> int {
        self.tokens.offset()
    }

    /// A parser at the start of `text`.
    pub fn new(text: &'a [u8]) -> (parser: Self)
        ensures
            parser.input() == text@,
            parser.offset() == 0,
    {
        Parser { tokens: Lexer::new(text) }
    }

    /// Where in the text the parser stands.
    pub fn position(&self) -> (position: usize)
        ensures
            position == self.offset(),
            position <= self.input().len(),
    {
        self.tokens.position()
    }

    /// Parses the unit of input that starts where the parser stands: an
    /// opening parenthesis and the call behind it. A closing parenthesis
    /// behind the form closes nothing, and is refused; whatever else follows
    /// the form is left unread, for the next call.
    pub fn parse(&mut self) -> (r: Result<Expr, ParseError>)
        ensures
            final(self).input() == old(self).input(),
            expr_result_view(r) == parse_unit(old(self).input(), old(self).offset()).0,
            final(self).offset() == parse_unit(old(self).input(), old(self).offset()).1,
    {
        let form = match self.tokens.make_token() {
            Err(e) => Err(ParseError::Lex(e)),
            Ok(None) => Err(ParseError::UnexpectedEnd),
            Ok(Some(Token::LeftParen)) => self.parse_sexpr(),
            Ok(Some(_)) => Err(ParseError::UnexpectedToken),
        };
        match form {
            Err(e) => Err(e),
            Ok(expr) => {
                let mut ahead = self.tokens.clone();
                match ahead.make_token() {
                    Ok(Some(Token::RightParen)) => {
                        self.tokens = ahead;
                        Err(ParseError::UnexpectedToken)
                    },
                    _ => Ok(expr),
                }
            },
        }
    }

    /// Reads the callee of a call form.
    fn parse_callee(&mut self) -> (r: Result<(Vec<u8>, bool), ParseError>)
        ensures
            final(self).input() == old(self).input(),
            final(self).offset() == parse_callee(old(self).input(), old(self).offset()).1,
            match parse_callee(old(self).input(), old(self).offset()).0 {
                Ok((name, is_macro)) => r matches Ok(callee) && callee.0@ == name && callee.1
                    == is_macro,
                Err(e) => r == Err::<(Vec<u8>, bool), ParseError>(e),
            },
    {
        match self.tokens.make_token() {
            Err(e) => Err(ParseError::Lex(e)),
            Ok(None) => Err(ParseError::UnexpectedEnd),
            Ok(Some(Token::Ident(name))) => Ok((name, false)),
            Ok(Some(Token::Colon)) => match self.tokens.make_token() {
                Err(e) => Err(ParseError::Lex(e)),
                Ok(None) => Err(ParseError::UnexpectedEnd),
                Ok(Some(Token::Ident(name))) => Ok((name, true)),
                Ok(Some(_)) => Err(ParseError::UnexpectedToken),
            },
            Ok(Some(_)) => Err(ParseError::UnexpectedToken),
        }
    }

    /// Reads the identifier behind a bind sigil.
    fn parse_bound_name(&mut self) -> (r: Result<Expr, ParseError>)
        ensures
            final(self).input() == old(self).input(),
            expr_result_view(r) == parse_bound_name(old(self).input(), old(self).offset()).0,
            final(self).offset() == parse_bound_name(old(self).input(), old(self).offset()).1,
    {
        match self.tokens.make_token() {
            Err(e) => Err(ParseError::Lex(e)),
            Ok(None) => Err(ParseError::UnexpectedEnd),
            Ok(Some(Token::Ident(name))) => Ok(Expr::Ident { name, is_bind_marker: true }),
            Ok(Some(_)) => Err(ParseError::UnexpectedToken),
        }
    }

    /// Parses a call form whose opening parenthesis has been read.
    fn parse_sexpr(&mut self) -> (r: Result<Expr, ParseError>)
        ensures
            final(self).input() == old(self).input(),
            expr_result_view(r) == parse_call(old(self).input(), old(self).offset()).0,
            final(self).offset() == parse_call(old(self).input(), old(self).offset()).1,
        decreases old(self).input().len() - old(self).offset(),
    {
        let ghost text = self.input();
        let ghost start = self.offset();
        proof {
            lemma_parse_callee_advances(text, start);
        }
        let (func_name, is_macro) = match self.parse_callee() {
            Ok(callee) => callee,
            Err(e) => {
                return Err(e);
            },
        };
        let ghost first = self.offset();
        let mut arguments: Vec<Expr> = Vec::new();
        assert(exprs_view(arguments@) =~= Seq::empty());
        loop
            invariant
                text == old(self).input(),
                start == old(self).offset(),
                self.input() == text,
                start < self.offset() <= text.len(),
                parse_arguments(text, first, Seq::empty()) == parse_arguments(
                    text,
                    self.offset(),
                    exprs_view(arguments@),
                ),
                parse_callee(text, start) == (
                    Ok::<(Seq<u8>, bool), ParseError>((func_name@, is_macro)),
                    first,
                ),
            decreases text.len() - self.offset(),
        {
            let ghost here = self.offset();
            let ghost read = exprs_view(arguments@);
            proof {
                lemma_lex_advances(text, here);
            }
            let token = match self.tokens.make_token() {
                Err(e) => {
                    return Err(ParseError::Lex(e));
                },
                Ok(None) => {
                    return Err(ParseError::UnexpectedEnd);
                },
                Ok(Some(token)) => token,
            };
            let ghost after = self.offset();
            let argument = match token {
                Token::RightParen => {
                    return Ok(Expr::Call { func_name, arguments, is_macro });
                },
                Token::LeftParen => {
                    proof {
                        lemma_parse_call_advances(text, after);
                    }
                    match self.parse_sexpr() {
                        Ok(call) => call,
                        Err(e) => {
                            return Err(e);
                        },
                    }
                },
                Token::LeftSquare => {
                    proof {
                        lemma_parse_items_advances(text, after, Seq::empty());
                    }
                    match self.parse_array() {
                        Ok(array) => array,
                        Err(e) => {
                            return Err(e);
                        },
                    }
                },
                Token::At => {
                    proof {
                        lemma_lex_advances(text, after);
                    }
                    match self.parse_bound_name() {
                        Ok(name) => name,
                        Err(e) => {
                            return Err(e);
                        },
                    }
                },
                Token::StringLit(s) => Expr::StringLit(s),
                Token::Ident(name) => Expr::Ident { name, is_bind_marker: false },
                Token::Number(n) => Expr::Number(n),
                Token::Colon => {
                    return Err(ParseError::UnexpectedToken);
                },
                Token::RightSquare => {
                    return Err(ParseError::UnexpectedToken);
                },
            };
            proof {
                lemma_exprs_view_push(arguments@, argument);
            }
            arguments.push(argument);
        }
    }

    /// Parses an array literal whose opening bracket has been read.
    fn parse_array(&mut self) -> (r: Result<Expr, ParseError>)
        ensures
            final(self).input() == old(self).input(),
            final(self).offset() == parse_items(
                old(self).input(),
                old(self).offset(),
                Seq::empty(),
            ).1,
            match parse_items(old(self).input(), old(self).offset(), Seq::empty()).0 {
                Ok(items) => expr_result_view(r) == Ok::<ExprView, ParseError>(
                    ExprView::Array(items),
                ),
                Err(e) => expr_result_view(r) == Err::<ExprView, ParseError>(e),
            },
    {
        let ghost text = self.input();
        let ghost start = self.offset();
        let mut elements: Vec<Expr> = Vec::new();
        assert(exprs_view(elements@) =~= Seq::empty());
        loop
            invariant
                text == old(self).input(),
                start == old(self).offset(),
                self.input() == text,
                start <= self.offset(),
                parse_items(text, start, Seq::empty()) == parse_items(
                    text,
                    self.offset(),
                    exprs_view(elements@),
                ),
            decreases text.len() - self.offset(),
        {
            proof {
                lemma_lex_advances(text, self.offset());
            }
            let token = match self.tokens.make_token() {
                Err(e) => {
                    return Err(ParseError::Lex(e));
                },
                Ok(None) => {
                    return Err(ParseError::UnexpectedEnd);
                },
                Ok(Some(token)) => token,
            };
            let element = match token {
                Token::RightSquare => {
                    return Ok(Expr::Array(elements));
                },
                Token::StringLit(s) => Expr::StringLit(s),
                Token::Ident(name) => Expr::Ident { name, is_bind_marker: false },
                Token::Number(n) => Expr::Number(n),
                _ => {
                    return Err(ParseError::UnexpectedToken);
                },
            };
            proof {
                lemma_exprs_view_push(elements@, element);
            }
            elements.push(element);
        }
    }
}

/// Parses the unit of input at the start of `text`.
pub fn parse(text: &[u8]) -> (r: Result<Expr, ParseError>)
    ensures
        expr_result_view(r) == parse_unit(text@, 0).0,
{
    let mut parser = Parser::new(text);
    parser.parse()
}

} // verus!
