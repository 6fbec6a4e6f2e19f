//! A reader for plain S-expressions: numbers, operators, words and lists.
//!
//! The grammar, with `pad` for any run of commas and spaces, alternatives
//! tried in the order in which they stand, and every repetition as long as
//! it can be:
//!
//! ```text
//! line = expr "\n"
//! expr = list | atom
//! list = pad "(" pad { pad expr pad } pad ")" pad
//! atom = pad digits pad | word | pad operator pad
//! word = ( letter | "_" ) { letter | digit | "_" }
//! ```
//!
//! The words `nil`, `true` and `false` are read as constants, every other
//! word as an identifier. `read_expr` says what this grammar makes of a
//! text; `SexprParser::parse` computes it.

use vstd::prelude::*;
use vstd::slice::slice_subrange;
use vstd::slice::slice_to_vec;
use crate::bytes::copy_bytes;
use crate::bytes::lemma_digits_denote;
use crate::bytes::render_number;
use crate::bytes::write_bytes;
use crate::bytes::write_number;
use crate::error::ReadError;
use crate::lexer::LEFT_PAREN;
use crate::lexer::RIGHT_PAREN;
use crate::scan::byte_is_digit;
use crate::scan::byte_is_letter;
use crate::scan::decimal_value;
use crate::scan::in_class;
use crate::scan::is_digit;
use crate::scan::is_letter;
use crate::scan::lemma_run_end_bounds;
use crate::scan::lemma_run_end_is;
use crate::scan::lemma_run_end_maximal;
use crate::scan::read_decimal;
use crate::scan::run_end;
use crate::scan::scan_run;
use crate::scan::ByteClass;

verus! {

/// The line feed that ends a line.
pub const LINE_FEED: u8 = 0x0a;

/// An S-expression.
#[derive(Debug, PartialEq, Eq, PartialOrd)]
pub enum Expr {
    Num(i32),
    Symbol(Vec<u8>),
    Ident(Vec<u8>),
    Add,
    Sub,
    Mul,
    Div,
    Nil,
    True,
    False,
    List(Vec<Expr>),
}

/// What an S-expression stands for.
pub enum ExprView {
    Num(i32),
    Symbol(Seq<u8>),
    Ident(Seq<u8>),
    Add,
    Sub,
    Mul,
    Div,
    Nil,
    True,
    False,
    List(Seq<ExprView>),
}

impl View for Expr {
    type V = ExprView;

    open spec fn view(&self) -> ExprView
        decreases self,
    {
        match self {
            Expr::Num(n) => ExprView::Num(*n),
            Expr::Symbol(s) => ExprView::Symbol(s@),
            Expr::Ident(s) => ExprView::Ident(s@),
            Expr::Add => ExprView::Add,
            Expr::Sub => ExprView::Sub,
            Expr::Mul => ExprView::Mul,
            Expr::Div => ExprView::Div,
            Expr::Nil => ExprView::Nil,
            Expr::True => ExprView::True,
            Expr::False => ExprView::False,
            Expr::List(items) => ExprView::List(items_view(items@)),
        }
    }
}

/// The views of a sequence of S-expressions, in order.
pub open spec fn items_view(items: Seq<Expr>) -> Seq<ExprView>
    decreases items,
{
    Seq::new(
        items.len(),
        |i: int|
            if 0 <= i < items.len() {
                items[i]@
            } else {
                arbitrary()
            },
    )
}

/// The view of a sequence of S-expressions grows with the sequence.
pub proof fn lemma_items_view_push(items: Seq<Expr>, item: Expr)
    ensures
        items_view(items.push(item)) == items_view(items).push(item@),
{
    assert(items_view(items.push(item)) =~= items_view(items).push(item@));
}

/// A copy of a list of S-expressions, item by item.
pub(crate) fn copy_items(items: &Vec<Expr>) -> (copy: Vec<Expr>)
    ensures
        items_view(copy@) == items_view(items@),
    decreases items,
{
    let mut copy: Vec<Expr> = Vec::new();
    let mut i: usize = 0;
    while i < items.len()
        invariant
            i <= items.len(),
            copy.len() == i,
            forall|j: int| 0 <= j < i ==> copy[j]@ == items[j]@,
        decreases items.len() - i,
    {
        copy.push(items[i].clone());
        i += 1;
    }
    assert(items_view(copy@) =~= items_view(items@));
    copy
}

impl Clone for Expr {
    fn clone(&self) -> (copy: Self)
        ensures
            copy@ == self@,
        decreases self,
    {
        match self {
            Expr::Num(n) => Expr::Num(*n),
            Expr::Symbol(s) => Expr::Symbol(copy_bytes(s)),
            Expr::Ident(s) => Expr::Ident(copy_bytes(s)),
            Expr::Add => Expr::Add,
            Expr::Sub => Expr::Sub,
            Expr::Mul => Expr::Mul,
            Expr::Div => Expr::Div,
            Expr::Nil => Expr::Nil,
            Expr::True => Expr::True,
            Expr::False => Expr::False,
            Expr::List(items) => Expr::List(copy_items(items)),
        }
    }
}

/// Where the padding that starts at `pos` ends.
pub open spec fn skip_padding(text: Seq<u8>, pos: int) -> int {
    run_end(text, pos, ByteClass::Padding)
}

/// Whether a byte can start a word: a letter or the underscore.
pub open spec fn is_word_start(b: u8) -> bool {
    is_letter(b) || b == '_' as u8
}

/// The word `nil`.
pub open spec fn nil_word() -> Seq<u8> {
    seq!['n' as u8, 'i' as u8, 'l' as u8]
}

/// The word `true`.
pub open spec fn true_word() -> Seq<u8> {
    seq!['t' as u8, 'r' as u8, 'u' as u8, 'e' as u8]
}

/// The word `false`.
pub open spec fn false_word() -> Seq<u8> {
    seq!['f' as u8, 'a' as u8, 'l' as u8, 's' as u8, 'e' as u8]
}

/// What a word is read as: one of the three constants, or an identifier.
pub open spec fn word_expr(word: Seq<u8>) -> ExprView {
    if word == nil_word() {
        ExprView::Nil
    } else if word == true_word() {
        ExprView::True
    } else if word == false_word() {
        ExprView::False
    } else {
        ExprView::Ident(word)
    }
}

/// The operator that a byte is, if it is one.
pub open spec fn operator(b: u8) -> Option<ExprView> {
    if b == '+' as u8 {
        Some(ExprView::Add)
    } else if b == '-' as u8 {
        Some(ExprView::Sub)
    } else if b == '*' as u8 {
        Some(ExprView::Mul)
    } else if b == '/' as u8 {
        Some(ExprView::Div)
    } else {
        None
    }
}

/// The atom at `pos`, and where the reader stands behind it: a run of
/// digits or an operator, with any padding before and behind it, or a word
/// that starts at `pos` itself.
pub open spec fn read_atom(text: Seq<u8>, pos: int) -> Result<(ExprView, int), ReadError> {
    let start = skip_padding(text, pos);
    if 0 <= start < text.len() && is_digit(text[start]) {
        let end = run_end(text, start, ByteClass::Digit);
        let value = decimal_value(text.subrange(start, end));
        if value <= i32::MAX {
            Ok((ExprView::Num(value as i32), skip_padding(text, end)))
        } else {
            Err(ReadError::NumberTooLarge)
        }
    } else if 0 <= pos < text.len() && is_word_start(text[pos]) {
        let end = run_end(text, pos, ByteClass::Word);
        Ok((word_expr(text.subrange(pos, end)), end))
    } else if 0 <= start < text.len() && operator(text[start]) is Some {
        Ok((operator(text[start])->0, skip_padding(text, start + 1)))
    } else {
        Err(ReadError::NoMatch)
    }
}

/// The expression at `pos`, and where the reader stands behind it: a list
/// if a parenthesis opens behind the padding, else an atom.
pub open spec fn read_expr(text: Seq<u8>, pos: int) -> Result<(ExprView, int), ReadError>
    decreases text.len() - pos, 0int,
{
    let open = skip_padding(text, pos);
    if 0 <= pos && 0 <= open < text.len() && text[open] == LEFT_PAREN {
        proof {
            lemma_run_end_bounds(text, pos, ByteClass::Padding);
            lemma_run_end_bounds(text, open + 1, ByteClass::Padding);
        }
        match read_items(text, skip_padding(text, open + 1), Seq::empty()) {
            Err(e) => Err(e),
            Ok((items, after)) => {
                let close = skip_padding(text, after);
                if 0 <= close < text.len() && text[close] == RIGHT_PAREN {
                    Ok((ExprView::List(items), skip_padding(text, close + 1)))
                } else {
                    Err(ReadError::NoMatch)
                }
            },
        }
    } else {
        read_atom(text, pos)
    }
}

/// The items of a list from `pos` on, appended to those already read, and
/// where the reader stands behind the last of them: as many expressions as
/// can be read, each with any padding before and behind it.
///
/// An expression is never empty (`lemma_read_expr_advances`), so the test
/// that the reader moved forward always holds; it is here to make the
/// recursion well-founded.
pub open spec fn read_items(text: Seq<u8>, pos: int, read: Seq<ExprView>) -> Result<
    (Seq<ExprView>, int),
    ReadError,
>
    decreases text.len() - pos, 1int,
{
    let start = skip_padding(text, pos);
    if 0 <= pos <= text.len() {
        proof {
            lemma_run_end_bounds(text, pos, ByteClass::Padding);
        }
        match read_expr(text, start) {
            Ok((item, after)) if start < after <= text.len() => {
                proof {
                    lemma_run_end_bounds(text, after, ByteClass::Padding);
                }
                read_items(text, skip_padding(text, after), read.push(item))
            },
            Err(ReadError::NumberTooLarge) => Err(ReadError::NumberTooLarge),
            _ => Ok((read, pos)),
        }
    } else {
        Ok((read, pos))
    }
}

/// The expression that a line holds: the expression at its start, which a
/// line feed must follow. What stands behind the line feed is not read.
pub open spec fn read_line(text: Seq<u8>) -> Result<ExprView, ReadError> {
    match read_expr(text, 0) {
        Ok((expr, after)) => if 0 <= after < text.len() && text[after] == LINE_FEED {
            Ok(expr)
        } else {
            Err(ReadError::NoMatch)
        },
        Err(e) => Err(e),
    }
}

/// An atom is never empty: the reader moves forward when it has read one,
/// and it never leaves the text.
pub proof fn lemma_read_atom_advances(text: Seq<u8>, pos: int)
    ensures
        read_atom(text, pos) matches Ok((_, after)) ==> 0 <= pos < after <= text.len(),
{
    let start = skip_padding(text, pos);
    lemma_run_end_bounds(text, pos, ByteClass::Padding);
    if 0 <= start < text.len() {
        lemma_run_end_bounds(text, start + 1, ByteClass::Digit);
        lemma_run_end_bounds(text, run_end(text, start, ByteClass::Digit), ByteClass::Padding);
        lemma_run_end_bounds(text, start + 1, ByteClass::Padding);
    }
    if 0 <= pos < text.len() {
        lemma_run_end_bounds(text, pos + 1, ByteClass::Word);
    }
}

/// The items of a list end at or behind the place where they start.
pub proof fn lemma_read_items_bounds(text: Seq<u8>, pos: int, read: Seq<ExprView>)
    ensures
        read_items(text, pos, read) matches Ok((_, after)) ==> pos <= after && (pos <= text.len()
            ==> after <= text.len()),
    decreases text.len() - pos,
{
    let start = skip_padding(text, pos);
    if 0 <= pos <= text.len() {
        lemma_run_end_bounds(text, pos, ByteClass::Padding);
        if let Ok((item, after)) = read_expr(text, start) {
            if start < after <= text.len() {
                lemma_run_end_bounds(text, after, ByteClass::Padding);
                lemma_read_items_bounds(text, skip_padding(text, after), read.push(item));
            }
        }
    }
}

/// An expression is never empty: the reader moves forward when it has read
/// one, and it never leaves the text.
pub proof fn lemma_read_expr_advances(text: Seq<u8>, pos: int)
    ensures
        read_expr(text, pos) matches Ok((_, after)) ==> 0 <= pos < after <= text.len(),
{
    let open = skip_padding(text, pos);
    if 0 <= pos && 0 <= open < text.len() && text[open] == LEFT_PAREN {
        lemma_run_end_bounds(text, pos, ByteClass::Padding);
        lemma_run_end_bounds(text, open + 1, ByteClass::Padding);
        lemma_read_items_bounds(text, skip_padding(text, open + 1), Seq::empty());
        if let Ok((items, after)) = read_items(text, skip_padding(text, open + 1), Seq::empty()) {
            let close = skip_padding(text, after);
            lemma_run_end_bounds(text, after, ByteClass::Padding);
            if 0 <= close < text.len() {
                lemma_run_end_bounds(text, close + 1, ByteClass::Padding);
            }
        }
    } else {
        lemma_read_atom_advances(text, pos);
    }
}

/// Why reading a line failed, or the expression that it holds.
pub open spec fn read_result_view(r: Result<Expr, ReadError>) -> Result<ExprView, ReadError> {
    match r {
        Ok(expr) => Ok(expr@),
        Err(e) => Err(e),
    }
}

/// Whether `text[start..end]` is the word `word`.
fn holds_word(text: &[u8], start: usize, end: usize, word: &Vec<u8>) -> (same: bool)
    requires
        start <= end <= text@.len(),
    ensures
        same == (text@.subrange(start as int, end as int) == word@),
{
    if end - start != word.len() {
        return false;
    }
    let mut i: usize = 0;
    while i < word.len()
        invariant
            i <= word.len(),
            start <= end <= text@.len(),
            end - start == word.len(),
            forall|j: int| 0 <= j < i ==> text@[start + j] == word@[j],
        decreases word.len() - i,
    {
        if text[start + i] != word[i] {
            assert(text@.subrange(start as int, end as int)[i as int] != word@[i as int]);
            return false;
        }
        i += 1;
    }
    assert(text@.subrange(start as int, end as int) =~= word@);
    true
}

/// Reads the atom at `pos`.
fn parse_atom(text: &[u8], pos: usize) -> (r: Result<(Expr, usize), ReadError>)
    requires
        pos <= text@.len(),
    ensures
        match read_atom(text@, pos as int) {
            Ok((expr, after)) => r matches Ok(found) && found.0@ == expr && found.1 == after,
            Err(e) => r matches Err(err) && err == e,
        },
{
    let start = scan_run(text, pos, ByteClass::Padding);
    if start < text.len() && byte_is_digit(text[start]) {
        let end = scan_run(text, start, ByteClass::Digit);
        proof {
            lemma_run_end_maximal(text@, start as int, ByteClass::Digit);
        }
        return match read_decimal(text, start, end) {
            Some(n) => Ok((Expr::Num(n), scan_run(text, end, ByteClass::Padding))),
            None => Err(ReadError::NumberTooLarge),
        };
    }
    if pos < text.len() {
        let first = text[pos];
        if byte_is_letter(first) || first == '_' as u8 {
            let end = scan_run(text, pos, ByteClass::Word);
            let nil = vec!['n' as u8, 'i' as u8, 'l' as u8];
            let truth = vec!['t' as u8, 'r' as u8, 'u' as u8, 'e' as u8];
            let falsity = vec!['f' as u8, 'a' as u8, 'l' as u8, 's' as u8, 'e' as u8];
            assert(nil@ =~= nil_word());
            assert(truth@ =~= true_word());
            assert(falsity@ =~= false_word());
            let expr = if holds_word(text, pos, end, &nil) {
                Expr::Nil
            } else if holds_word(text, pos, end, &truth) {
                Expr::True
            } else if holds_word(text, pos, end, &falsity) {
                Expr::False
            } else {
                Expr::Ident(slice_to_vec(slice_subrange(text, pos, end)))
            };
            return Ok((expr, end));
        }
    }
    if start < text.len() {
        let b = text[start];
        let expr = if b == '+' as u8 {
            Expr::Add
        } else if b == '-' as u8 {
            Expr::Sub
        } else if b == '*' as u8 {
            Expr::Mul
        } else if b == '/' as u8 {
            Expr::Div
        } else {
            return Err(ReadError::NoMatch);
        };
        return Ok((expr, scan_run(text, start + 1, ByteClass::Padding)));
    }
    Err(ReadError::NoMatch)
}

/// Reads the expression at `pos`.
fn parse_expr(text: &[u8], pos: usize) -> (r: Result<(Expr, usize), ReadError>)
    requires
        pos <= text@.len(),
    ensures
        match read_expr(text@, pos as int) {
            Ok((expr, after)) => r matches Ok(found) && found.0@ == expr && found.1 == after,
            Err(e) => r matches Err(err) && err == e,
        },
    decreases text@.len() - pos, 0int,
{
    let open = scan_run(text, pos, ByteClass::Padding);
    if open < text.len() && text[open] == LEFT_PAREN {
        let first = scan_run(text, open + 1, ByteClass::Padding);
        let (items, after) = match parse_items(text, first) {
            Ok(read) => read,
            Err(e) => {
                return Err(e);
            },
        };
        let close = scan_run(text, after, ByteClass::Padding);
        if close < text.len() && text[close] == RIGHT_PAREN {
            Ok((Expr::List(items), scan_run(text, close + 1, ByteClass::Padding)))
        } else {
            Err(ReadError::NoMatch)
        }
    } else {
        parse_atom(text, pos)
    }
}

/// Reads the items of a list from `pos` on.
fn parse_items(text: &[u8], pos: usize) -> (r: Result<(Vec<Expr>, usize), ReadError>)
    requires
        pos <= text@.len(),
    ensures
        match read_items(text@, pos as int, Seq::empty()) {
            Ok((items, after)) => r matches Ok(found) && items_view(found.0@) == items && found.1
                == after && after <= text@.len(),
            Err(e) => r matches Err(err) && err == e,
        },
    decreases text@.len() - pos, 1int,
{
    let mut items: Vec<Expr> = Vec::new();
    let mut here: usize = pos;
    assert(items_view(items@) =~= Seq::empty());
    loop
        invariant
            pos <= here <= text@.len(),
            read_items(text@, pos as int, Seq::empty()) == read_items(
                text@,
                here as int,
                items_view(items@),
            ),
        decreases text@.len() - here,
    {
        let start = scan_run(text, here, ByteClass::Padding);
        proof {
            lemma_read_expr_advances(text@, start as int);
        }
        match parse_expr(text, start) {
            Ok((item, after)) => {
                proof {
                    lemma_items_view_push(items@, item);
                }
                items.push(item);
                here = scan_run(text, after, ByteClass::Padding);
            },
            Err(ReadError::NumberTooLarge) => {
                return Err(ReadError::NumberTooLarge);
            },
            Err(ReadError::NoMatch) => {
                return Ok((items, here));
            },
        }
    }
}

/// Whether no list in the expression is empty: only then has the expression
/// a printed form.
pub open spec fn lists_are_filled(expr: ExprView) -> bool
    decreases expr,
{
    match expr {
        ExprView::List(items) => items.len() > 0 && forall|i: int|
            0 <= i < items.len() ==> lists_are_filled(#[trigger] items[i]),
        _ => true,
    }
}

/// The printed form of an expression: a number in decimal, a symbol or an
/// identifier as it is, an operator as its sign, a constant as `Nil`, `True`
/// or `False`, and a list between parentheses, its items a space apart.
pub open spec fn print(expr: ExprView) -> Seq<u8>
    decreases expr, 0int,
{
    match expr {
        ExprView::Num(n) => render_number(n as int),
        ExprView::Symbol(s) => s,
        ExprView::Ident(s) => s,
        ExprView::Add => seq!['+' as u8],
        ExprView::Sub => seq!['-' as u8],
        ExprView::Mul => seq!['*' as u8],
        ExprView::Div => seq!['/' as u8],
        ExprView::Nil => seq!['N' as u8, 'i' as u8, 'l' as u8],
        ExprView::True => seq!['T' as u8, 'r' as u8, 'u' as u8, 'e' as u8],
        ExprView::False => seq!['F' as u8, 'a' as u8, 'l' as u8, 's' as u8, 'e' as u8],
        ExprView::List(items) => seq!['(' as u8] + print_items(items, items.len() as int)
            + seq![')' as u8],
    }
}

/// The printed forms of the first `count` items, a space between each two.
pub open spec fn print_items(items: Seq<ExprView>, count: int) -> Seq<u8>
    decreases items, count,
{
    if count <= 0 || count > items.len() {
        Seq::empty()
    } else if count == 1 {
        print(items[0])
    } else {
        print_items(items, count - 1) + seq![' ' as u8] + print(items[count - 1])
    }
}

/// Whether no list in the expressions is empty.
fn all_filled(items: &Vec<Expr>) -> (filled: bool)
    ensures
        filled == forall|i: int|
            0 <= i < items.len() ==> lists_are_filled(#[trigger] items_view(items@)[i]),
    decreases items,
{
    let mut i: usize = 0;
    while i < items.len()
        invariant
            i <= items.len(),
            forall|j: int| 0 <= j < i ==> lists_are_filled(#[trigger] items_view(items@)[j]),
        decreases items.len() - i,
    {
        if !items[i].is_printable() {
            assert(!lists_are_filled(items_view(items@)[i as int]));
            return false;
        }
        i += 1;
    }
    true
}

/// Appends the printed form of `expr` to `out`.
fn write_expr(expr: &Expr, out: &mut Vec<u8>)
    requires
        lists_are_filled(expr@),
    ensures
        final(out)@ == old(out)@ + print(expr@),
    decreases expr,
{
    match expr {
        Expr::Num(n) => write_number(*n, out),
        Expr::Symbol(s) => write_bytes(s.as_slice(), out),
        Expr::Ident(s) => write_bytes(s.as_slice(), out),
        Expr::Add => out.push('+' as u8),
        Expr::Sub => out.push('-' as u8),
        Expr::Mul => out.push('*' as u8),
        Expr::Div => out.push('/' as u8),
        Expr::Nil => {
            out.push('N' as u8);
            out.push('i' as u8);
            out.push('l' as u8);
        },
        Expr::True => {
            out.push('T' as u8);
            out.push('r' as u8);
            out.push('u' as u8);
            out.push('e' as u8);
        },
        Expr::False => {
            out.push('F' as u8);
            out.push('a' as u8);
            out.push('l' as u8);
            out.push('s' as u8);
            out.push('e' as u8);
        },
        Expr::List(items) => {
            out.push('(' as u8);
            write_items(items, out);
            out.push(')' as u8);
        },
    }
    assert(out@ =~= old(out)@ + print(expr@));
}

/// Appends the printed forms of the items, a space between each two, to
/// `out`.
fn write_items(items: &Vec<Expr>, out: &mut Vec<u8>)
    requires
        forall|i: int| 0 <= i < items.len() ==> lists_are_filled(#[trigger] items_view(items@)[i]),
    ensures
        final(out)@ == old(out)@ + print_items(items_view(items@), items.len() as int),
    decreases items,
{
    let ghost model = items_view(items@);
    let mut i: usize = 0;
    assert(out@ =~= old(out)@ + print_items(model, 0));
    while i < items.len()
        invariant
            i <= items.len(),
            model == items_view(items@),
            forall|j: int| 0 <= j < items.len() ==> lists_are_filled(#[trigger] model[j]),
            out@ == old(out)@ + print_items(model, i as int),
        decreases items.len() - i,
    {
        if i > 0 {
            out.push(' ' as u8);
        }
        assert(lists_are_filled(model[i as int]));
        write_expr(&items[i], out);
        i += 1;
        assert(out@ =~= old(out)@ + print_items(model, i as int));
    }
}

impl Expr {
    /// Whether the expression has a printed form: whether none of its lists
    /// is empty.
    pub fn is_printable(&self) -> (printable: bool)
        ensures
            printable == lists_are_filled(self@),
        decreases self,
    {
        match self {
            Expr::List(items) => items.len() > 0 && all_filled(items),
            _ => true,
        }
    }

    /// The printed form of the expression.
    pub fn to_text(&self) -> (text: Vec<u8>)
        requires
            lists_are_filled(self@),
        ensures
            text@ == print(self@),
    {
        let mut text: Vec<u8> = Vec::new();
        write_expr(self, &mut text);
        assert(text@ =~= print(self@));
        text
    }
}

/// Whether a byte string is a word: a letter or an underscore, then
/// letters, digits and underscores.
pub open spec fn is_word(word: Seq<u8>) -> bool {
    &&& word.len() >= 1
    &&& is_word_start(word[0])
    &&& forall|i: int| 0 <= i < word.len() ==> in_class(ByteClass::Word, #[trigger] word[i])
}

/// Whether an expression is read back from its printed form: a number that
/// is not negative, an operator, an identifier that is a word and none of
/// the three constants, or a list of such expressions that is not empty.
///
/// A constant is not: it prints with a capital letter, which is read as an
/// identifier.
pub open spec fn reads_back(expr: ExprView) -> bool
    decreases expr,
{
    match expr {
        ExprView::Num(n) => n >= 0,
        ExprView::Ident(word) => is_word(word) && word != nil_word() && word != true_word()
            && word != false_word(),
        ExprView::Add => true,
        ExprView::Sub => true,
        ExprView::Mul => true,
        ExprView::Div => true,
        ExprView::List(items) => items.len() > 0 && forall|i: int|
            0 <= i < items.len() ==> reads_back(#[trigger] items[i]),
        _ => false,
    }
}

/// Whether a byte ends every item: a space, a closing parenthesis or a line
/// feed.
pub open spec fn ends_item(b: u8) -> bool {
    b == ' ' as u8 || b == RIGHT_PAREN || b == LINE_FEED
}

/// Where the reader stands when it has read an expression that ends at
/// `end`: behind the padding that follows, but for a word, which takes no
/// padding with it.
pub open spec fn behind(text: Seq<u8>, expr: ExprView, end: int) -> int {
    if expr is Ident {
        end
    } else {
        skip_padding(text, end)
    }
}

/// Where the `k`-th item starts in the printed forms of the items.
pub open spec fn item_start(items: Seq<ExprView>, k: int) -> int {
    if k <= 0 {
        0
    } else {
        print_items(items, k).len() as int + 1
    }
}

/// The printed form of an expression that reads back starts with a byte
/// that is no padding.
pub proof fn lemma_print_starts(expr: ExprView)
    requires
        reads_back(expr),
    ensures
        print(expr).len() >= 1,
        !in_class(ByteClass::Padding, print(expr)[0]),
    decreases expr,
{
    match expr {
        ExprView::Num(n) => {
            lemma_digits_denote(n as nat);
        },
        _ => {},
    }
}

/// The printed forms of the first items are where the printed forms of more
/// items start, the `k`-th item stands at its place in them, and a space
/// stands before it if it is not the first.
pub proof fn lemma_print_items_prefix(items: Seq<ExprView>, k: int, count: int)
    requires
        0 <= k < count <= items.len(),
    ensures
        item_start(items, k) + print(items[k]).len() == print_items(items, k + 1).len(),
        print_items(items, k + 1).len() <= print_items(items, count).len(),
        print_items(items, count).subrange(0, print_items(items, k + 1).len() as int)
            == print_items(items, k + 1),
        print_items(items, count).subrange(
            item_start(items, k),
            print_items(items, k + 1).len() as int,
        ) == print(items[k]),
        k >= 1 ==> print_items(items, count)[item_start(items, k) - 1] == ' ' as u8,
    decreases count - k,
{
    let shorter = print_items(items, k + 1);
    let whole = print_items(items, count);
    if count == k + 1 {
        assert(whole.subrange(0, shorter.len() as int) =~= shorter);
        assert(whole.subrange(item_start(items, k), shorter.len() as int) =~= print(items[k]));
    } else {
        lemma_print_items_prefix(items, k, count - 1);
        let before = print_items(items, count - 1);
        assert(whole == before + seq![' ' as u8] + print(items[count - 1]));
        assert(whole.subrange(0, shorter.len() as int) =~= before.subrange(
            0,
            shorter.len() as int,
        ));
        assert(whole.subrange(item_start(items, k), shorter.len() as int) =~= before.subrange(
            item_start(items, k),
            shorter.len() as int,
        ));
        if k >= 1 {
            assert(whole[item_start(items, k) - 1] == before[item_start(items, k) - 1]);
        }
    }
}

/// Where a text holds the printed form of an expression that reads back,
/// and a byte that ends an item follows it, the reader reads the
/// expression there.
pub proof fn lemma_read_printed(text: Seq<u8>, pos: int, expr: ExprView)
    requires
        reads_back(expr),
        0 <= pos,
        pos + print(expr).len() < text.len(),
        text.subrange(pos, pos + print(expr).len()) == print(expr),
        ends_item(text[pos + print(expr).len()]),
    ensures
        read_expr(text, pos) == Ok::<(ExprView, int), ReadError>(
            (expr, behind(text, expr, pos + print(expr).len())),
        ),
    decreases expr, 0int,
{
    let form = print(expr);
    let end = pos + form.len();
    lemma_print_starts(expr);
    assert forall|i: int| pos <= i < end implies text[i] == form[i - pos] by {
        assert(text.subrange(pos, end)[i - pos] == text[i]);
    }
    assert(text[pos] == form[0]);
    assert(skip_padding(text, pos) == pos);
    match expr {
        ExprView::Num(n) => {
            lemma_digits_denote(n as nat);
            assert forall|i: int| pos <= i < end implies in_class(
                ByteClass::Digit,
                #[trigger] text[i],
            ) by {
                assert(is_digit(form[i - pos]));
            }
            lemma_run_end_is(text, pos, end, ByteClass::Digit);
        },
        ExprView::Ident(word) => {
            assert forall|i: int| pos <= i < end implies in_class(
                ByteClass::Word,
                #[trigger] text[i],
            ) by {
                assert(in_class(ByteClass::Word, word[i - pos]));
            }
            lemma_run_end_is(text, pos, end, ByteClass::Word);
            assert(text.subrange(pos, end) == word);
        },
        ExprView::List(items) => {
            let base = pos + 1;
            let count = items.len() as int;
            let inside = print_items(items, count);
            assert(form.len() == inside.len() + 2);
            assert(text.subrange(base, base + inside.len()) =~= inside) by {
                assert forall|i: int| 0 <= i < inside.len() implies text[base + i] == inside[i] by {
                    assert(text[base + i] == form[i + 1]);
                }
            }
            assert(text[end - 1] == form[form.len() - 1]);
            lemma_print_items_prefix(items, 0, count);
            lemma_print_starts(items[0]);
            assert(text[base] == inside[0]);
            assert(inside[0] == print(items[0])[0]) by {
                assert(inside.subrange(0, print_items(items, 1).len() as int)[0] == inside[0]);
            }
            assert(skip_padding(text, base) == base);
            assert(items.subrange(0, 0) =~= Seq::<ExprView>::empty());
            lemma_read_printed_items(text, base, items, 0);
            assert(skip_padding(text, end - 1) == end - 1);
        },
        _ => {},
    }
}

/// The same of the items of a list, from the `k`-th on: where a text holds
/// the printed forms of the items and the closing parenthesis, the reader
/// reads them all and stands on the parenthesis.
pub proof fn lemma_read_printed_items(text: Seq<u8>, base: int, items: Seq<ExprView>, k: int)
    requires
        forall|i: int| 0 <= i < items.len() ==> reads_back(#[trigger] items[i]),
        0 <= k <= items.len(),
        0 <= base,
        base + print_items(items, items.len() as int).len() < text.len(),
        text.subrange(base, base + print_items(items, items.len() as int).len()) == print_items(
            items,
            items.len() as int,
        ),
        text[base + print_items(items, items.len() as int).len()] == RIGHT_PAREN,
    ensures
        read_items(
            text,
            if k == items.len() {
                base + print_items(items, k).len()
            } else {
                base + item_start(items, k)
            },
            items.subrange(0, k),
        ) == Ok::<(Seq<ExprView>, int), ReadError>(
            (items, base + print_items(items, items.len() as int).len()),
        ),
    decreases items, items.len() - k,
{
    let count = items.len() as int;
    let inside = print_items(items, count);
    let close = base + inside.len();
    assert forall|i: int| 0 <= i < inside.len() implies text[base + i] == inside[i] by {
        assert(text.subrange(base, close)[i] == text[base + i]);
    }
    if k == count {
        assert(skip_padding(text, close) == close);
        assert(read_atom(text, close) == Err::<(ExprView, int), ReadError>(ReadError::NoMatch));
        assert(read_expr(text, close) == Err::<(ExprView, int), ReadError>(ReadError::NoMatch));
        assert(items.subrange(0, k) =~= items);
        assert(read_items(text, close, items) == Ok::<(Seq<ExprView>, int), ReadError>(
            (items, close),
        ));
    } else {
        let item = items[k];
        let start = base + item_start(items, k);
        let end = base + print_items(items, k + 1).len();
        lemma_print_items_prefix(items, k, count);
        lemma_print_starts(item);
        // The item stands at its place, and what ends it follows.
        assert(text.subrange(start, end) =~= print(item)) by {
            assert forall|i: int| 0 <= i < print(item).len() implies text[start + i] == print(
                item,
            )[i] by {
                assert(inside.subrange(
                    item_start(items, k),
                    print_items(items, k + 1).len() as int,
                )[i] == inside[item_start(items, k) + i]);
            }
        }
        assert(text[start] == print(item)[0]);
        assert(skip_padding(text, start) == start);
        if k + 1 < count {
            lemma_print_items_prefix(items, k + 1, count);
            lemma_print_starts(items[k + 1]);
            assert(text[end] == ' ' as u8);
            assert(text[end + 1] == print(items[k + 1])[0]) by {
                assert(inside.subrange(
                    item_start(items, k + 1),
                    print_items(items, k + 2).len() as int,
                )[0] == inside[item_start(items, k + 1)]);
            }
            lemma_run_end_is(text, end, end + 1, ByteClass::Padding);
        } else {
            assert(text[end] == RIGHT_PAREN);
            assert(skip_padding(text, end) == end);
        }
        lemma_read_printed(text, start, item);
        let after = behind(text, item, end);
        lemma_run_end_bounds(text, end, ByteClass::Padding);
        lemma_skip_padding_twice(text, end);
        assert(skip_padding(text, after) == skip_padding(text, end));
        assert(items.subrange(0, k).push(item) =~= items.subrange(0, k + 1));
        lemma_read_printed_items(text, base, items, k + 1);
        assert(read_expr(text, start) == Ok::<(ExprView, int), ReadError>((item, after)));
        assert(start < after <= text.len());
        let next = skip_padding(text, after);
        assert(next == if k + 1 == count {
            base + print_items(items, k + 1).len()
        } else {
            base + item_start(items, k + 1)
        });
        assert(read_items(text, start, items.subrange(0, k)) == read_items(
            text,
            next,
            items.subrange(0, k + 1),
        ));
    }
}

/// Behind padding stands no padding.
pub proof fn lemma_skip_padding_twice(text: Seq<u8>, pos: int)
    ensures
        skip_padding(text, skip_padding(text, pos)) == skip_padding(text, pos),
    decreases text.len() - pos,
{
    if 0 <= pos < text.len() && in_class(ByteClass::Padding, text[pos]) {
        lemma_skip_padding_twice(text, pos + 1);
    }
}

/// Reading inverts printing: the printed form of an expression that reads
/// back, with a line feed behind it, is read as the expression.
pub proof fn law_reading_inverts_printing(expr: ExprView)
    requires
        reads_back(expr),
    ensures
        read_line(print(expr) + seq![LINE_FEED]) == Ok::<ExprView, ReadError>(expr),
{
    let form = print(expr);
    let text = form + seq![LINE_FEED];
    assert(text.subrange(0, form.len() as int) =~= form);
    assert(text[form.len() as int] == LINE_FEED);
    lemma_read_printed(text, 0, expr);
    assert(skip_padding(text, form.len() as int) == form.len());
}

/// A reader of S-expressions.
#[derive(Debug, Clone, Copy, PartialEq, Eq, Structural)]
pub struct SexprParser;

impl SexprParser {
    /// Reads the expression that the line at the start of `text` holds.
    pub fn parse(&self, text: &[u8]) -> (r: Result<Expr, ReadError>)
        ensures
            read_result_view(r) == read_line(text@),
    {
        match parse_expr(text, 0) {
            Ok((expr, after)) => {
                proof {
                    lemma_read_expr_advances(text@, 0);
                }
                if after < text.len() && text[after] == LINE_FEED {
                    Ok(expr)
                } else {
                    Err(ReadError::NoMatch)
                }
            },
            Err(e) => Err(e),
        }
    }
}

/// The reader of S-expressions.
pub fn parser() -> (reader: SexprParser)
    ensures
        reader == SexprParser,
{
    SexprParser
}

} // verus!
