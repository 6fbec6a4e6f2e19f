//! Units of input: a reader of lines hands the interpreter one unit at a
//! time, and a unit is complete when its parentheses balance.

use vstd::prelude::*;
use crate::lexer::LEFT_PAREN;
use crate::lexer::RIGHT_PAREN;

verus! {

/// How many bytes of `text` are `byte`.
pub open spec fn count_of(text: Seq<u8>, byte: u8) -> nat
    decreases text.len(),
{
    if text.len() == 0 {
        0
    } else if text.last() == byte {
        count_of(text.drop_last(), byte) + 1
    } else {
        count_of(text.drop_last(), byte)
    }
}

/// Whether `text` closes every parenthesis that it opens, and opens every
/// one that it closes: it holds as many `(` as `)`, wherever they stand.
pub open spec fn is_balanced(text: Seq<u8>) -> bool {
    count_of(text, LEFT_PAREN) == count_of(text, RIGHT_PAREN)
}

/// Counts the bytes of `text` that are `byte`.
pub fn count_byte(text: &[u8], byte: u8) -> (count: usize)
    ensures
        count == count_of(text@, byte),
{
    let mut count: usize = 0;
    let mut i: usize = 0;
    while i < text.len()
        invariant
            i <= text.len(),
            count == count_of(text@.subrange(0, i as int), byte),
            count <= i,
        decreases text.len() - i,
    {
        proof {
            assert(text@.subrange(0, i + 1).drop_last() =~= text@.subrange(0, i as int));
        }
        if text[i] == byte {
            count += 1;
        }
        i += 1;
    }
    proof {
        assert(text@.subrange(0, i as int) =~= text@);
    }
    count
}

/// Counts the parentheses that `text` opens and those that it closes.
pub fn count_parens(text: &[u8]) -> (counts: (usize, usize))
    ensures
        counts.0 == count_of(text@, LEFT_PAREN),
        counts.1 == count_of(text@, RIGHT_PAREN),
        (counts.0 == counts.1) == is_balanced(text@),
{
    (count_byte(text, LEFT_PAREN), count_byte(text, RIGHT_PAREN))
}

} // verus!
