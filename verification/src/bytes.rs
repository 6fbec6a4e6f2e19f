//! Byte strings: copies, comparison, and the decimal form of numbers.

use vstd::prelude::*;
use crate::scan::decimal_value;
use crate::scan::is_digit;

verus! {

/// A copy of a byte string.
pub(crate) fn copy_bytes(bytes: &Vec<u8>) -> (copy: Vec<u8>)
    ensures
        copy@ == bytes@,
{
    let copy = bytes.clone();
    copy
}

/// Whether two byte strings are the same.
pub(crate) fn same_bytes(a: &[u8], b: &[u8]) -> (same: bool)
    ensures
        same == (a@ == b@),
{
    if a.len() != b.len() {
        return false;
    }
    let mut i: usize = 0;
    while i < a.len()
        invariant
            i <= a.len(),
            a.len() == b.len(),
            forall|j: int| 0 <= j < i ==> a@[j] == b@[j],
        decreases a.len() - i,
    {
        if a[i] != b[i] {
            return false;
        }
        i += 1;
    }
    assert(a@ =~= b@);
    true
}

/// The decimal digits of a natural number, without leading zeros.
pub open spec fn digits_of(n: nat) -> Seq<u8>
    decreases n,
{
    if n < 10 {
        seq![('0' as u8 + n) as u8]
    } else {
        digits_of(n / 10).push(('0' as u8 + n % 10) as u8)
    }
}

/// The digits of a number are digits, and they denote the number.
pub proof fn lemma_digits_denote(n: nat)
    ensures
        digits_of(n).len() >= 1,
        forall|i: int| 0 <= i < digits_of(n).len() ==> is_digit(#[trigger] digits_of(n)[i]),
        decimal_value(digits_of(n)) == n,
    decreases n,
{
    if n < 10 {
        let digits = digits_of(n);
        assert(decimal_value(digits.drop_last()) == 0);
    } else {
        lemma_digits_denote(n / 10);
        let digits = digits_of(n);
        assert(digits.drop_last() =~= digits_of(n / 10));
    }
}

/// A number in decimal, with a minus sign before a negative one.
pub open spec fn render_number(n: int) -> Seq<u8> {
    if n < 0 {
        seq!['-' as u8] + digits_of((-n) as nat)
    } else {
        digits_of(n as nat)
    }
}

/// Appends the decimal digits of `n` to `out`.
pub(crate) fn write_digits(n: u32, out: &mut Vec<u8>)
    ensures
        final(out)@ == old(out)@ + digits_of(n as nat),
    decreases n,
{
    if n >= 10 {
        write_digits(n / 10, out);
    }
    out.push('0' as u8 + (n % 10) as u8);
}

/// Appends a number in decimal to `out`.
pub(crate) fn write_number(n: i32, out: &mut Vec<u8>)
    ensures
        final(out)@ == old(out)@ + render_number(n as int),
{
    if n < 0 {
        out.push('-' as u8);
        write_digits((-(n as i64)) as u32, out);
    } else {
        write_digits(n as u32, out);
    }
}

/// Appends the bytes of `text` to `out`.
pub(crate) fn write_bytes(text: &[u8], out: &mut Vec<u8>)
    ensures
        final(out)@ == old(out)@ + text@,
{
    let mut i: usize = 0;
    while i < text.len()
        invariant
            i <= text.len(),
            out@ == old(out)@ + text@.subrange(0, i as int),
        decreases text.len() - i,
    {
        out.push(text[i]);
        i += 1;
    }
}

} // verus!
