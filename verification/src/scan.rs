//! Maximal runs of bytes of one class, and the value of a run of digits.

use vstd::prelude::*;

verus! {

/// The byte `"`, which opens and closes a string literal.
pub const QUOTE: u8 = 0x22;

/// The classes of bytes of which maximal runs are scanned.
#[derive(Debug, Clone, Copy, PartialEq, Eq, Structural)]
pub enum ByteClass {
    /// Space, tab and line feed: skipped between tokens.
    Blank,
    /// The ten decimal digits.
    Digit,
    /// ASCII letters and decimal digits.
    Alphanumeric,
    /// Every byte but the double quote.
    StringBody,
    /// Comma and space.
    Padding,
    /// ASCII letters, decimal digits and the underscore.
    Word,
}

/// Whether a byte is a space, a tab or a line feed.
pub open spec fn is_blank(b: u8) -> bool {
    b == ' ' as u8 || b == '\t' as u8 || b == '\n' as u8
}

/// Whether a byte is a decimal digit.
pub open spec fn is_digit(b: u8) -> bool {
    '0' as u8 <= b <= '9' as u8
}

/// Whether a byte is an ASCII letter.
pub open spec fn is_letter(b: u8) -> bool {
    ('a' as u8 <= b <= 'z' as u8) || ('A' as u8 <= b <= 'Z' as u8)
}

/// Whether a byte belongs to a class.
pub open spec fn in_class(class: ByteClass, b: u8) -> bool {
    match class {
        ByteClass::Blank => is_blank(b),
        ByteClass::Digit => is_digit(b),
        ByteClass::Alphanumeric => is_letter(b) || is_digit(b),
        ByteClass::StringBody => b != QUOTE,
        ByteClass::Padding => b == ',' as u8 || b == ' ' as u8,
        ByteClass::Word => is_letter(b) || is_digit(b) || b == '_' as u8,
    }
}

/// The end of the maximal run of bytes of `class` that starts at `from`: the
/// first position at or after `from` that holds a byte of another class, or
/// the end of the text.
pub open spec fn run_end(text: Seq<u8>, from: int, class: ByteClass) -> int
    decreases text.len() - from,
{
    if 0 <= from < text.len() && in_class(class, text[from]) {
        run_end(text, from + 1, class)
    } else {
        from
    }
}

/// The number that a sequence of decimal digits denotes.
pub open spec fn decimal_value(digits: Seq<u8>) -> nat
    decreases digits.len(),
{
    if digits.len() == 0 {
        0
    } else {
        (decimal_value(digits.drop_last()) * 10 + (digits.last() - '0' as u8)) as nat
    }
}

/// A run ends at or after its start, and inside the text if it starts there.
pub proof fn lemma_run_end_bounds(text: Seq<u8>, from: int, class: ByteClass)
    ensures
        from <= run_end(text, from, class),
        from <= text.len() ==> run_end(text, from, class) <= text.len(),
    decreases text.len() - from,
{
    if 0 <= from < text.len() && in_class(class, text[from]) {
        lemma_run_end_bounds(text, from + 1, class);
    }
}

/// A run is maximal: all its bytes are of the class, and the byte after it,
/// if there is one, is not.
pub proof fn lemma_run_end_maximal(text: Seq<u8>, from: int, class: ByteClass)
    requires
        0 <= from <= text.len(),
    ensures
        forall|i: int|
            from <= i < run_end(text, from, class) ==> in_class(class, #[trigger] text[i]),
        run_end(text, from, class) < text.len() ==> !in_class(
            class,
            text[run_end(text, from, class)],
        ),
    decreases text.len() - from,
{
    if from < text.len() && in_class(class, text[from]) {
        lemma_run_end_maximal(text, from + 1, class);
    }
}

/// The position that ends a stretch of bytes of the class, and holds none
/// itself, is the end of the run.
pub proof fn lemma_run_end_is(text: Seq<u8>, from: int, end: int, class: ByteClass)
    requires
        0 <= from <= end <= text.len(),
        forall|i: int| from <= i < end ==> in_class(class, #[trigger] text[i]),
        end < text.len() ==> !in_class(class, text[end]),
    ensures
        run_end(text, from, class) == end,
    decreases end - from,
{
    if from < end {
        lemma_run_end_is(text, from + 1, end, class);
    }
}

/// The value of a digit sequence grows with every digit appended.
pub proof fn lemma_decimal_value_monotonic(digits: Seq<u8>, k: int)
    requires
        0 <= k <= digits.len(),
        forall|i: int| 0 <= i < digits.len() ==> is_digit(#[trigger] digits[i]),
    ensures
        decimal_value(digits.subrange(0, k)) <= decimal_value(digits),
    decreases digits.len() - k,
{
    if k == digits.len() {
        assert(digits.subrange(0, k) =~= digits);
    } else {
        let longer = digits.subrange(0, k + 1);
        assert(longer.drop_last() =~= digits.subrange(0, k));
        lemma_decimal_value_monotonic(digits, k + 1);
    }
}

/// Tells whether a byte is a decimal digit.
pub(crate) fn byte_is_digit(b: u8) -> (r: bool)
    ensures
        r == is_digit(b),
{
    '0' as u8 <= b && b <= '9' as u8
}

/// Tells whether a byte is an ASCII letter.
pub(crate) fn byte_is_letter(b: u8) -> (r: bool)
    ensures
        r == is_letter(b),
{
    ('a' as u8 <= b && b <= 'z' as u8) || ('A' as u8 <= b && b <= 'Z' as u8)
}

/// Tells whether a byte belongs to a class.
pub(crate) fn class_holds(class: ByteClass, b: u8) -> (r: bool)
    ensures
        r == in_class(class, b),
{
    match class {
        ByteClass::Blank => b == ' ' as u8 || b == '\t' as u8 || b == '\n' as u8,
        ByteClass::Digit => byte_is_digit(b),
        ByteClass::Alphanumeric => byte_is_letter(b) || byte_is_digit(b),
        ByteClass::StringBody => b != QUOTE,
        ByteClass::Padding => b == ',' as u8 || b == ' ' as u8,
        ByteClass::Word => byte_is_letter(b) || byte_is_digit(b) || b == '_' as u8,
    }
}

/// Scans the maximal run of bytes of `class` that starts at `from`.
pub(crate) fn scan_run(text: &[u8], from: usize, class: ByteClass) -> (end: usize)
    ensures
        end == run_end(text@, from as int, class),
        from <= end,
        from <= text@.len() ==> end <= text@.len(),
{
    let mut end: usize = from;
    while end < text.len() && class_holds(class, text[end])
        invariant
            from <= end,
            from <= text@.len() ==> end <= text@.len(),
            run_end(text@, from as int, class) == run_end(text@, end as int, class),
        decreases text@.len() - end,
    {
        end += 1;
    }
    end
}

/// Computes the value of the digits in `text[start..end]` as long as it fits.
pub(crate) fn read_decimal(text: &[u8], start: usize, end: usize) -> (r: Option<i32>)
    requires
        start <= end <= text@.len(),
        forall|i: int| start <= i < end ==> is_digit(#[trigger] text@[i]),
    ensures
        match r {
            Some(n) => n == decimal_value(text@.subrange(start as int, end as int)),
            None => decimal_value(text@.subrange(start as int, end as int)) > i32::MAX,
        },
{
    let ghost digits = text@.subrange(start as int, end as int);
    let mut value: i64 = 0;
    let mut i: usize = start;
    while i < end
        invariant
            start <= i <= end <= text@.len(),
            digits == text@.subrange(start as int, end as int),
            forall|j: int| start <= j < end ==> is_digit(#[trigger] text@[j]),
            forall|j: int| 0 <= j < digits.len() ==> is_digit(#[trigger] digits[j]),
            0 <= value <= i32::MAX,
            value == decimal_value(digits.subrange(0, i - start)),
        decreases end - i,
    {
        let digit: i64 = (text[i] - '0' as u8) as i64;
        proof {
            let longer = digits.subrange(0, i - start + 1);
            assert(longer.drop_last() =~= digits.subrange(0, i - start));
            lemma_decimal_value_monotonic(digits, i - start + 1);
        }
        value = value * 10 + digit;
        if value > i32::MAX as i64 {
            return None;
        }
        i += 1;
    }
    proof {
        assert(digits.subrange(0, end - start) =~= digits);
    }
    Some(value as i32)
}

} // verus!
