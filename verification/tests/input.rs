use minilisp::input::count_byte;
use minilisp::input::count_parens;

#[test]
fn bytes_are_counted_wherever_they_stand() {
    assert_eq!(count_byte(b"", b'a'), 0);
    assert_eq!(count_byte(b"banana", b'a'), 3);
    assert_eq!(count_byte(b"banana", b'n'), 2);
    assert_eq!(count_byte(b"banana", b'x'), 0);
    assert_eq!(count_byte(b"aaaa", b'a'), 4);
}

#[test]
fn a_unit_is_complete_when_its_parentheses_balance() {
    assert_eq!(count_parens(b""), (0, 0));
    assert_eq!(count_parens(b"(plus 1 2)\n"), (1, 1));
    assert_eq!(count_parens(b"(plus (id 1)\n"), (2, 1));
    assert_eq!(count_parens(b"(plus (id 1)\n 2)\n"), (2, 2));
    assert_eq!(count_parens(b"))(("), (2, 2));
    assert_eq!(count_parens(b"(id \"(\")"), (2, 1));
}
