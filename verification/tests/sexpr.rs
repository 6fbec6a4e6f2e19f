use minilisp::error::ReadError;
use minilisp::sexpr::parser;
use minilisp::sexpr::Expr;
use minilisp::sexpr::Expr::Add;
use minilisp::sexpr::Expr::Div;
use minilisp::sexpr::Expr::False;
use minilisp::sexpr::Expr::List;
use minilisp::sexpr::Expr::Mul;
use minilisp::sexpr::Expr::Nil;
use minilisp::sexpr::Expr::Num;
use minilisp::sexpr::Expr::Sub;
use minilisp::sexpr::Expr::True;

fn read(s: &str) -> Result<Expr, ReadError> {
    parser().parse((s.to_owned() + "\n").as_bytes())
}

fn parse_single_expr(s: &str) -> Expr {
    read(s).unwrap()
}

#[test]
fn numbers() {
    assert_eq!(parse_single_expr("52"), Expr::Num(52));
}

#[test]
fn symbols() {
    assert_eq!(parse_single_expr("+"), Add);
    assert_eq!(parse_single_expr("-"), Sub);
    assert_eq!(parse_single_expr("*"), Mul);
    assert_eq!(parse_single_expr("/"), Div);
}

fn test_ident(s: &str) {
    assert_eq!(parse_single_expr(s), Expr::Ident(s.as_bytes().to_vec()), "{}", s);
}

#[test]
fn ident() {
    test_ident("abc5");
    test_ident("x_abcd");
}

#[test]
fn lists() {
    assert_eq!(parse_single_expr("(+ 1 2)"), List(vec![Add, Num(1), Num(2)]));
    assert_eq!(parse_single_expr("()"), List(Vec::new()));
    assert_eq!(parse_single_expr("(  )"), List(Vec::new()));
    assert_eq!(
        parse_single_expr("( +   1   (-   2 3   )   )  "),
        List(vec![Add, Num(1), List(vec![Sub, Num(2), Num(3)])])
    );
    assert_eq!(parse_single_expr("(()())"), List(vec![List(vec![]), List(vec![])]));
    assert_eq!(parse_single_expr("(1 2, 3,,,,),,"), List(vec![Num(1), Num(2), Num(3)]));
}

#[test]
fn builtins() {
    assert_eq!(parse_single_expr("nil"), Nil);
    assert_eq!(parse_single_expr("true"), True);
    assert_eq!(parse_single_expr("false"), False);
}

#[test]
fn a_word_that_only_starts_like_a_constant_is_an_identifier() {
    test_ident("nil5");
    test_ident("truex");
    test_ident("_x");
}

#[test]
fn a_word_may_not_follow_padding_at_the_start() {
    assert_eq!(read(" abc"), Err(ReadError::NoMatch));
    assert_eq!(parse_single_expr(" 7 "), Num(7));
    assert_eq!(parse_single_expr(", + ,"), Add);
}

#[test]
fn digits_end_a_number_and_letters_start_a_word() {
    assert_eq!(
        parse_single_expr("(12abc -5)"),
        List(vec![Num(12), Expr::Ident(b"abc".to_vec()), Sub, Num(5)])
    );
}

#[test]
fn a_line_needs_its_line_feed_and_a_list_its_parenthesis() {
    assert_eq!(parser().parse(b"52"), Err(ReadError::NoMatch));
    assert_eq!(read("(1 2"), Err(ReadError::NoMatch));
    assert_eq!(read(")"), Err(ReadError::NoMatch));
    assert_eq!(read(""), Err(ReadError::NoMatch));
    assert_eq!(read("-5"), Err(ReadError::NoMatch));
    assert_eq!(read("(1\t2)"), Err(ReadError::NoMatch));
}

#[test]
fn what_follows_the_line_feed_is_not_read() {
    assert_eq!(parser().parse(b"(1)\n)))"), Ok(List(vec![Num(1)])));
}

#[test]
fn a_number_beyond_the_integer_type_is_refused() {
    assert_eq!(parse_single_expr("2147483647"), Num(2147483647));
    assert_eq!(parse_single_expr("0000000000000000000007"), Num(7));
    assert_eq!(read("2147483648"), Err(ReadError::NumberTooLarge));
    assert_eq!(read("(1 (2 99999999999))"), Err(ReadError::NumberTooLarge));
}

#[test]
fn a_copy_of_an_expression_equals_it() {
    let expr = parse_single_expr("(+ 1 (x nil true false) * /)");
    assert_eq!(expr.clone(), expr);
}

fn printed(s: &str) -> String {
    String::from_utf8(parse_single_expr(s).to_text()).unwrap()
}

#[test]
fn an_expression_prints_with_one_space_between_the_items_of_a_list() {
    assert_eq!(printed("52"), "52");
    assert_eq!(printed("x_abcd"), "x_abcd");
    assert_eq!(printed("(+ 1 2)"), "(+ 1 2)");
    assert_eq!(printed("( +   1   (-   2 3   )   )  "), "(+ 1 (- 2 3))");
    assert_eq!(printed("(1 2, 3,,,,),,"), "(1 2 3)");
    assert_eq!(printed("(* / (x))"), "(* / (x))");
    assert_eq!(printed("(nil true false)"), "(Nil True False)");
    assert_eq!(String::from_utf8(Num(-7).to_text()).unwrap(), "-7");
    assert_eq!(Expr::Symbol(b"sym".to_vec()).to_text(), b"sym".to_vec());
}

#[test]
fn an_expression_with_an_empty_list_has_no_printed_form() {
    assert!(parse_single_expr("(+ 1 2)").is_printable());
    assert!(parse_single_expr("nil").is_printable());
    assert!(parse_single_expr("((((1))))").is_printable());
    assert!(!parse_single_expr("()").is_printable());
    assert!(!parse_single_expr("(1 (2 ()) 3)").is_printable());
    assert!(!parse_single_expr("(()())").is_printable());
}

#[test]
fn the_printed_form_of_what_was_read_is_read_as_the_same() {
    for text in ["52", "(+ 1 2)", "(a (b (c 1 2) -) * (/))", "abc5", "(x_1 _ 007)"] {
        let expr = parse_single_expr(text);
        let mut line = expr.to_text();
        line.push(b'\n');
        assert_eq!(parser().parse(&line), Ok(expr));
    }
}

#[test]
fn a_constant_prints_with_a_capital_and_is_read_as_an_identifier() {
    let mut line = Nil.to_text();
    line.push(b'\n');
    assert_eq!(parser().parse(&line), Ok(Expr::Ident(b"Nil".to_vec())));
    let mut line = List(vec![True, False]).to_text();
    line.push(b'\n');
    assert_eq!(
        parser().parse(&line),
        Ok(List(vec![Expr::Ident(b"True".to_vec()), Expr::Ident(b"False".to_vec())]))
    );
}

#[test]
fn a_negative_number_prints_as_an_operator_and_a_number() {
    let mut line = List(vec![Num(-5)]).to_text();
    line.push(b'\n');
    assert_eq!(parser().parse(&line), Ok(List(vec![Sub, Num(5)])));
}
