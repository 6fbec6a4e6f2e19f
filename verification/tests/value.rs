use minilisp::ast::Expr;
use minilisp::value::NativeFunction;
use minilisp::value::NativeMacro;
use minilisp::value::Value;

fn text(value: &Value) -> String {
    String::from_utf8(value.to_text()).unwrap()
}

#[test]
fn nil_prints_as_its_marker() {
    assert_eq!(text(&Value::Nil), "nil");
}

#[test]
fn numbers_print_in_decimal() {
    assert_eq!(text(&Value::Number(0)), "0");
    assert_eq!(text(&Value::Number(7)), "7");
    assert_eq!(text(&Value::Number(10)), "10");
    assert_eq!(text(&Value::Number(42)), "42");
    assert_eq!(text(&Value::Number(1000000)), "1000000");
    assert_eq!(text(&Value::Number(-5)), "-5");
    assert_eq!(text(&Value::Number(i32::MAX)), "2147483647");
    assert_eq!(text(&Value::Number(i32::MIN)), "-2147483648");
}

#[test]
fn strings_print_between_quotes() {
    assert_eq!(text(&Value::StringVal(b"abc".to_vec())), "\"abc\"");
    assert_eq!(text(&Value::StringVal(Vec::new())), "\"\"");
    assert_eq!(text(&Value::StringVal(b"a \"b\"".to_vec())), "\"a \"b\"\"");
    assert_eq!(Value::StringVal(vec![0xff, 0x00]).to_text(), vec![b'"', 0xff, 0x00, b'"']);
}

#[test]
fn arrays_print_between_brackets_with_their_items_one_space_apart() {
    assert_eq!(
        text(&Value::Array(vec![Value::Number(1), Value::Number(2), Value::Number(3)])),
        "[1 2 3]"
    );
    assert_eq!(text(&Value::Array(vec![])), "[]");
    assert_eq!(text(&Value::Array(vec![Value::Number(7)])), "[7]");
    assert_eq!(
        text(&Value::Array(vec![
            Value::Nil,
            Value::StringVal(b"s".to_vec()),
            Value::Array(vec![Value::Number(-1)]),
        ])),
        "[nil \"s\" [-1]]"
    );
    assert_eq!(
        text(&Value::Array(vec![
            Value::Array(vec![]),
            Value::Array(vec![Value::Array(vec![Value::Number(1), Value::Number(2)])]),
            Value::NativeFunction(NativeFunction::Id),
        ])),
        "[[] [[1 2]] <function>]"
    );
}

#[test]
fn functions_and_macros_print_as_placeholders() {
    assert_eq!(text(&Value::NativeFunction(NativeFunction::Plus)), "<function>");
    assert_eq!(text(&Value::NativeFunction(NativeFunction::Id)), "<function>");
    assert_eq!(text(&Value::NativeMacro(NativeMacro::Let)), "<macro>");
    assert_eq!(text(&Value::NativeMacro(NativeMacro::Def)), "<macro>");
    assert_eq!(text(&Value::NativeMacro(NativeMacro::Scope)), "<macro>");
    assert_eq!(
        text(&Value::UserFunction { params: vec![b"x".to_vec()], body: Expr::Number(1) }),
        "<function>"
    );
}

#[test]
fn a_copy_of_a_value_equals_it() {
    let value = Value::Array(vec![
        Value::Nil,
        Value::Number(3),
        Value::StringVal(b"s".to_vec()),
        Value::NativeFunction(NativeFunction::Plus),
        Value::NativeMacro(NativeMacro::Scope),
        Value::UserFunction {
            params: vec![b"x".to_vec(), b"y".to_vec()],
            body: Expr::Call {
                func_name: b"plus".to_vec(),
                arguments: vec![
                    Expr::Ident { name: b"x".to_vec(), is_bind_marker: false },
                    Expr::Array(vec![Expr::StringLit(b"t".to_vec())]),
                ],
                is_macro: false,
            },
        },
    ]);
    assert_eq!(value.clone(), value);
}

#[test]
fn a_value_hands_out_what_it_holds() {
    let function = Value::NativeFunction(NativeFunction::Id);
    let native = Value::NativeMacro(NativeMacro::Def);
    let string = Value::StringVal(b"s".to_vec());
    assert_eq!(function.as_func(), Some(NativeFunction::Id));
    assert_eq!(function.as_macro(), None);
    assert_eq!(function.as_str(), None);
    assert_eq!(native.as_macro(), Some(NativeMacro::Def));
    assert_eq!(native.as_func(), None);
    assert_eq!(string.as_str(), Some(&b"s".to_vec()));
    assert_eq!(string.as_func(), None);
    assert_eq!(Value::Nil.as_str(), None);
    assert_eq!(Value::Number(1).as_macro(), None);
}

#[test]
fn an_identifier_hands_out_its_name() {
    assert_eq!(
        Expr::Ident { name: b"x".to_vec(), is_bind_marker: false }.as_ident(),
        Some(&b"x".to_vec())
    );
    assert_eq!(
        Expr::Ident { name: b"y".to_vec(), is_bind_marker: true }.as_ident(),
        Some(&b"y".to_vec())
    );
    assert_eq!(Expr::Number(1).as_ident(), None);
    assert_eq!(Expr::StringLit(b"x".to_vec()).as_ident(), None);
    assert_eq!(Expr::Array(vec![]).as_ident(), None);
}
