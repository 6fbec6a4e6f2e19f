use minilisp::ast::Expr;
use minilisp::env::Env;
use minilisp::error::Error;
use minilisp::error::EvalError;
use minilisp::error::LexError;
use minilisp::error::ParseError;
use minilisp::eval::bind_let;
use minilisp::eval::call_macro;
use minilisp::eval::call_native;
use minilisp::eval::call_user;
use minilisp::eval::def;
use minilisp::eval::eval;
use minilisp::eval::eval_all;
use minilisp::eval::evaluate;
use minilisp::eval::id;
use minilisp::eval::interpret;
use minilisp::eval::plus;
use minilisp::eval::scope;
use minilisp::eval::DEFAULT_DEPTH;
use minilisp::parser::parse;
use minilisp::value::NativeFunction;
use minilisp::value::NativeMacro;
use minilisp::value::Value;

fn name(text: &str) -> Vec<u8> {
    text.as_bytes().to_vec()
}

fn ident(text: &str) -> Expr {
    Expr::Ident { name: name(text), is_bind_marker: false }
}

fn run_all(units: &[&str]) -> Vec<Result<Value, Error>> {
    let mut env = Env::with_builtins();
    units.iter().map(|unit| interpret(unit.as_bytes(), &mut env)).collect()
}

fn last(units: &[&str]) -> Result<Value, Error> {
    run_all(units).pop().unwrap()
}

#[test]
fn plus_adds_two_literals() {
    let mut env = Env::with_builtins();
    assert_eq!(interpret(b"(plus 40 2)", &mut env), Ok(Value::Number(42)));
    for (a, b) in [(0, 0), (1, -1), (-7, -8), (i32::MAX, 0), (i32::MAX, i32::MIN), (i32::MIN, 1)] {
        let call = Expr::Call {
            func_name: name("plus"),
            arguments: vec![Expr::Number(a), Expr::Number(b)],
            is_macro: false,
        };
        assert_eq!(evaluate(&call, &mut env), Ok(Value::Number(a + b)));
    }
}

#[test]
fn plus_adds_any_number_of_numbers() {
    assert_eq!(last(&["(plus)"]), Ok(Value::Number(0)));
    assert_eq!(last(&["(plus 5)"]), Ok(Value::Number(5)));
    assert_eq!(last(&["(plus 1 2 3 4 5)"]), Ok(Value::Number(15)));
    assert_eq!(last(&["(plus 1 (plus 2 3) (plus))"]), Ok(Value::Number(6)));
    assert_eq!(
        plus(&[Value::Number(2147483647), Value::Number(-1)]),
        Ok(Value::Number(2147483646))
    );
}

#[test]
fn a_sum_that_does_not_fit_fails() {
    assert_eq!(last(&["(plus 2147483647 1)"]), Err(Error::Eval(EvalError::Overflow)));
    assert_eq!(
        plus(&[Value::Number(i32::MIN), Value::Number(-1)]),
        Err(EvalError::Overflow)
    );
    assert_eq!(
        plus(&[Value::Number(i32::MAX), Value::Number(1), Value::Number(-1)]),
        Err(EvalError::Overflow)
    );
}

#[test]
fn plus_fails_at_the_first_argument_that_it_cannot_add() {
    assert_eq!(last(&["(plus 1 \"2\")"]), Err(Error::Eval(EvalError::TypeMismatch)));
    assert_eq!(last(&["(plus [1] 2)"]), Err(Error::Eval(EvalError::TypeMismatch)));
    assert_eq!(
        plus(&[Value::Number(i32::MAX), Value::Number(1), Value::Nil]),
        Err(EvalError::Overflow)
    );
    assert_eq!(
        plus(&[Value::Nil, Value::Number(i32::MAX), Value::Number(1)]),
        Err(EvalError::TypeMismatch)
    );
}

#[test]
fn id_returns_its_first_argument() {
    assert_eq!(last(&["(id 7)"]), Ok(Value::Number(7)));
    assert_eq!(last(&["(id \"s\" 2 3)"]), Ok(Value::StringVal(name("s"))));
    assert_eq!(last(&["(id plus)"]), Ok(Value::NativeFunction(NativeFunction::Plus)));
    assert_eq!(last(&["(id)"]), Err(Error::Eval(EvalError::TypeMismatch)));
    assert_eq!(id(&[]), Err(EvalError::TypeMismatch));
    assert_eq!(id(&[Value::Nil, Value::Number(1)]), Ok(Value::Nil));
}

#[test]
fn literals_evaluate_to_themselves() {
    let mut env = Env::new();
    assert_eq!(eval(&Expr::Number(-3), &mut env, 1), Ok(Value::Number(-3)));
    assert_eq!(
        eval(&Expr::StringLit(name("a b")), &mut env, 1),
        Ok(Value::StringVal(name("a b")))
    );
    assert_eq!(last(&["(id \"\")"]), Ok(Value::StringVal(Vec::new())));
}

#[test]
fn a_marked_identifier_evaluates_to_its_name() {
    assert_eq!(last(&["(id @unbound)"]), Ok(Value::StringVal(name("unbound"))));
    assert_eq!(last(&["(:let x 1)", "(id @x)"]), Ok(Value::StringVal(name("x"))));
}

#[test]
fn an_unbound_identifier_fails() {
    assert_eq!(last(&["(id x)"]), Err(Error::Eval(EvalError::UnboundName)));
    assert_eq!(last(&["(nope 1)"]), Err(Error::Eval(EvalError::UnboundName)));
    assert_eq!(last(&["(:nope 1)"]), Err(Error::Eval(EvalError::UnboundName)));
    assert_eq!(last(&["(id [1 x])"]), Err(Error::Eval(EvalError::UnboundName)));
}

#[test]
fn defined_function_is_called_with_its_argument() {
    let mut env = Env::with_builtins();
    assert_eq!(interpret(b"(:def f x (plus x 1))", &mut env), Ok(Value::Nil));
    assert_eq!(interpret(b"(f 5)", &mut env), Ok(Value::Number(6)));
    assert_eq!(
        env.get(b"f"),
        Some(&Value::UserFunction {
            params: vec![name("x")],
            body: Expr::Call {
                func_name: name("plus"),
                arguments: vec![ident("x"), Expr::Number(1)],
                is_macro: false,
            },
        })
    );
}

#[test]
fn the_arguments_are_bound_to_the_parameters_at_their_places() {
    assert_eq!(
        last(&["(:def first a b c (id a))", "(first 1 2 3)"]),
        Ok(Value::Number(1))
    );
    assert_eq!(
        last(&["(:def third a b c (id c))", "(third 1 2 3)"]),
        Ok(Value::Number(3))
    );
    assert_eq!(
        last(&["(:def sum a b c (plus a b c))", "(sum 1 2 3 4 5)"]),
        Ok(Value::Number(6))
    );
    assert_eq!(
        last(&["(:def twice a a (id a))", "(twice 1 2)"]),
        Ok(Value::Number(2))
    );
    assert_eq!(last(&["(:def five (plus 2 3))", "(five)"]), Ok(Value::Number(5)));
    assert_eq!(last(&["(:def five (plus 2 3))", "(five 1 2)"]), Ok(Value::Number(5)));
}

#[test]
fn a_call_with_too_few_arguments_fails() {
    assert_eq!(
        last(&["(:def f a b (id a))", "(f 1)"]),
        Err(Error::Eval(EvalError::TypeMismatch))
    );
    assert_eq!(
        last(&["(:def f a (id 1))", "(f)"]),
        Err(Error::Eval(EvalError::TypeMismatch))
    );
}

#[test]
fn a_name_that_a_function_leaves_free_is_looked_up_where_it_is_called() {
    assert_eq!(
        last(&["(:def g (id y))", "(:def f y (g))", "(f 7)"]),
        Ok(Value::Number(7))
    );
    assert_eq!(
        last(&["(:def g (id y))", "(g)"]),
        Err(Error::Eval(EvalError::UnboundName))
    );
    assert_eq!(
        last(&["(:let y 1)", "(:def g (id y))", "(:scope (:let y 2) (g))"]),
        Ok(Value::Number(2))
    );
}

#[test]
fn what_a_function_defines_ends_with_the_call() {
    assert_eq!(
        last(&["(:def f x (:let y x))", "(f 5)", "(id y)"]),
        Err(Error::Eval(EvalError::UnboundName))
    );
    assert_eq!(
        last(&["(:let x 1)", "(:def f x (:let x 9))", "(f 5)", "(id x)"]),
        Ok(Value::Number(1))
    );
}

#[test]
fn def_needs_a_name_and_a_body_and_identifiers_between_them() {
    assert_eq!(last(&["(:def)"]), Err(Error::Eval(EvalError::TypeMismatch)));
    assert_eq!(last(&["(:def f)"]), Err(Error::Eval(EvalError::TypeMismatch)));
    assert_eq!(last(&["(:def 1 2)"]), Err(Error::Eval(EvalError::TypeMismatch)));
    assert_eq!(last(&["(:def f 1 (id 1))"]), Err(Error::Eval(EvalError::TypeMismatch)));
    assert_eq!(last(&["(:def f (x) (id x))"]), Err(Error::Eval(EvalError::TypeMismatch)));
    assert_eq!(last(&["(:def f x \"y\" z (id x))"]), Err(Error::Eval(EvalError::TypeMismatch)));
    assert_eq!(last(&["(:def f @x (id x))", "(f 3)"]), Ok(Value::Number(3)));
    assert_eq!(last(&["(:def f x)", "(f)"]), Err(Error::Eval(EvalError::UnboundName)));
    assert_eq!(last(&["(:let x 4)", "(:def f x)", "(f)"]), Ok(Value::Number(4)));
}

#[test]
fn let_binds_in_the_same_scope() {
    let mut env = Env::with_builtins();
    assert_eq!(interpret(b"(:let x 10)", &mut env), Ok(Value::Number(10)));
    assert_eq!(interpret(b"(id x)", &mut env), Ok(Value::Number(10)));
    assert_eq!(env.get(b"x"), Some(&Value::Number(10)));
    assert_eq!(evaluate(&ident("x"), &mut env), Ok(Value::Number(10)));
}

#[test]
fn let_evaluates_its_second_argument_and_overwrites() {
    assert_eq!(
        last(&["(:let x 1)", "(:let x (plus x 1))", "(:let x (plus x x))", "(id x)"]),
        Ok(Value::Number(4))
    );
    assert_eq!(last(&["(:let x [1 \"a\"] ignored)"]), Ok(Value::Array(vec![
        Value::Number(1),
        Value::StringVal(name("a")),
    ])));
    assert_eq!(last(&["(:let @x 3)", "(id x)"]), Ok(Value::Number(3)));
}

#[test]
fn let_needs_a_name_and_an_expression() {
    assert_eq!(last(&["(:let)"]), Err(Error::Eval(EvalError::TypeMismatch)));
    assert_eq!(last(&["(:let x)"]), Err(Error::Eval(EvalError::TypeMismatch)));
    assert_eq!(last(&["(:let 1 2)"]), Err(Error::Eval(EvalError::TypeMismatch)));
    assert_eq!(last(&["(:let \"x\" 2)"]), Err(Error::Eval(EvalError::TypeMismatch)));
    assert_eq!(last(&["(:let 1 (nope))"]), Err(Error::Eval(EvalError::TypeMismatch)));
    assert_eq!(last(&["(:let x (nope))"]), Err(Error::Eval(EvalError::UnboundName)));
    assert_eq!(last(&["(:let x (nope))", "(id x)"]), Err(Error::Eval(EvalError::UnboundName)));
}

#[test]
fn let_in_one_scope_is_unbound_in_a_sibling_scope() {
    let mut env = Env::with_builtins();
    assert_eq!(
        interpret(b"(:scope (:scope (:let x 10)) (:scope (id x)))", &mut env),
        Err(Error::Eval(EvalError::UnboundName))
    );
    assert_eq!(interpret(b"(:scope (:let x 10))", &mut env), Ok(Value::Number(10)));
    assert_eq!(interpret(b"(:scope (id x))", &mut env), Err(Error::Eval(EvalError::UnboundName)));
    assert_eq!(interpret(b"(id x)", &mut env), Err(Error::Eval(EvalError::UnboundName)));
}

#[test]
fn scope_evaluates_in_order_and_returns_the_last_value() {
    let mut env = Env::with_builtins();
    assert_eq!(
        interpret(b"(:scope (:let y 1) (:let y (plus y 1)) (id y))", &mut env),
        Ok(Value::Number(2))
    );
    assert_eq!(env.get(b"y"), None);
    assert_eq!(env.nesting(), 0);
}

#[test]
fn an_empty_scope_is_nil() {
    assert_eq!(last(&["(:scope)"]), Ok(Value::Nil));
}

#[test]
fn a_scope_sees_and_shadows_what_is_outside() {
    assert_eq!(
        last(&["(:let x 1)", "(:scope (:let y (plus x 1)) (:let x 10) (plus x y))"]),
        Ok(Value::Number(12))
    );
    assert_eq!(
        last(&["(:let x 1)", "(:scope (:let x 10))", "(id x)"]),
        Ok(Value::Number(1))
    );
    assert_eq!(
        last(&["(:scope (:let x 1) (:scope (:let x 2) (:scope (:let x 3))) (id x))"]),
        Ok(Value::Number(1))
    );
}

#[test]
fn a_scope_that_fails_leaves_no_frame_behind() {
    let mut env = Env::with_builtins();
    let form = parse(b"(:scope (:let x 1) (:scope (nope)))").unwrap();
    assert_eq!(eval(&form, &mut env, DEFAULT_DEPTH), Err(EvalError::UnboundName));
    assert_eq!(env.nesting(), 0);
    assert_eq!(env.get(b"x"), None);
}

#[test]
fn array_literal_keeps_its_order() {
    let mut env = Env::with_builtins();
    assert_eq!(
        interpret(b"(id [1 2 3])", &mut env),
        Ok(Value::Array(vec![Value::Number(1), Value::Number(2), Value::Number(3)]))
    );
    let array = Expr::Array(vec![Expr::Number(1), Expr::Number(2), Expr::Number(3)]);
    assert_eq!(
        evaluate(&array, &mut env),
        Ok(Value::Array(vec![Value::Number(1), Value::Number(2), Value::Number(3)]))
    );
    assert_eq!(evaluate(&Expr::Array(vec![]), &mut env), Ok(Value::Array(vec![])));
    assert_eq!(
        last(&["(:let x 3)", "(id [\"a\" x 2 x])"]),
        Ok(Value::Array(vec![
            Value::StringVal(name("a")),
            Value::Number(3),
            Value::Number(2),
            Value::Number(3),
        ]))
    );
}

#[test]
fn the_arguments_are_evaluated_from_left_to_right() {
    assert_eq!(last(&["(plus (:let a 1) a)"]), Ok(Value::Number(2)));
    assert_eq!(last(&["(plus a (:let a 1))"]), Err(Error::Eval(EvalError::UnboundName)));
    assert_eq!(
        last(&["(:let a 1)", "(id [a] (:let a 2))", "(plus (:let a 5) a (:let a 7) a)"]),
        Ok(Value::Number(24))
    );
}

#[test]
fn the_callee_is_looked_up_behind_its_arguments() {
    assert_eq!(last(&["(f (:def f x (id x)))"]), Ok(Value::Nil));
    assert_eq!(last(&["(nope (also))"]), Err(Error::Eval(EvalError::UnboundName)));
    assert_eq!(
        last(&["(:let n 1)", "(n (plus \"a\"))"]),
        Err(Error::Eval(EvalError::TypeMismatch))
    );
}

#[test]
fn a_call_of_what_cannot_be_called_that_way_fails() {
    assert_eq!(last(&["(:let n 1)", "(n)"]), Err(Error::Eval(EvalError::TypeMismatch)));
    assert_eq!(last(&["(:let n \"s\")", "(n 1 2)"]), Err(Error::Eval(EvalError::TypeMismatch)));
    assert_eq!(last(&["(scope)"]), Err(Error::Eval(EvalError::TypeMismatch)));
    assert_eq!(last(&["(let @x 1)"]), Err(Error::Eval(EvalError::TypeMismatch)));
    assert_eq!(last(&["(let x 10)"]), Err(Error::Eval(EvalError::UnboundName)));
    assert_eq!(last(&["(:plus 1 2)"]), Err(Error::Eval(EvalError::TypeMismatch)));
    assert_eq!(last(&["(:id 1)"]), Err(Error::Eval(EvalError::TypeMismatch)));
    assert_eq!(last(&["(:def f x (id x))", "(:f 1)"]), Err(Error::Eval(EvalError::TypeMismatch)));
    assert_eq!(last(&["(:let n 1)", "(:n)"]), Err(Error::Eval(EvalError::TypeMismatch)));
}

#[test]
fn endless_recursion_runs_out_of_depth() {
    let mut env = Env::with_builtins();
    assert_eq!(interpret(b"(:def f x (f x))", &mut env), Ok(Value::Nil));
    assert_eq!(interpret(b"(f 1)", &mut env), Err(Error::Eval(EvalError::DepthExceeded)));
    assert_eq!(env.nesting(), 0);
    assert_eq!(interpret(b"(plus 1 2)", &mut env), Ok(Value::Number(3)));
}

#[test]
fn an_evaluation_uses_one_level_of_depth_for_each_nesting() {
    let mut env = Env::with_builtins();
    let literal = Expr::Number(1);
    assert_eq!(eval(&literal, &mut env, 0), Err(EvalError::DepthExceeded));
    assert_eq!(eval(&literal, &mut env, 1), Ok(Value::Number(1)));
    let call = parse(b"(plus 1 2)").unwrap();
    assert_eq!(eval(&call, &mut env, 1), Err(EvalError::DepthExceeded));
    assert_eq!(eval(&call, &mut env, 2), Ok(Value::Number(3)));
    let nested = parse(b"(plus 1 (plus 2 (plus 3)))").unwrap();
    assert_eq!(eval(&nested, &mut env, 3), Err(EvalError::DepthExceeded));
    assert_eq!(eval(&nested, &mut env, 4), Ok(Value::Number(6)));
    let array = parse(b"(id [1])").unwrap();
    assert_eq!(eval(&array, &mut env, 2), Err(EvalError::DepthExceeded));
    assert_eq!(eval(&array, &mut env, 3), Ok(Value::Array(vec![Value::Number(1)])));
    let empty = parse(b"(:scope)").unwrap();
    assert_eq!(eval(&empty, &mut env, 1), Ok(Value::Nil));
    let scoped = parse(b"(:scope 1)").unwrap();
    assert_eq!(eval(&scoped, &mut env, 1), Err(EvalError::DepthExceeded));
    assert_eq!(eval(&scoped, &mut env, 2), Ok(Value::Number(1)));
    assert_eq!(env.nesting(), 0);
}

#[test]
fn a_deep_nesting_within_the_default_depth_is_evaluated() {
    let mut text = String::new();
    for _ in 0..200 {
        text.push_str("(plus 1 ");
    }
    text.push('0');
    for _ in 0..200 {
        text.push(')');
    }
    let mut env = Env::with_builtins();
    assert_eq!(interpret(text.as_bytes(), &mut env), Ok(Value::Number(200)));
}

#[test]
fn a_unit_that_fails_leaves_the_environment_as_it_was() {
    let mut env = Env::with_builtins();
    assert_eq!(interpret(b"(:let x 1)", &mut env), Ok(Value::Number(1)));
    assert_eq!(
        interpret(b"(plus (:let x 2) (:let fresh 3) (nope))", &mut env),
        Err(Error::Eval(EvalError::UnboundName))
    );
    assert_eq!(env.get(b"x"), Some(&Value::Number(1)));
    assert_eq!(env.get(b"fresh"), None);
    assert_eq!(
        interpret(b"(plus (:let plus 0) 1)", &mut env),
        Err(Error::Eval(EvalError::TypeMismatch))
    );
    assert_eq!(interpret(b"(plus x x)", &mut env), Ok(Value::Number(2)));
    assert_eq!(interpret(b"(:let x", &mut env), Err(Error::Parse(ParseError::UnexpectedEnd)));
    assert_eq!(
        interpret(b"(:let x #)", &mut env),
        Err(Error::Parse(ParseError::Lex(LexError::UnexpectedByte)))
    );
    assert_eq!(env.get(b"x"), Some(&Value::Number(1)));
}

#[test]
fn a_unit_with_a_second_closing_parenthesis_is_not_run() {
    let mut env = Env::with_builtins();
    assert_eq!(
        interpret(b"(id 1))", &mut env),
        Err(Error::Parse(ParseError::UnexpectedToken))
    );
    assert_eq!(
        interpret(b"(:let x 1))", &mut env),
        Err(Error::Parse(ParseError::UnexpectedToken))
    );
    assert_eq!(env.get(b"x"), None);
    assert_eq!(interpret(b"(id 1)", &mut env), Ok(Value::Number(1)));
    assert_eq!(interpret(b"(id 2) (id 3)", &mut env), Ok(Value::Number(2)));
}

#[test]
fn a_bare_evaluation_keeps_what_was_defined_before_it_failed() {
    let mut env = Env::with_builtins();
    let form = parse(b"(plus (:let x 2) (nope))").unwrap();
    assert_eq!(eval(&form, &mut env, DEFAULT_DEPTH), Err(EvalError::UnboundName));
    assert_eq!(env.get(b"x"), Some(&Value::Number(2)));
    assert_eq!(evaluate(&form, &mut env), Err(EvalError::UnboundName));
    assert_eq!(env.get(b"x"), Some(&Value::Number(2)));
}

#[test]
fn the_operations_can_be_called_on_their_own() {
    let mut env = Env::with_builtins();
    let values = [Value::Number(1), Value::Number(2)];
    assert_eq!(call_native(NativeFunction::Plus, &values, &mut env), Ok(Value::Number(3)));
    assert_eq!(call_native(NativeFunction::Id, &values, &mut env), Ok(Value::Number(1)));
    let exprs = [ident("x"), Expr::Number(4)];
    assert_eq!(bind_let(&exprs, &mut env, 1), Ok(Value::Number(4)));
    assert_eq!(env.get(b"x"), Some(&Value::Number(4)));
    assert_eq!(call_macro(NativeMacro::Let, &exprs, &mut env, 0), Err(EvalError::DepthExceeded));
    assert_eq!(
        eval_all(&exprs, &mut env, 1),
        Ok(vec![Value::Number(4), Value::Number(4)])
    );
    assert_eq!(scope(&exprs, &mut env, 1), Ok(Value::Number(4)));
    assert_eq!(call_macro(NativeMacro::Scope, &[], &mut env, 0), Ok(Value::Nil));
    let definition = [ident("f"), ident("a"), ident("a")];
    assert_eq!(def(&definition, &mut env), Ok(Value::Nil));
    assert_eq!(
        env.get(b"f"),
        Some(&Value::UserFunction { params: vec![name("a")], body: ident("a") })
    );
    assert_eq!(
        call_user(&vec![name("a")], &ident("a"), &[Value::Number(9)], &mut env, 1),
        Ok(Value::Number(9))
    );
    assert_eq!(
        call_user(&vec![name("a")], &ident("x"), &[Value::Number(9)], &mut env, 1),
        Ok(Value::Number(4))
    );
    assert_eq!(env.nesting(), 0);
}
