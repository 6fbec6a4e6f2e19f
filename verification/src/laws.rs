//! Laws that tie the lexer, the parser, the printer and the evaluator
//! together, each proved from the definitions of the other modules.

use vstd::prelude::*;
use crate::ast::ExprView;
use crate::env::def_name;
use crate::env::define;
use crate::env::enter;
use crate::env::id_name;
use crate::env::leave;
use crate::env::let_name;
use crate::env::lookup;
use crate::env::plus_name;
use crate::env::scope_name;
use crate::env::EnvView;
use crate::error::Error;
use crate::error::EvalError;
use crate::error::LexError;
use crate::error::ParseError;
use crate::eval::all_idents;
use crate::eval::apply_macro;
use crate::eval::apply_native;
use crate::eval::apply_user;
use crate::eval::bind_params;
use crate::eval::eval_each;
use crate::eval::eval_expr;
use crate::eval::ident_names;
use crate::eval::lemma_apply_macro_keeps_outer_frames;
use crate::eval::lemma_eval_keeps_outer_frames;
use crate::eval::run;
use crate::eval::sum_from;
use crate::lexer::lemma_lex_advances;
use crate::lexer::lex;
use crate::lexer::token_start;
use crate::scan::in_class;
use crate::scan::is_digit;
use crate::scan::lemma_run_end_is;
use crate::scan::ByteClass;
use crate::scan::QUOTE;
use crate::parser::parse_arguments;
use crate::parser::parse_call;
use crate::parser::parse_callee;
use crate::parser::parse_form;
use crate::parser::parse_items;
use crate::parser::parse_unit;
use crate::token::TokenView;
use crate::bytes::lemma_digits_denote;
use crate::value::render;
use crate::value::NativeFunction;
use crate::value::NativeMacro;
use crate::value::ValueView;

verus! {

/// A call of the sum function with two number literals evaluates to their
/// sum, and leaves the environment as it was: for every pair of numbers
/// whose sum fits the integer type, under every name that the function is
/// bound to, at every depth that allows the call and its arguments.
pub proof fn law_plus_adds_two_literals(name: Seq<u8>, a: i32, b: i32, env: EnvView, depth: nat)
    requires
        lookup(env, name) == Some(ValueView::NativeFunction(NativeFunction::Plus)),
        i32::MIN <= a + b <= i32::MAX,
        depth >= 2,
    ensures
        eval_expr(
            ExprView::Call {
                func_name: name,
                arguments: seq![ExprView::Number(a), ExprView::Number(b)],
                is_macro: false,
            },
            env,
            depth,
        ) == (Ok::<ValueView, EvalError>(ValueView::Number((a + b) as i32)), env),
{
    let arguments = seq![ExprView::Number(a), ExprView::Number(b)];
    let values = seq![ValueView::Number(a), ValueView::Number(b)];
    let inner = (depth - 1) as nat;
    reveal_with_fuel(eval_each, 3);
    assert(eval_expr(arguments[0], env, inner).0 == Ok::<ValueView, EvalError>(values[0]));
    assert(eval_expr(arguments[1], env, inner).0 == Ok::<ValueView, EvalError>(values[1]));
    assert(Seq::<ValueView>::empty().push(values[0]).push(values[1]) =~= values);
    assert(eval_each(arguments, 0, Seq::empty(), env, inner) == (
        Ok::<Seq<ValueView>, EvalError>(values),
        env,
    ));
    reveal_with_fuel(sum_from, 3);
    assert(apply_native(NativeFunction::Plus, values) == Ok::<ValueView, EvalError>(
        ValueView::Number((a + b) as i32),
    ));
}

/// The sum of the first `count` numbers.
pub open spec fn total(numbers: Seq<i32>, count: int) -> int
    decreases count,
{
    if count <= 0 {
        0
    } else {
        total(numbers, count - 1) + numbers[count - 1]
    }
}

/// The literals of a sequence of numbers, in order.
pub open spec fn number_exprs(numbers: Seq<i32>) -> Seq<ExprView> {
    Seq::new(numbers.len(), |i: int| ExprView::Number(numbers[i]))
}

/// The values of a sequence of numbers, in order.
pub open spec fn number_values(numbers: Seq<i32>) -> Seq<ValueView> {
    Seq::new(numbers.len(), |i: int| ValueView::Number(numbers[i]))
}

/// Adding up from a place on gives the sum of all the numbers, where what
/// has been added so far is the sum of the numbers before that place and
/// every sum on the way fits the integer type.
pub proof fn lemma_sum_from_is_total(numbers: Seq<i32>, from: int)
    requires
        0 <= from <= numbers.len(),
        forall|count: int|
            0 <= count <= numbers.len() ==> i32::MIN <= #[trigger] total(numbers, count)
                <= i32::MAX,
    ensures
        sum_from(number_values(numbers), from, total(numbers, from)) == Ok::<
            ValueView,
            EvalError,
        >(ValueView::Number(total(numbers, numbers.len() as int) as i32)),
    decreases numbers.len() - from,
{
    if from < numbers.len() {
        assert(total(numbers, from + 1) == total(numbers, from) + numbers[from]);
        assert(i32::MIN <= total(numbers, from + 1) <= i32::MAX);
        lemma_sum_from_is_total(numbers, from + 1);
    }
}

/// A call of the sum function with any number of number literals evaluates
/// to their sum, and leaves the environment as it was, where every sum on
/// the way from the left fits the integer type. Without a literal the sum
/// is zero.
pub proof fn law_plus_adds_all_literals(
    name: Seq<u8>,
    numbers: Seq<i32>,
    env: EnvView,
    depth: nat,
)
    requires
        lookup(env, name) == Some(ValueView::NativeFunction(NativeFunction::Plus)),
        forall|count: int|
            0 <= count <= numbers.len() ==> i32::MIN <= #[trigger] total(numbers, count)
                <= i32::MAX,
        depth >= 2,
    ensures
        eval_expr(
            ExprView::Call {
                func_name: name,
                arguments: number_exprs(numbers),
                is_macro: false,
            },
            env,
            depth,
        ) == (
            Ok::<ValueView, EvalError>(
                ValueView::Number(total(numbers, numbers.len() as int) as i32),
            ),
            env,
        ),
{
    let values = number_values(numbers);
    assert(literal_exprs(values) =~= number_exprs(numbers));
    lemma_eval_each_literal(values, 0, Seq::empty(), env, (depth - 1) as nat);
    assert(Seq::<ValueView>::empty() + values.subrange(0, values.len() as int) =~= values);
    lemma_sum_from_is_total(numbers, 0);
}

/// The depth only limits an evaluation: one that does not run out of depth
/// gives the same value, or fails in the same way, and leaves the same
/// environment at every greater depth.
pub proof fn law_depth_only_limits(expr: ExprView, env: EnvView, depth: nat, greater: nat)
    requires
        depth <= greater,
        eval_expr(expr, env, depth).0 != Err::<ValueView, EvalError>(EvalError::DepthExceeded),
    ensures
        eval_expr(expr, env, greater) == eval_expr(expr, env, depth),
    decreases depth, 0int, 0int,
{
    if depth > 0 {
        let inner = (depth - 1) as nat;
        let more = (greater - 1) as nat;
        match expr {
            ExprView::Array(items) => {
                lemma_depth_only_limits_each(items, 0, Seq::empty(), env, inner, more);
            },
            ExprView::Call { func_name, arguments, is_macro } => {
                if is_macro {
                    if let Some(ValueView::NativeMacro(native)) = lookup(env, func_name) {
                        lemma_depth_only_limits_macro(native, arguments, env, inner, more);
                    }
                } else {
                    lemma_depth_only_limits_each(arguments, 0, Seq::empty(), env, inner, more);
                    let (values, after) = eval_each(arguments, 0, Seq::empty(), env, inner);
                    if let Ok(values) = values {
                        if let Some(ValueView::UserFunction { params, body }) = lookup(
                            after,
                            func_name,
                        ) {
                            lemma_depth_only_limits_user(params, body, values, after, inner, more);
                        }
                    }
                }
            },
            _ => {},
        }
    }
}

/// The same of the evaluation of a sequence of expressions.
pub proof fn lemma_depth_only_limits_each(
    exprs: Seq<ExprView>,
    from: int,
    done: Seq<ValueView>,
    env: EnvView,
    depth: nat,
    greater: nat,
)
    requires
        depth <= greater,
        eval_each(exprs, from, done, env, depth).0 != Err::<Seq<ValueView>, EvalError>(
            EvalError::DepthExceeded,
        ),
    ensures
        eval_each(exprs, from, done, env, greater) == eval_each(exprs, from, done, env, depth),
    decreases depth, 1int, exprs.len() - from,
{
    if 0 <= from < exprs.len() {
        law_depth_only_limits(exprs[from], env, depth, greater);
        let (value, after) = eval_expr(exprs[from], env, depth);
        if let Ok(value) = value {
            lemma_depth_only_limits_each(exprs, from + 1, done.push(value), after, depth, greater);
        }
    }
}

/// The same of a call of a user-defined function.
pub proof fn lemma_depth_only_limits_user(
    params: Seq<Seq<u8>>,
    body: ExprView,
    arguments: Seq<ValueView>,
    env: EnvView,
    depth: nat,
    greater: nat,
)
    requires
        depth <= greater,
        apply_user(params, body, arguments, env, depth).0 != Err::<ValueView, EvalError>(
            EvalError::DepthExceeded,
        ),
    ensures
        apply_user(params, body, arguments, env, greater) == apply_user(
            params,
            body,
            arguments,
            env,
            depth,
        ),
    decreases depth, 2int, 0int,
{
    if arguments.len() >= params.len() {
        law_depth_only_limits(
            body,
            env.push(bind_params(params, arguments, params.len() as int)),
            depth,
            greater,
        );
    }
}

/// The same of a native macro.
pub proof fn lemma_depth_only_limits_macro(
    native: NativeMacro,
    arguments: Seq<ExprView>,
    env: EnvView,
    depth: nat,
    greater: nat,
)
    requires
        depth <= greater,
        apply_macro(native, arguments, env, depth).0 != Err::<ValueView, EvalError>(
            EvalError::DepthExceeded,
        ),
    ensures
        apply_macro(native, arguments, env, greater) == apply_macro(
            native,
            arguments,
            env,
            depth,
        ),
    decreases depth, 2int, 0int,
{
    match native {
        NativeMacro::Let => {
            if arguments.len() >= 2 && arguments[0] is Ident {
                law_depth_only_limits(arguments[1], env, depth, greater);
            }
        },
        NativeMacro::Def => {},
        NativeMacro::Scope => {
            lemma_depth_only_limits_each(arguments, 0, Seq::empty(), enter(env), depth, greater);
        },
    }
}

/// What is defined is found: after a definition the name is bound to the
/// value, and every other name is bound as before.
pub proof fn law_define_then_lookup(env: EnvView, name: Seq<u8>, value: ValueView, other: Seq<u8>)
    requires
        env.len() >= 1,
    ensures
        lookup(define(env, name, value), name) == Some(value),
        other != name ==> lookup(define(env, name, value), other) == lookup(env, other),
{
    let after = define(env, name, value);
    assert(after.drop_last() =~= env.drop_last());
}

/// A `let` of a number binds it: the form evaluates to the number, and the
/// name evaluates to the number in the environment that the form left.
pub proof fn law_let_binds_in_the_same_scope(name: Seq<u8>, n: i32, env: EnvView, depth: nat)
    requires
        env.len() >= 1,
        lookup(env, let_name()) == Some(ValueView::NativeMacro(NativeMacro::Let)),
        depth >= 2,
    ensures
        ({
            let form = ExprView::Call {
                func_name: let_name(),
                arguments: seq![
                    ExprView::Ident { name, is_bind_marker: false },
                    ExprView::Number(n),
                ],
                is_macro: true,
            };
            let (value, after) = eval_expr(form, env, depth);
            &&& value == Ok::<ValueView, EvalError>(ValueView::Number(n))
            &&& after == define(env, name, ValueView::Number(n))
            &&& eval_expr(ExprView::Ident { name, is_bind_marker: false }, after, depth) == (
                Ok::<ValueView, EvalError>(ValueView::Number(n)),
                after,
            )
        }),
{
    let arguments = seq![ExprView::Ident { name, is_bind_marker: false }, ExprView::Number(n)];
    let inner = (depth - 1) as nat;
    assert(arguments[0] is Ident);
    assert(eval_expr(arguments[1], env, inner) == (
        Ok::<ValueView, EvalError>(ValueView::Number(n)),
        env,
    ));
    assert(apply_macro(NativeMacro::Let, arguments, env, inner) == (
        Ok::<ValueView, EvalError>(ValueView::Number(n)),
        define(env, name, ValueView::Number(n)),
    ));
    law_define_then_lookup(env, name, ValueView::Number(n), name);
}

/// A function that is defined can be called: after the definition of a
/// function of one parameter whose body adds a number to the parameter, a
/// call of the function with a number evaluates to the sum of the two, and
/// leaves the environment as the definition left it.
///
/// The names of the function and of its parameter are any names but that
/// of the sum function: under that name the parameter, or the function
/// itself, would stand in the way of the sum function.
pub proof fn law_defined_function_is_called(
    function: Seq<u8>,
    param: Seq<u8>,
    added: i32,
    n: i32,
    env: EnvView,
    depth: nat,
)
    requires
        env.len() >= 1,
        lookup(env, def_name()) == Some(ValueView::NativeMacro(NativeMacro::Def)),
        lookup(env, plus_name()) == Some(ValueView::NativeFunction(NativeFunction::Plus)),
        function != plus_name(),
        param != plus_name(),
        i32::MIN <= n + added <= i32::MAX,
        depth >= 3,
    ensures
        ({
            let body = ExprView::Call {
                func_name: plus_name(),
                arguments: seq![
                    ExprView::Ident { name: param, is_bind_marker: false },
                    ExprView::Number(added),
                ],
                is_macro: false,
            };
            let definition = ExprView::Call {
                func_name: def_name(),
                arguments: seq![
                    ExprView::Ident { name: function, is_bind_marker: false },
                    ExprView::Ident { name: param, is_bind_marker: false },
                    body,
                ],
                is_macro: true,
            };
            let call = ExprView::Call {
                func_name: function,
                arguments: seq![ExprView::Number(n)],
                is_macro: false,
            };
            let (defined, after) = eval_expr(definition, env, depth);
            &&& defined == Ok::<ValueView, EvalError>(ValueView::Nil)
            &&& after == define(
                env,
                function,
                ValueView::UserFunction { params: seq![param], body },
            )
            &&& eval_expr(call, after, depth) == (
                Ok::<ValueView, EvalError>(ValueView::Number((n + added) as i32)),
                after,
            )
        }),
{
    let plain_param = ExprView::Ident { name: param, is_bind_marker: false };
    let body_arguments = seq![plain_param, ExprView::Number(added)];
    let body = ExprView::Call {
        func_name: plus_name(),
        arguments: body_arguments,
        is_macro: false,
    };
    let def_arguments = seq![
        ExprView::Ident { name: function, is_bind_marker: false },
        plain_param,
        body,
    ];
    let user = ValueView::UserFunction { params: seq![param], body };
    let after = define(env, function, user);
    // The definition.
    let middle = def_arguments.subrange(1, 2);
    assert(middle[0] == plain_param);
    assert(all_idents(middle));
    assert(ident_names(middle) =~= seq![param]);
    assert(def_arguments[0] is Ident);
    assert(apply_macro(NativeMacro::Def, def_arguments, env, (depth - 1) as nat) == (
        Ok::<ValueView, EvalError>(ValueView::Nil),
        after,
    ));
    // The call: its argument, then its callee.
    let inner = (depth - 1) as nat;
    let call_arguments = seq![ExprView::Number(n)];
    let values = seq![ValueView::Number(n)];
    reveal_with_fuel(eval_each, 3);
    assert(eval_expr(call_arguments[0], after, inner) == (
        Ok::<ValueView, EvalError>(values[0]),
        after,
    ));
    assert(Seq::<ValueView>::empty().push(values[0]) =~= values);
    assert(eval_each(call_arguments, 0, Seq::empty(), after, inner) == (
        Ok::<Seq<ValueView>, EvalError>(values),
        after,
    ));
    law_define_then_lookup(env, function, user, plus_name());
    assert(lookup(after, function) == Some(user));
    // The body, in the frame of the call.
    reveal_with_fuel(bind_params, 2);
    let frame = bind_params(seq![param], values, 1);
    assert(frame =~= Map::<Seq<u8>, ValueView>::empty().insert(param, ValueView::Number(n)));
    let inside = after.push(frame);
    assert(inside.drop_last() =~= after);
    assert(lookup(inside, param) == Some(ValueView::Number(n)));
    assert(lookup(inside, plus_name()) == lookup(after, plus_name()));
    lemma_plus_adds_name_and_literal(param, n, added, inside, inner);
    assert(leave(inside) =~= after);
}

/// The sum function adds a name that is bound to a number and a number
/// literal.
proof fn lemma_plus_adds_name_and_literal(
    param: Seq<u8>,
    n: i32,
    added: i32,
    env: EnvView,
    depth: nat,
)
    requires
        lookup(env, plus_name()) == Some(ValueView::NativeFunction(NativeFunction::Plus)),
        lookup(env, param) == Some(ValueView::Number(n)),
        i32::MIN <= n + added <= i32::MAX,
        depth >= 2,
    ensures
        eval_expr(
            ExprView::Call {
                func_name: plus_name(),
                arguments: seq![
                    ExprView::Ident { name: param, is_bind_marker: false },
                    ExprView::Number(added),
                ],
                is_macro: false,
            },
            env,
            depth,
        ) == (Ok::<ValueView, EvalError>(ValueView::Number((n + added) as i32)), env),
{
    let arguments = seq![
        ExprView::Ident { name: param, is_bind_marker: false },
        ExprView::Number(added),
    ];
    let values = seq![ValueView::Number(n), ValueView::Number(added)];
    let inner = (depth - 1) as nat;
    reveal_with_fuel(eval_each, 3);
    assert(eval_expr(arguments[0], env, inner) == (Ok::<ValueView, EvalError>(values[0]), env));
    assert(eval_expr(arguments[1], env, inner) == (Ok::<ValueView, EvalError>(values[1]), env));
    assert(Seq::<ValueView>::empty().push(values[0]).push(values[1]) =~= values);
    assert(eval_each(arguments, 0, Seq::empty(), env, inner) == (
        Ok::<Seq<ValueView>, EvalError>(values),
        env,
    ));
    reveal_with_fuel(sum_from, 3);
    assert(apply_native(NativeFunction::Plus, values) == Ok::<ValueView, EvalError>(
        ValueView::Number((n + added) as i32),
    ));
}

/// A scope evaluates its forms in order, each in the frame that the ones
/// before it left, and returns the value of the last: a scope that binds a
/// name to a number, binds it again to the sum of the name and a second
/// number, and ends with the name evaluates to the sum of the two numbers,
/// and leaves the environment as it was.
///
/// The name is any name but those of the sum function and of `let`, which
/// the forms of the scope have to find.
pub proof fn law_scope_runs_in_order(name: Seq<u8>, a: i32, b: i32, env: EnvView, depth: nat)
    requires
        env.len() >= 1,
        lookup(env, scope_name()) == Some(ValueView::NativeMacro(NativeMacro::Scope)),
        lookup(env, let_name()) == Some(ValueView::NativeMacro(NativeMacro::Let)),
        lookup(env, plus_name()) == Some(ValueView::NativeFunction(NativeFunction::Plus)),
        name != let_name(),
        name != plus_name(),
        i32::MIN <= a + b <= i32::MAX,
        depth >= 4,
    ensures
        ({
            let plain = ExprView::Ident { name, is_bind_marker: false };
            let first = ExprView::Call {
                func_name: let_name(),
                arguments: seq![plain, ExprView::Number(a)],
                is_macro: true,
            };
            let sum = ExprView::Call {
                func_name: plus_name(),
                arguments: seq![plain, ExprView::Number(b)],
                is_macro: false,
            };
            let second = ExprView::Call {
                func_name: let_name(),
                arguments: seq![plain, sum],
                is_macro: true,
            };
            let scope = ExprView::Call {
                func_name: scope_name(),
                arguments: seq![first, second, plain],
                is_macro: true,
            };
            eval_expr(scope, env, depth) == (
                Ok::<ValueView, EvalError>(ValueView::Number((a + b) as i32)),
                env,
            )
        }),
{
    let plain = ExprView::Ident { name, is_bind_marker: false };
    let first_arguments = seq![plain, ExprView::Number(a)];
    let first = ExprView::Call {
        func_name: let_name(),
        arguments: first_arguments,
        is_macro: true,
    };
    let sum = ExprView::Call {
        func_name: plus_name(),
        arguments: seq![plain, ExprView::Number(b)],
        is_macro: false,
    };
    let second_arguments = seq![plain, sum];
    let second = ExprView::Call {
        func_name: let_name(),
        arguments: second_arguments,
        is_macro: true,
    };
    let forms = seq![first, second, plain];
    let inner = (depth - 1) as nat;
    let innermost = (depth - 2) as nat;
    let va = ValueView::Number(a);
    let vs = ValueView::Number((a + b) as i32);
    // The frame of the scope.
    let entered = enter(env);
    assert(entered.drop_last() =~= env);
    assert(lookup(entered, let_name()) == lookup(env, let_name()));
    assert(lookup(entered, plus_name()) == lookup(env, plus_name()));
    // The first form.
    law_let_binds_in_the_same_scope(name, a, entered, inner);
    let bound = define(entered, name, va);
    assert(eval_expr(first, entered, inner) == (Ok::<ValueView, EvalError>(va), bound));
    // The second form.
    law_define_then_lookup(entered, name, va, let_name());
    law_define_then_lookup(entered, name, va, plus_name());
    lemma_plus_adds_name_and_literal(name, a, b, bound, innermost);
    assert(second_arguments[0] is Ident);
    assert(eval_expr(second_arguments[1], bound, innermost) == (
        Ok::<ValueView, EvalError>(vs),
        bound,
    ));
    let rebound = define(bound, name, vs);
    assert(apply_macro(NativeMacro::Let, second_arguments, bound, innermost) == (
        Ok::<ValueView, EvalError>(vs),
        rebound,
    ));
    assert(eval_expr(second, bound, inner) == (Ok::<ValueView, EvalError>(vs), rebound));
    // The last form.
    law_define_then_lookup(bound, name, vs, name);
    assert(eval_expr(plain, rebound, inner) == (Ok::<ValueView, EvalError>(vs), rebound));
    // The three in order.
    reveal_with_fuel(eval_each, 4);
    let values = seq![va, vs, vs];
    assert(Seq::<ValueView>::empty().push(va).push(vs).push(vs) =~= values);
    assert(eval_each(forms, 0, Seq::empty(), entered, inner) == (
        Ok::<Seq<ValueView>, EvalError>(values),
        rebound,
    ));
    assert(leave(rebound) =~= env);
}

/// What a scope binds ends with the scope: whatever its forms are and
/// whether or not one of them fails, the environment is afterwards as it was
/// before.
pub proof fn law_scope_keeps_its_bindings(
    name: Seq<u8>,
    forms: Seq<ExprView>,
    env: EnvView,
    depth: nat,
)
    requires
        env.len() >= 1,
        lookup(env, name) == Some(ValueView::NativeMacro(NativeMacro::Scope)),
        depth >= 1,
    ensures
        eval_expr(
            ExprView::Call { func_name: name, arguments: forms, is_macro: true },
            env,
            depth,
        ).1 == env,
{
    lemma_apply_macro_keeps_outer_frames(NativeMacro::Scope, forms, env, (depth - 1) as nat);
}

/// Scopes that stand side by side share nothing: a name that is unbound
/// before a scope is unbound in the scope that follows it, whatever the
/// first scope has bound.
pub proof fn law_sibling_scopes_share_nothing(
    name: Seq<u8>,
    forms: Seq<ExprView>,
    env: EnvView,
    depth: nat,
)
    requires
        env.len() >= 1,
        lookup(env, scope_name()) == Some(ValueView::NativeMacro(NativeMacro::Scope)),
        lookup(env, name) is None,
        depth >= 2,
    ensures
        ({
            let first = ExprView::Call {
                func_name: scope_name(),
                arguments: forms,
                is_macro: true,
            };
            let second = ExprView::Call {
                func_name: scope_name(),
                arguments: seq![ExprView::Ident { name, is_bind_marker: false }],
                is_macro: true,
            };
            let after = eval_expr(first, env, depth).1;
            eval_expr(second, after, depth) == (
                Err::<ValueView, EvalError>(EvalError::UnboundName),
                after,
            )
        }),
{
    law_scope_keeps_its_bindings(scope_name(), forms, env, depth);
    let plain = ExprView::Ident { name, is_bind_marker: false };
    let inner = (depth - 1) as nat;
    let entered = enter(env);
    assert(entered.drop_last() =~= env);
    assert(lookup(entered, name) is None);
    assert(eval_expr(plain, entered, inner) == (
        Err::<ValueView, EvalError>(EvalError::UnboundName),
        entered,
    ));
    assert(eval_each(seq![plain], 0, Seq::empty(), entered, inner) == (
        Err::<Seq<ValueView>, EvalError>(EvalError::UnboundName),
        entered,
    ));
    assert(leave(entered) =~= env);
}

/// An evaluation changes no frame but the innermost one, and neither adds
/// nor drops a frame: a definition never reaches an outer frame.
pub proof fn law_outer_frames_are_kept(expr: ExprView, env: EnvView, depth: nat)
    requires
        env.len() >= 1,
    ensures
        eval_expr(expr, env, depth).1.len() == env.len(),
        eval_expr(expr, env, depth).1.drop_last() == env.drop_last(),
{
    lemma_eval_keeps_outer_frames(expr, env, depth);
}

/// Whether an expression is a leaf that an array literal can hold: a
/// number, a string, or an identifier without the bind sigil.
pub open spec fn is_array_item(expr: ExprView) -> bool {
    match expr {
        ExprView::Number(_) => true,
        ExprView::StringLit(_) => true,
        ExprView::Ident { is_bind_marker, .. } => !is_bind_marker,
        _ => false,
    }
}

/// Array literals do not nest: every item of an array literal that the
/// parser accepts is a number, a string or a plain identifier.
pub proof fn law_array_literals_hold_leaves(text: Seq<u8>, pos: int, read: Seq<ExprView>)
    requires
        forall|i: int| 0 <= i < read.len() ==> is_array_item(#[trigger] read[i]),
    ensures
        parse_items(text, pos, read).0 matches Ok(items) ==> forall|i: int|
            0 <= i < items.len() ==> is_array_item(#[trigger] items[i]),
    decreases text.len() - pos,
{
    lemma_lex_advances(text, pos);
    let (token, after) = lex(text, pos);
    match token {
        Ok(Some(TokenView::StringLit(s))) => law_array_literals_hold_leaves(
            text,
            after,
            read.push(ExprView::StringLit(s)),
        ),
        Ok(Some(TokenView::Ident(name))) => law_array_literals_hold_leaves(
            text,
            after,
            read.push(ExprView::Ident { name, is_bind_marker: false }),
        ),
        Ok(Some(TokenView::Number(n))) => law_array_literals_hold_leaves(
            text,
            after,
            read.push(ExprView::Number(n)),
        ),
        _ => {},
    }
}

/// Whether a value is one whose printed form can be read back: a number
/// that is not negative, or a string that holds no double quote.
pub open spec fn reads_back(value: ValueView) -> bool {
    match value {
        ValueView::Number(n) => n >= 0,
        ValueView::StringVal(s) => forall|i: int| 0 <= i < s.len() ==> #[trigger] s[i] != QUOTE,
        _ => false,
    }
}

/// The token that the printed form of such a value is.
pub open spec fn literal_token(value: ValueView) -> TokenView {
    match value {
        ValueView::StringVal(s) => TokenView::StringLit(s),
        ValueView::Number(n) => TokenView::Number(n),
        _ => arbitrary(),
    }
}

/// The expression that the printed form of such a value is.
pub open spec fn literal_expr(value: ValueView) -> ExprView {
    match value {
        ValueView::StringVal(s) => ExprView::StringLit(s),
        ValueView::Number(n) => ExprView::Number(n),
        _ => arbitrary(),
    }
}

/// Whether a value is a number or a string: what a literal evaluates to.
pub open spec fn is_literal_value(value: ValueView) -> bool {
    value is Number || value is StringVal
}

/// The literals of a sequence of numbers and strings, in order.
pub open spec fn literal_exprs(values: Seq<ValueView>) -> Seq<ExprView> {
    Seq::new(values.len(), |i: int| literal_expr(values[i]))
}

/// Literals evaluate to their values from left to right, and leave the
/// environment as it was.
pub proof fn lemma_eval_each_literal(
    values: Seq<ValueView>,
    from: int,
    done: Seq<ValueView>,
    env: EnvView,
    depth: nat,
)
    requires
        forall|i: int| 0 <= i < values.len() ==> is_literal_value(#[trigger] values[i]),
        0 <= from <= values.len(),
        depth >= 1,
    ensures
        eval_each(literal_exprs(values), from, done, env, depth) == (
            Ok::<Seq<ValueView>, EvalError>(done + values.subrange(from, values.len() as int)),
            env,
        ),
    decreases values.len() - from,
{
    let rest = values.subrange(from, values.len() as int);
    if from < values.len() {
        assert(is_literal_value(values[from]));
        assert(eval_expr(literal_exprs(values)[from], env, depth) == (
            Ok::<ValueView, EvalError>(values[from]),
            env,
        ));
        lemma_eval_each_literal(values, from + 1, done.push(values[from]), env, depth);
        assert(done.push(values[from]) + values.subrange(from + 1, values.len() as int) =~= done
            + rest);
    } else {
        assert(done + rest =~= done);
    }
}

/// An array of literals evaluates to the array of their values, in the
/// order in which they stand, and leaves the environment as it was.
pub proof fn law_array_keeps_order(values: Seq<ValueView>, env: EnvView, depth: nat)
    requires
        forall|i: int| 0 <= i < values.len() ==> is_literal_value(#[trigger] values[i]),
        depth >= 2,
    ensures
        eval_expr(ExprView::Array(literal_exprs(values)), env, depth) == (
            Ok::<ValueView, EvalError>(ValueView::Array(values)),
            env,
        ),
{
    lemma_eval_each_literal(values, 0, Seq::empty(), env, (depth - 1) as nat);
    assert(Seq::<ValueView>::empty() + values.subrange(0, values.len() as int) =~= values);
}

/// Where a text holds the printed form of a value that reads back, and no
/// digit follows the form of a number, the lexer reads the form as one
/// token, the literal of the value, and stands behind it afterwards.
pub proof fn lemma_lex_printed_form(text: Seq<u8>, pos: int, value: ValueView)
    requires
        reads_back(value),
        0 <= pos,
        pos + render(value).len() <= text.len(),
        text.subrange(pos, pos + render(value).len()) == render(value),
        pos + render(value).len() < text.len() ==> !is_digit(text[pos + render(value).len()]),
    ensures
        lex(text, pos) == (
            Ok::<Option<TokenView>, LexError>(Some(literal_token(value))),
            pos + render(value).len(),
        ),
{
    let form = render(value);
    let end = pos + form.len();
    assert forall|i: int| pos <= i < end implies text[i] == form[i - pos] by {
        assert(text.subrange(pos, end)[i - pos] == text[i]);
    }
    match value {
        ValueView::Number(n) => {
            lemma_digits_denote(n as nat);
            assert(text[pos] == form[0]);
            assert(token_start(text, pos) == pos);
            assert forall|i: int| pos <= i < end implies in_class(
                ByteClass::Digit,
                #[trigger] text[i],
            ) by {
                assert(is_digit(form[i - pos]));
            }
            lemma_run_end_is(text, pos, end, ByteClass::Digit);
        },
        ValueView::StringVal(s) => {
            assert(form.len() == s.len() + 2);
            assert(text[pos] == form[0]);
            assert(token_start(text, pos) == pos);
            assert forall|i: int| pos + 1 <= i < end - 1 implies in_class(
                ByteClass::StringBody,
                #[trigger] text[i],
            ) by {
                assert(text[i] == form[i - pos]);
                assert(form[i - pos] == s[i - pos - 1]);
            }
            assert(text[end - 1] == form[form.len() - 1]);
            lemma_run_end_is(text, pos + 1, end - 1, ByteClass::StringBody);
            assert(text.subrange(pos + 1, end - 1) =~= s);
        },
        _ => {},
    }
}

/// The printed form of a number that is not negative, or of a string that
/// holds no double quote, is one token: the literal of the value.
pub proof fn law_printed_form_lexes_back(value: ValueView)
    requires
        reads_back(value),
    ensures
        lex(render(value), 0) == (
            Ok::<Option<TokenView>, LexError>(Some(literal_token(value))),
            render(value).len() as int,
        ),
{
    let form = render(value);
    assert(form.subrange(0, form.len() as int) =~= form);
    lemma_lex_printed_form(form, 0, value);
}

/// The text of a call of the identity function on one argument, the
/// argument given as text: `(id `, the argument, `)`.
pub open spec fn id_call_text(argument: Seq<u8>) -> Seq<u8> {
    seq!['(' as u8] + id_name() + seq![' ' as u8] + argument + seq![')' as u8]
}

/// The call of the identity function on the literal of a value.
pub open spec fn id_call(value: ValueView) -> ExprView {
    ExprView::Call {
        func_name: id_name(),
        arguments: seq![literal_expr(value)],
        is_macro: false,
    }
}

/// A text that starts with the call of the identity function on the printed
/// form of a value that reads back holds that call as its first form,
/// whatever follows it.
pub proof fn lemma_parse_id_call(text: Seq<u8>, value: ValueView)
    requires
        reads_back(value),
        id_call_text(render(value)).len() <= text.len(),
        text.subrange(0, id_call_text(render(value)).len() as int) == id_call_text(render(value)),
    ensures
        parse_form(text, 0) == (
            Ok::<ExprView, ParseError>(id_call(value)),
            id_call_text(render(value)).len() as int,
        ),
{
    let form = render(value);
    let written = id_call_text(form);
    let end = 4 + form.len() as int;
    assert forall|i: int| 0 <= i < written.len() implies text[i] == written[i] by {
        assert(text.subrange(0, written.len() as int)[i] == text[i]);
    }
    // The opening parenthesis.
    assert(text[0] == '(' as u8);
    assert(token_start(text, 0) == 0);
    assert(lex(text, 0) == (Ok::<Option<TokenView>, LexError>(Some(TokenView::LeftParen)), 1int));
    // The callee.
    assert(text[1] == 'i' as u8 && text[2] == 'd' as u8 && text[3] == ' ' as u8);
    assert(token_start(text, 1) == 1);
    lemma_run_end_is(text, 1, 3, ByteClass::Alphanumeric);
    assert(text.subrange(1, 3) =~= id_name());
    assert(lex(text, 1) == (
        Ok::<Option<TokenView>, LexError>(Some(TokenView::Ident(id_name()))),
        3int,
    ));
    assert(parse_callee(text, 1) == (
        Ok::<(Seq<u8>, bool), ParseError>((id_name(), false)),
        3int,
    ));
    // The argument.
    assert(text.subrange(4, end) =~= form) by {
        assert forall|i: int| 0 <= i < form.len() implies text[4 + i] == form[i] by {
            assert(written[4 + i] == form[i]);
        }
    }
    assert(text[end] == ')' as u8) by {
        assert(written[end] == ')' as u8);
    }
    lemma_lex_printed_form(text, 4, value);
    assert(form.len() >= 1 && !in_class(ByteClass::Blank, text[4])) by {
        assert(text[4] == form[0]);
        if let ValueView::Number(n) = value {
            lemma_digits_denote(n as nat);
        }
    }
    lemma_run_end_is(text, 3, 4, ByteClass::Blank);
    assert(token_start(text, 3) == token_start(text, 4));
    assert(lex(text, 3) == lex(text, 4));
    // The closing parenthesis.
    assert(token_start(text, end) == end);
    assert(lex(text, end) == (
        Ok::<Option<TokenView>, LexError>(Some(TokenView::RightParen)),
        end + 1,
    ));
    let argument = literal_expr(value);
    let arguments = seq![argument];
    assert(Seq::<ExprView>::empty().push(argument) =~= arguments);
    assert(parse_arguments(text, end, arguments) == (
        Ok::<Seq<ExprView>, ParseError>(arguments),
        end + 1,
    ));
    assert(parse_arguments(text, 3, Seq::empty()) == (
        Ok::<Seq<ExprView>, ParseError>(arguments),
        end + 1,
    ));
    assert(parse_call(text, 1) == (Ok::<ExprView, ParseError>(id_call(value)), end + 1));
}

/// The call of the identity function on a literal evaluates to the value of
/// the literal, and leaves the environment as it was.
pub proof fn lemma_eval_id_call(value: ValueView, env: EnvView, depth: nat)
    requires
        is_literal_value(value),
        lookup(env, id_name()) == Some(ValueView::NativeFunction(NativeFunction::Id)),
        depth >= 2,
    ensures
        eval_expr(id_call(value), env, depth) == (Ok::<ValueView, EvalError>(value), env),
{
    let argument = literal_expr(value);
    let arguments = seq![argument];
    let inner = (depth - 1) as nat;
    reveal_with_fuel(eval_each, 2);
    assert(eval_expr(argument, env, inner) == (Ok::<ValueView, EvalError>(value), env));
    assert(Seq::<ValueView>::empty().push(value) =~= seq![value]);
    assert(eval_each(arguments, 0, Seq::empty(), env, inner) == (
        Ok::<Seq<ValueView>, EvalError>(seq![value]),
        env,
    ));
}

/// The printed form of a number that is not negative, or of a string that
/// holds no double quote, reads back: given as the argument of the identity
/// function, it is parsed as the literal of the value and evaluates to the
/// value, in every environment that binds `id` to that function, at every
/// depth that allows the call and its argument.
///
/// The grammar has no form but the call, so the printed form is read in the
/// place of an argument.
pub proof fn law_printed_form_reads_back(value: ValueView, env: EnvView, depth: nat)
    requires
        reads_back(value),
        lookup(env, id_name()) == Some(ValueView::NativeFunction(NativeFunction::Id)),
        depth >= 2,
    ensures
        parse_unit(id_call_text(render(value)), 0) == (
            Ok::<ExprView, ParseError>(id_call(value)),
            id_call_text(render(value)).len() as int,
        ),
        run(id_call_text(render(value)), env, depth) == (Ok::<ValueView, Error>(value), env),
{
    let text = id_call_text(render(value));
    assert(text.subrange(0, text.len() as int) =~= text);
    lemma_parse_id_call(text, value);
    // Nothing stands behind the form.
    assert(token_start(text, text.len() as int) == text.len());
    assert(lex(text, text.len() as int).0 == Ok::<Option<TokenView>, LexError>(None));
    lemma_eval_id_call(value, env, depth);
}

/// A closing parenthesis that stands behind a form closes nothing: a unit of
/// input that holds one is refused, whatever its form is, and running it
/// leaves the environment as it was.
pub proof fn law_closing_parenthesis_behind_a_form_is_refused(
    text: Seq<u8>,
    env: EnvView,
    depth: nat,
)
    requires
        parse_form(text, 0).0 is Ok,
        lex(text, parse_form(text, 0).1).0 == Ok::<Option<TokenView>, LexError>(
            Some(TokenView::RightParen),
        ),
    ensures
        parse_unit(text, 0).0 == Err::<ExprView, ParseError>(ParseError::UnexpectedToken),
        run(text, env, depth) == (
            Err::<ValueView, Error>(Error::Parse(ParseError::UnexpectedToken)),
            env,
        ),
{
}

/// So it is with the call of the identity function on the printed form of a
/// value and one closing parenthesis more, as in `(id 1))`: the call alone
/// evaluates to the value, and with the second parenthesis it is refused.
pub proof fn law_second_closing_parenthesis_is_refused(
    value: ValueView,
    env: EnvView,
    depth: nat,
)
    requires
        reads_back(value),
    ensures
        run(id_call_text(render(value)) + seq![')' as u8], env, depth) == (
            Err::<ValueView, Error>(Error::Parse(ParseError::UnexpectedToken)),
            env,
        ),
{
    let written = id_call_text(render(value));
    let text = written + seq![')' as u8];
    assert(text.subrange(0, written.len() as int) =~= written);
    lemma_parse_id_call(text, value);
    let end = written.len() as int;
    assert(text[end] == ')' as u8);
    assert(token_start(text, end) == end);
    assert(lex(text, end).0 == Ok::<Option<TokenView>, LexError>(Some(TokenView::RightParen)));
    law_closing_parenthesis_behind_a_form_is_refused(text, env, depth);
}

} // verus!
