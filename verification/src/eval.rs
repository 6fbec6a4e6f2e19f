//! The evaluator: the reduction of an expression to a value against an
//! environment.
//!
//! `eval_expr` and its companions say what an expression evaluates to and
//! what the evaluation makes of the environment; `eval` computes it.
//!
//! Evaluation is recursive, and a user-defined function may call itself
//! without end, so every evaluation is given a depth: the number of nested
//! evaluations that it may use. An evaluation that would nest deeper fails
//! with `EvalError::DepthExceeded`.

use vstd::prelude::*;
use crate::bytes::copy_bytes;
use crate::ast::Expr;
use crate::ast::ExprView;
use crate::ast::exprs_view;
use crate::env::define;
use crate::env::enter;
use crate::env::leave;
use crate::env::lookup;
use crate::env::Env;
use crate::env::EnvView;
use crate::env::FrameView;
use crate::error::Error;
use crate::error::EvalError;
use crate::parser::parse;
use crate::parser::parse_unit;
use crate::value::lemma_values_view_push;
use crate::value::names_view;
use crate::value::values_view;
use crate::value::NativeFunction;
use crate::value::NativeMacro;
use crate::value::Value;
use crate::value::ValueView;

verus! {

/// The depth that `evaluate` gives an evaluation.
pub const DEFAULT_DEPTH: usize = 256;

/// The sum of the numbers in `values[from..]` added to `sum`, as long as
/// every item is a number and every partial sum fits the integer type; else
/// the error of the first item at which that fails.
pub open spec fn sum_from(values: Seq<ValueView>, from: int, sum: int) -> Result<
    ValueView,
    EvalError,
>
    decreases values.len() - from,
{
    if from < 0 || from >= values.len() {
        Ok(ValueView::Number(sum as i32))
    } else {
        match values[from] {
            ValueView::Number(n) => if i32::MIN <= sum + n <= i32::MAX {
                sum_from(values, from + 1, sum + n)
            } else {
                Err(EvalError::Overflow)
            },
            _ => Err(EvalError::TypeMismatch),
        }
    }
}

/// What a native function makes of its arguments.
pub open spec fn apply_native(function: NativeFunction, arguments: Seq<ValueView>) -> Result<
    ValueView,
    EvalError,
> {
    match function {
        NativeFunction::Plus => sum_from(arguments, 0, 0),
        NativeFunction::Id => if arguments.len() >= 1 {
            Ok(arguments[0])
        } else {
            Err(EvalError::TypeMismatch)
        },
    }
}

/// The frame in which the first `count` parameters are bound to the
/// arguments at their places. Of two parameters of one name the later wins.
pub open spec fn bind_params(
    params: Seq<Seq<u8>>,
    arguments: Seq<ValueView>,
    count: int,
) -> FrameView
    decreases count,
{
    if count <= 0 {
        Map::empty()
    } else {
        bind_params(params, arguments, count - 1).insert(params[count - 1], arguments[count - 1])
    }
}

/// Whether every expression of the sequence is an identifier.
pub open spec fn all_idents(exprs: Seq<ExprView>) -> bool {
    forall|i: int| 0 <= i < exprs.len() ==> #[trigger] exprs[i] is Ident
}

/// The names of a sequence of identifiers.
pub open spec fn ident_names(exprs: Seq<ExprView>) -> Seq<Seq<u8>> {
    Seq::new(exprs.len(), |i: int| exprs[i]->name)
}

/// The value of the last item of a sequence of values: `Nil` if it is empty.
pub open spec fn last_value(values: Seq<ValueView>) -> ValueView {
    if values.len() == 0 {
        ValueView::Nil
    } else {
        values.last()
    }
}

/// The value of `expr` in `env`, and the environment after the evaluation,
/// when `depth` nested evaluations may be used.
pub open spec fn eval_expr(expr: ExprView, env: EnvView, depth: nat) -> (
    Result<ValueView, EvalError>,
    EnvView,
)
    decreases depth, 0int, 0int,
{
    if depth == 0 {
        (Err(EvalError::DepthExceeded), env)
    } else {
        match expr {
            ExprView::Number(n) => (Ok(ValueView::Number(n)), env),
            ExprView::StringLit(s) => (Ok(ValueView::StringVal(s)), env),
            ExprView::Ident { name, is_bind_marker } => if is_bind_marker {
                (Ok(ValueView::StringVal(name)), env)
            } else {
                match lookup(env, name) {
                    Some(value) => (Ok(value), env),
                    None => (Err(EvalError::UnboundName), env),
                }
            },
            ExprView::Array(items) => {
                let (values, after) = eval_each(items, 0, Seq::empty(), env, (depth - 1) as nat);
                match values {
                    Ok(values) => (Ok(ValueView::Array(values)), after),
                    Err(e) => (Err(e), after),
                }
            },
            ExprView::Call { func_name, arguments, is_macro } => if is_macro {
                match lookup(env, func_name) {
                    Some(ValueView::NativeMacro(native)) => apply_macro(
                        native,
                        arguments,
                        env,
                        (depth - 1) as nat,
                    ),
                    Some(_) => (Err(EvalError::TypeMismatch), env),
                    None => (Err(EvalError::UnboundName), env),
                }
            } else {
                let (values, after) = eval_each(
                    arguments,
                    0,
                    Seq::empty(),
                    env,
                    (depth - 1) as nat,
                );
                match values {
                    Err(e) => (Err(e), after),
                    Ok(values) => match lookup(after, func_name) {
                        Some(ValueView::NativeFunction(native)) => (
                            apply_native(native, values),
                            after,
                        ),
                        Some(ValueView::UserFunction { params, body }) => apply_user(
                            params,
                            body,
                            values,
                            after,
                            (depth - 1) as nat,
                        ),
                        Some(_) => (Err(EvalError::TypeMismatch), after),
                        None => (Err(EvalError::UnboundName), after),
                    },
                }
            },
        }
    }
}

/// The values of `exprs[from..]`, evaluated from left to right, each in the
/// environment that the one before it left, appended to `done`; or the error
/// of the first expression that fails.
pub open spec fn eval_each(
    exprs: Seq<ExprView>,
    from: int,
    done: Seq<ValueView>,
    env: EnvView,
    depth: nat,
) -> (Result<Seq<ValueView>, EvalError>, EnvView)
    decreases depth, 1int, exprs.len() - from,
{
    if from < 0 || from >= exprs.len() {
        (Ok(done), env)
    } else {
        let (value, after) = eval_expr(exprs[from], env, depth);
        match value {
            Ok(value) => eval_each(exprs, from + 1, done.push(value), after, depth),
            Err(e) => (Err(e), after),
        }
    }
}

/// What a call of a user-defined function evaluates to: its body, in a fresh
/// frame that binds the parameters to the arguments at their places and is
/// nested in the environment of the call.
pub open spec fn apply_user(
    params: Seq<Seq<u8>>,
    body: ExprView,
    arguments: Seq<ValueView>,
    env: EnvView,
    depth: nat,
) -> (Result<ValueView, EvalError>, EnvView)
    decreases depth, 2int, 0int,
{
    if arguments.len() < params.len() {
        (Err(EvalError::TypeMismatch), env)
    } else {
        let (value, after) = eval_expr(
            body,
            env.push(bind_params(params, arguments, params.len() as int)),
            depth,
        );
        (value, leave(after))
    }
}

/// What a native macro makes of its unevaluated arguments.
pub open spec fn apply_macro(
    native: NativeMacro,
    arguments: Seq<ExprView>,
    env: EnvView,
    depth: nat,
) -> (Result<ValueView, EvalError>, EnvView)
    decreases depth, 2int, 0int,
{
    match native {
        NativeMacro::Let => if arguments.len() >= 2 && arguments[0] is Ident {
            let (value, after) = eval_expr(arguments[1], env, depth);
            match value {
                Ok(value) => (Ok(value), define(after, arguments[0]->name, value)),
                Err(e) => (Err(e), after),
            }
        } else {
            (Err(EvalError::TypeMismatch), env)
        },
        NativeMacro::Def => if arguments.len() >= 2 && arguments[0] is Ident && all_idents(
            arguments.subrange(1, arguments.len() - 1),
        ) {
            (
                Ok(ValueView::Nil),
                define(
                    env,
                    arguments[0]->name,
                    ValueView::UserFunction {
                        params: ident_names(arguments.subrange(1, arguments.len() - 1)),
                        body: arguments.last(),
                    },
                ),
            )
        } else {
            (Err(EvalError::TypeMismatch), env)
        },
        NativeMacro::Scope => {
            let (values, after) = eval_each(arguments, 0, Seq::empty(), enter(env), depth);
            match values {
                Ok(values) => (Ok(last_value(values)), leave(after)),
                Err(e) => (Err(e), leave(after)),
            }
        },
    }
}

/// What running the unit of input at the start of `text` in `env` gives, and the
/// environment afterwards: the one that the evaluation left if it succeeded,
/// the one before if the text could not be parsed or evaluated.
pub open spec fn run(text: Seq<u8>, env: EnvView, depth: nat) -> (
    Result<ValueView, Error>,
    EnvView,
) {
    match parse_unit(text, 0).0 {
        Err(e) => (Err(Error::Parse(e)), env),
        Ok(expr) => match eval_expr(expr, env, depth) {
            (Ok(value), after) => (Ok(value), after),
            (Err(e), _) => (Err(Error::Eval(e)), env),
        },
    }
}

/// What the result of an evaluation stands for.
pub open spec fn value_result_view(r: Result<Value, EvalError>) -> Result<ValueView, EvalError> {
    match r {
        Ok(value) => Ok(value@),
        Err(e) => Err(e),
    }
}

/// What remains of an environment when an evaluation has run in it: the
/// same frames, of which only the innermost may have changed.
pub open spec fn same_outer_frames(before: EnvView, after: EnvView) -> bool {
    after.len() == before.len() && after.drop_last() == before.drop_last()
}

/// An evaluation changes no frame but the innermost one, and neither adds
/// nor drops a frame.
pub proof fn lemma_eval_keeps_outer_frames(expr: ExprView, env: EnvView, depth: nat)
    requires
        env.len() >= 1,
    ensures
        same_outer_frames(env, eval_expr(expr, env, depth).1),
    decreases depth, 0int, 0int,
{
    if depth > 0 {
        let inner = (depth - 1) as nat;
        match expr {
            ExprView::Array(items) => {
                lemma_eval_each_keeps_outer_frames(items, 0, Seq::empty(), env, inner);
            },
            ExprView::Call { func_name, arguments, is_macro } => {
                if is_macro {
                    if let Some(ValueView::NativeMacro(native)) = lookup(env, func_name) {
                        lemma_apply_macro_keeps_outer_frames(native, arguments, env, inner);
                    }
                } else {
                    lemma_eval_each_keeps_outer_frames(arguments, 0, Seq::empty(), env, inner);
                    let (values, after) = eval_each(arguments, 0, Seq::empty(), env, inner);
                    if let Ok(values) = values {
                        if let Some(ValueView::UserFunction { params, body }) = lookup(
                            after,
                            func_name,
                        ) {
                            lemma_apply_user_keeps_env(params, body, values, after, inner);
                        }
                    }
                }
            },
            _ => {},
        }
    }
}

/// The same of the evaluation of a sequence of expressions.
pub proof fn lemma_eval_each_keeps_outer_frames(
    exprs: Seq<ExprView>,
    from: int,
    done: Seq<ValueView>,
    env: EnvView,
    depth: nat,
)
    requires
        env.len() >= 1,
    ensures
        same_outer_frames(env, eval_each(exprs, from, done, env, depth).1),
    decreases depth, 1int, exprs.len() - from,
{
    if 0 <= from < exprs.len() {
        lemma_eval_keeps_outer_frames(exprs[from], env, depth);
        let (value, after) = eval_expr(exprs[from], env, depth);
        if let Ok(value) = value {
            lemma_eval_each_keeps_outer_frames(exprs, from + 1, done.push(value), after, depth);
        }
    }
}

/// A call of a user-defined function leaves the environment of the call as
/// it was: what the body defines lands in the frame of the call, and that
/// frame is dropped when the call returns.
pub proof fn lemma_apply_user_keeps_env(
    params: Seq<Seq<u8>>,
    body: ExprView,
    arguments: Seq<ValueView>,
    env: EnvView,
    depth: nat,
)
    ensures
        apply_user(params, body, arguments, env, depth).1 == env,
    decreases depth, 2int, 0int,
{
    if arguments.len() >= params.len() {
        let inside = env.push(bind_params(params, arguments, params.len() as int));
        lemma_eval_keeps_outer_frames(body, inside, depth);
    }
}

/// A macro changes no frame but the innermost one, and `scope` changes none.
pub proof fn lemma_apply_macro_keeps_outer_frames(
    native: NativeMacro,
    arguments: Seq<ExprView>,
    env: EnvView,
    depth: nat,
)
    requires
        env.len() >= 1,
    ensures
        same_outer_frames(env, apply_macro(native, arguments, env, depth).1),
        native == NativeMacro::Scope ==> apply_macro(native, arguments, env, depth).1 == env,
    decreases depth, 2int, 0int,
{
    match native {
        NativeMacro::Let => {
            if arguments.len() >= 2 && arguments[0] is Ident {
                lemma_eval_keeps_outer_frames(arguments[1], env, depth);
                let (value, after) = eval_expr(arguments[1], env, depth);
                if let Ok(value) = value {
                    assert(define(after, arguments[0]->name, value).drop_last()
                        =~= after.drop_last());
                }
            }
        },
        NativeMacro::Def => {
            let after = apply_macro(native, arguments, env, depth).1;
            assert(after.drop_last() =~= env.drop_last());
        },
        NativeMacro::Scope => {
            lemma_eval_each_keeps_outer_frames(arguments, 0, Seq::empty(), enter(env), depth);
            assert(enter(env).drop_last() =~= env);
        },
    }
}

/// The sum of a list of numbers.
pub fn plus(args: &[Value]) -> (r: Result<Value, EvalError>)
    ensures
        value_result_view(r) == apply_native(NativeFunction::Plus, values_view(args@)),
{
    let ghost values = values_view(args@);
    let mut sum: i32 = 0;
    let mut i: usize = 0;
    while i < args.len()
        invariant
            i <= args.len(),
            values == values_view(args@),
            sum_from(values, 0, 0) == sum_from(values, i as int, sum as int),
        decreases args.len() - i,
    {
        match &args[i] {
            Value::Number(n) => match sum.checked_add(*n) {
                Some(next) => {
                    sum = next;
                },
                None => {
                    return Err(EvalError::Overflow);
                },
            },
            _ => {
                return Err(EvalError::TypeMismatch);
            },
        }
        i += 1;
    }
    Ok(Value::Number(sum))
}

/// The first of a list of values.
pub fn id(args: &[Value]) -> (r: Result<Value, EvalError>)
    ensures
        value_result_view(r) == apply_native(NativeFunction::Id, values_view(args@)),
{
    if args.len() >= 1 {
        Ok(args[0].clone())
    } else {
        Err(EvalError::TypeMismatch)
    }
}

/// Applies a native function to its evaluated arguments.
pub fn call_native(function: NativeFunction, args: &[Value], env: &mut Env) -> (r: Result<
    Value,
    EvalError,
>)
    ensures
        value_result_view(r) == apply_native(function, values_view(args@)),
        final(env)@ == old(env)@,
{
    match function {
        NativeFunction::Plus => plus(args),
        NativeFunction::Id => id(args),
    }
}

/// Evaluates `expr` in `env`, using at most `depth` nested evaluations.
///
/// What the expression defines stays in `env`, also where the evaluation
/// fails later on.
pub fn eval(expr: &Expr, env: &mut Env, depth: usize) -> (r: Result<Value, EvalError>)
    ensures
        value_result_view(r) == eval_expr(expr@, old(env)@, depth as nat).0,
        final(env)@ == eval_expr(expr@, old(env)@, depth as nat).1,
    decreases depth, 0int, 0int,
{
    if depth == 0 {
        return Err(EvalError::DepthExceeded);
    }
    match expr {
        Expr::Number(n) => Ok(Value::Number(*n)),
        Expr::StringLit(s) => Ok(Value::StringVal(copy_bytes(s))),
        Expr::Ident { name, is_bind_marker } => {
            if *is_bind_marker {
                Ok(Value::StringVal(copy_bytes(name)))
            } else {
                match env.get(name.as_slice()) {
                    Some(value) => Ok(value.clone()),
                    None => Err(EvalError::UnboundName),
                }
            }
        },
        Expr::Array(items) => {
            match eval_all(items.as_slice(), env, depth - 1) {
                Ok(values) => Ok(Value::Array(values)),
                Err(e) => Err(e),
            }
        },
        Expr::Call { func_name, arguments, is_macro } => {
            if *is_macro {
                let native = match env.get(func_name.as_slice()) {
                    Some(callee) => match callee.as_macro() {
                        Some(native) => native,
                        None => {
                            return Err(EvalError::TypeMismatch);
                        },
                    },
                    None => {
                        return Err(EvalError::UnboundName);
                    },
                };
                call_macro(native, arguments.as_slice(), env, depth - 1)
            } else {
                let values = match eval_all(arguments.as_slice(), env, depth - 1) {
                    Ok(values) => values,
                    Err(e) => {
                        return Err(e);
                    },
                };
                let callee = match env.get(func_name.as_slice()) {
                    Some(callee) => callee.clone(),
                    None => {
                        return Err(EvalError::UnboundName);
                    },
                };
                proof {
                    if let ValueView::UserFunction { params, body } = callee@ {
                        lemma_apply_user_keeps_env(
                            params,
                            body,
                            values_view(values@),
                            env@,
                            (depth - 1) as nat,
                        );
                    }
                }
                match callee {
                    Value::NativeFunction(native) => call_native(native, values.as_slice(), env),
                    Value::UserFunction { params, body } => call_user(
                        &params,
                        &body,
                        values.as_slice(),
                        env,
                        depth - 1,
                    ),
                    _ => Err(EvalError::TypeMismatch),
                }
            }
        },
    }
}

/// Evaluates the expressions from left to right and collects their values.
pub fn eval_all(exprs: &[Expr], env: &mut Env, depth: usize) -> (r: Result<Vec<Value>, EvalError>)
    ensures
        match eval_each(exprs_view(exprs@), 0, Seq::empty(), old(env)@, depth as nat).0 {
            Ok(values) => r matches Ok(v) && values_view(v@) == values,
            Err(e) => r matches Err(err) && err == e,
        },
        final(env)@ == eval_each(exprs_view(exprs@), 0, Seq::empty(), old(env)@, depth as nat).1,
    decreases depth, 1int, 0int,
{
    let ghost model = exprs_view(exprs@);
    let mut values: Vec<Value> = Vec::new();
    let mut i: usize = 0;
    assert(values_view(values@) =~= Seq::empty());
    while i < exprs.len()
        invariant
            i <= exprs.len(),
            model == exprs_view(exprs@),
            eval_each(model, 0, Seq::empty(), old(env)@, depth as nat) == eval_each(
                model,
                i as int,
                values_view(values@),
                env@,
                depth as nat,
            ),
        decreases exprs.len() - i,
    {
        match eval(&exprs[i], env, depth) {
            Ok(value) => {
                proof {
                    lemma_values_view_push(values@, value);
                }
                values.push(value);
            },
            Err(e) => {
                return Err(e);
            },
        }
        i += 1;
    }
    Ok(values)
}

/// Calls a user-defined function: binds its parameters to the arguments in a
/// fresh frame, evaluates its body there, and drops the frame.
///
/// The frame is nested in the environment of the call, not in the one in
/// which the function was defined: a name that the body leaves free is
/// looked up where the function is called.
pub fn call_user(
    params: &Vec<Vec<u8>>,
    body: &Expr,
    args: &[Value],
    env: &mut Env,
    depth: usize,
) -> (r: Result<Value, EvalError>)
    ensures
        value_result_view(r) == apply_user(
            names_view(params@),
            body@,
            values_view(args@),
            old(env)@,
            depth as nat,
        ).0,
        final(env)@ == old(env)@,
    decreases depth, 2int, 0int,
{
    let ghost names = names_view(params@);
    let ghost values = values_view(args@);
    let ghost outside = env@;
    proof {
        env.lemma_has_root();
        lemma_apply_user_keeps_env(names, body@, values, outside, depth as nat);
    }
    if args.len() < params.len() {
        return Err(EvalError::TypeMismatch);
    }
    env.push_frame();
    let mut i: usize = 0;
    while i < params.len()
        invariant
            i <= params.len() <= args.len(),
            names == names_view(params@),
            values == values_view(args@),
            env@ == outside.push(bind_params(names, values, i as int)),
        decreases params.len() - i,
    {
        env.insert(copy_bytes(&params[i]), args[i].clone());
        i += 1;
    }
    let ghost inside = env@;
    let r = eval(body, env, depth);
    proof {
        lemma_eval_keeps_outer_frames(body@, inside, depth as nat);
    }
    env.pop_frame();
    r
}

/// Applies a native macro to its unevaluated arguments.
pub fn call_macro(native: NativeMacro, args: &[Expr], env: &mut Env, depth: usize) -> (r: Result<
    Value,
    EvalError,
>)
    ensures
        value_result_view(r) == apply_macro(native, exprs_view(args@), old(env)@, depth as nat).0,
        final(env)@ == apply_macro(native, exprs_view(args@), old(env)@, depth as nat).1,
    decreases depth, 2int, 1int,
{
    match native {
        NativeMacro::Let => bind_let(args, env, depth),
        NativeMacro::Def => {
            def(args, env)
        },
        NativeMacro::Scope => {
            proof {
                env.lemma_has_root();
                lemma_apply_macro_keeps_outer_frames(
                    native,
                    exprs_view(args@),
                    env@,
                    depth as nat,
                );
            }
            scope(args, env, depth)
        },
    }
}

/// The `let` macro: evaluates its second argument, binds the name that is
/// its first argument to the value in the innermost frame, and returns the
/// value.
pub fn bind_let(args: &[Expr], env: &mut Env, depth: usize) -> (r: Result<Value, EvalError>)
    ensures
        value_result_view(r) == apply_macro(
            NativeMacro::Let,
            exprs_view(args@),
            old(env)@,
            depth as nat,
        ).0,
        final(env)@ == apply_macro(NativeMacro::Let, exprs_view(args@), old(env)@, depth as nat).1,
    decreases depth, 2int, 0int,
{
    if args.len() < 2 {
        return Err(EvalError::TypeMismatch);
    }
    match args[0].as_ident() {
        Some(name) => {
            match eval(&args[1], env, depth) {
                Ok(value) => {
                    env.insert(copy_bytes(name), value.clone());
                    Ok(value)
                },
                Err(e) => Err(e),
            }
        },
        None => Err(EvalError::TypeMismatch),
    }
}

/// The `def` macro: binds the name that is its first argument to a function
/// whose parameters are the identifiers that follow and whose body is the
/// last argument. Returns `Nil`.
pub fn def(args: &[Expr], env: &mut Env) -> (r: Result<Value, EvalError>)
    ensures
        value_result_view(r) == apply_macro(NativeMacro::Def, exprs_view(args@), old(env)@, 0).0,
        final(env)@ == apply_macro(NativeMacro::Def, exprs_view(args@), old(env)@, 0).1,
{
    let ghost model = exprs_view(args@);
    if args.len() < 2 {
        return Err(EvalError::TypeMismatch);
    }
    let last = args.len() - 1;
    let name = match args[0].as_ident() {
        Some(name) => copy_bytes(name),
        None => {
            return Err(EvalError::TypeMismatch);
        },
    };
    let ghost middle = model.subrange(1, last as int);
    let mut params: Vec<Vec<u8>> = Vec::new();
    let mut i: usize = 1;
    while i < last
        invariant
            1 <= i <= last,
            last == args.len() - 1,
            model == exprs_view(args@),
            middle == model.subrange(1, last as int),
            params.len() == i - 1,
            forall|j: int| 0 <= j < i - 1 ==> (#[trigger] middle[j]) is Ident,
            forall|j: int| 0 <= j < i - 1 ==> (#[trigger] params[j])@ == middle[j]->name,
        decreases last - i,
    {
        match args[i].as_ident() {
            Some(name) => {
                params.push(copy_bytes(name));
            },
            None => {
                assert(!(middle[i - 1] is Ident));
                return Err(EvalError::TypeMismatch);
            },
        }
        i += 1;
    }
    assert(names_view(params@) =~= ident_names(middle));
    let body = args[last].clone();
    env.insert(name, Value::UserFunction { params, body });
    Ok(Value::Nil)
}

/// The `scope` macro: evaluates its arguments in order in a fresh nested
/// frame, drops the frame, and returns the last value, or `Nil` if there is
/// no argument.
pub fn scope(exprs: &[Expr], env: &mut Env, depth: usize) -> (r: Result<Value, EvalError>)
    ensures
        value_result_view(r) == apply_macro(
            NativeMacro::Scope,
            exprs_view(exprs@),
            old(env)@,
            depth as nat,
        ).0,
        final(env)@ == old(env)@,
    decreases depth, 2int, 0int,
{
    let ghost model = exprs_view(exprs@);
    let ghost outside = env@;
    proof {
        env.lemma_has_root();
        lemma_apply_macro_keeps_outer_frames(NativeMacro::Scope, model, outside, depth as nat);
    }
    env.push_frame();
    let mut last = Value::Nil;
    let ghost mut done: Seq<ValueView> = Seq::empty();
    let mut i: usize = 0;
    while i < exprs.len()
        invariant
            i <= exprs.len(),
            model == exprs_view(exprs@),
            outside == old(env)@,
            env@.len() == outside.len() + 1 >= 2,
            last@ == last_value(done),
            eval_each(model, 0, Seq::empty(), enter(outside), depth as nat) == eval_each(
                model,
                i as int,
                done,
                env@,
                depth as nat,
            ),
            env@.drop_last() == outside,
        decreases exprs.len() - i,
    {
        let ghost before = env@;
        proof {
            lemma_eval_keeps_outer_frames(model[i as int], before, depth as nat);
        }
        match eval(&exprs[i], env, depth) {
            Ok(value) => {
                proof {
                    done = done.push(value@);
                }
                last = value;
            },
            Err(e) => {
                env.pop_frame();
                return Err(e);
            },
        }
        i += 1;
    }
    env.pop_frame();
    Ok(last)
}

/// Evaluates `expr` in `env` at the default depth. An evaluation that fails
/// leaves `env` as it was before.
pub fn evaluate(expr: &Expr, env: &mut Env) -> (r: Result<Value, EvalError>)
    ensures
        value_result_view(r) == eval_expr(expr@, old(env)@, DEFAULT_DEPTH as nat).0,
        final(env)@ == if r is Ok {
            eval_expr(expr@, old(env)@, DEFAULT_DEPTH as nat).1
        } else {
            old(env)@
        },
{
    let saved = env.clone();
    match eval(expr, env, DEFAULT_DEPTH) {
        Ok(value) => Ok(value),
        Err(e) => {
            *env = saved;
            Err(e)
        },
    }
}

/// Runs one unit of input: parses the unit at the start of `text` and
/// evaluates it in `env` at the default depth. A unit that fails leaves
/// `env` as it was before.
pub fn interpret(text: &[u8], env: &mut Env) -> (r: Result<Value, Error>)
    ensures
        match run(text@, old(env)@, DEFAULT_DEPTH as nat).0 {
            Ok(value) => r matches Ok(v) && v@ == value,
            Err(e) => r matches Err(err) && err == e,
        },
        final(env)@ == run(text@, old(env)@, DEFAULT_DEPTH as nat).1,
{
    match parse(text) {
        Err(e) => Err(Error::Parse(e)),
        Ok(expr) => match evaluate(&expr, env) {
            Ok(value) => Ok(value),
            Err(e) => Err(Error::Eval(e)),
        },
    }
}

} // verus!
