use minilisp::env::Env;
use minilisp::value::NativeFunction;
use minilisp::value::NativeMacro;
use minilisp::value::Value;

fn name(text: &str) -> Vec<u8> {
    text.as_bytes().to_vec()
}

#[test]
fn a_new_environment_binds_nothing() {
    let env = Env::new();
    assert_eq!(env.get(b"x"), None);
    assert_eq!(env.get(b"plus"), None);
    assert_eq!(env.nesting(), 0);
    assert_eq!(Env::default().get(b"plus"), None);
}

#[test]
fn what_is_inserted_is_found() {
    let mut env = Env::new();
    assert_eq!(env.insert(name("x"), Value::Number(1)), None);
    assert_eq!(env.insert(name("y"), Value::StringVal(name("s"))), None);
    assert_eq!(env.get(b"x"), Some(&Value::Number(1)));
    assert_eq!(env.get(b"y"), Some(&Value::StringVal(name("s"))));
    assert_eq!(env.get(b"z"), None);
    assert_eq!(env.get(b""), None);
}

#[test]
fn the_last_write_wins_and_the_previous_value_is_returned() {
    let mut env = Env::new();
    assert_eq!(env.insert(name("x"), Value::Number(1)), None);
    assert_eq!(env.insert(name("y"), Value::Number(5)), None);
    assert_eq!(env.insert(name("x"), Value::Number(2)), Some(Value::Number(1)));
    assert_eq!(env.insert(name("x"), Value::Nil), Some(Value::Number(2)));
    assert_eq!(env.get(b"x"), Some(&Value::Nil));
    assert_eq!(env.get(b"y"), Some(&Value::Number(5)));
}

#[test]
fn a_lookup_goes_from_the_innermost_frame_outwards() {
    let mut env = Env::new();
    env.insert(name("x"), Value::Number(1));
    env.insert(name("y"), Value::Number(10));
    env.push_frame();
    assert_eq!(env.nesting(), 1);
    assert_eq!(env.get(b"x"), Some(&Value::Number(1)));
    assert_eq!(env.insert(name("x"), Value::Number(2)), None);
    assert_eq!(env.get(b"x"), Some(&Value::Number(2)));
    env.push_frame();
    assert_eq!(env.nesting(), 2);
    assert_eq!(env.insert(name("x"), Value::Number(3)), None);
    assert_eq!(env.get(b"x"), Some(&Value::Number(3)));
    assert_eq!(env.get(b"y"), Some(&Value::Number(10)));
    env.pop_frame();
    assert_eq!(env.get(b"x"), Some(&Value::Number(2)));
    env.pop_frame();
    assert_eq!(env.get(b"x"), Some(&Value::Number(1)));
    assert_eq!(env.nesting(), 0);
}

#[test]
fn an_insertion_never_reaches_an_outer_frame() {
    let mut env = Env::new();
    env.push_frame();
    env.insert(name("inner"), Value::Number(1));
    assert_eq!(env.get(b"inner"), Some(&Value::Number(1)));
    env.pop_frame();
    assert_eq!(env.get(b"inner"), None);
}

#[test]
fn the_root_frame_stays() {
    let mut env = Env::new();
    env.insert(name("x"), Value::Number(1));
    env.pop_frame();
    env.pop_frame();
    assert_eq!(env.nesting(), 0);
    assert_eq!(env.get(b"x"), Some(&Value::Number(1)));
}

#[test]
fn a_root_environment_binds_the_native_operations() {
    let env = Env::with_builtins();
    assert_eq!(env.get(b"plus"), Some(&Value::NativeFunction(NativeFunction::Plus)));
    assert_eq!(env.get(b"id"), Some(&Value::NativeFunction(NativeFunction::Id)));
    assert_eq!(env.get(b"let"), Some(&Value::NativeMacro(NativeMacro::Let)));
    assert_eq!(env.get(b"def"), Some(&Value::NativeMacro(NativeMacro::Def)));
    assert_eq!(env.get(b"scope"), Some(&Value::NativeMacro(NativeMacro::Scope)));
    assert_eq!(env.get(b"print"), None);
    assert_eq!(env.nesting(), 0);
}

#[test]
fn a_native_binding_can_be_overwritten() {
    let mut env = Env::with_builtins();
    assert_eq!(
        env.insert(name("plus"), Value::Number(0)),
        Some(Value::NativeFunction(NativeFunction::Plus))
    );
    assert_eq!(env.get(b"plus"), Some(&Value::Number(0)));
}

#[test]
fn a_copy_of_an_environment_goes_its_own_way() {
    let mut env = Env::with_builtins();
    env.insert(name("x"), Value::Number(1));
    env.push_frame();
    env.insert(name("y"), Value::Array(vec![Value::Number(2), Value::Nil]));
    let mut copy = env.clone();
    assert_eq!(copy.nesting(), 1);
    assert_eq!(copy.get(b"x"), Some(&Value::Number(1)));
    assert_eq!(copy.get(b"y"), Some(&Value::Array(vec![Value::Number(2), Value::Nil])));
    assert_eq!(copy.get(b"plus"), Some(&Value::NativeFunction(NativeFunction::Plus)));
    copy.insert(name("y"), Value::Number(3));
    copy.pop_frame();
    copy.insert(name("x"), Value::Number(4));
    assert_eq!(env.get(b"x"), Some(&Value::Number(1)));
    assert_eq!(env.get(b"y"), Some(&Value::Array(vec![Value::Number(2), Value::Nil])));
    assert_eq!(env.nesting(), 1);
}
