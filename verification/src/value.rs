//! Runtime values, their mathematical view, and their printed form.

use vstd::prelude::*;
use crate::bytes::copy_bytes;
use crate::bytes::render_number;
use crate::bytes::write_bytes;
use crate::bytes::write_number;
use crate::ast::Expr;
use crate::ast::ExprView;

verus! {

/// The operations that receive their arguments evaluated.
#[derive(Debug, Clone, Copy, PartialEq, Eq, Structural)]
pub enum NativeFunction {
    /// The sum of any number of numbers.
    Plus,
    /// The first argument, unchanged.
    Id,
}

/// The operations that receive their arguments as syntax.
#[derive(Debug, Clone, Copy, PartialEq, Eq, Structural)]
pub enum NativeMacro {
    /// Binds a name to the value of an expression in the current frame.
    Let,
    /// Binds a name to a user-defined function in the current frame.
    Def,
    /// Evaluates a sequence of forms in a fresh nested frame.
    Scope,
}

/// A runtime value.
#[derive(Debug, PartialEq, Eq)]
pub enum Value {
    Nil,
    Number(i32),
    StringVal(Vec<u8>),
    Array(Vec<Value>),
    NativeFunction(NativeFunction),
    NativeMacro(NativeMacro),
    /// A function defined in the language: the names of its parameters and
    /// the expression that is its body.
    UserFunction { params: Vec<Vec<u8>>, body: Expr },
}

/// What a [`Value`] stands for.
pub enum ValueView {
    Nil,
    Number(i32),
    StringVal(Seq<u8>),
    Array(Seq<ValueView>),
    NativeFunction(NativeFunction),
    NativeMacro(NativeMacro),
    UserFunction { params: Seq<Seq<u8>>, body: ExprView },
}

impl View for Value {
    type V = ValueView;

    open spec fn view(&self) -> ValueView
        decreases self,
    {
        match self {
            Value::Nil => ValueView::Nil,
            Value::Number(n) => ValueView::Number(*n),
            Value::StringVal(s) => ValueView::StringVal(s@),
            Value::Array(items) => ValueView::Array(values_view(items@)),
            Value::NativeFunction(f) => ValueView::NativeFunction(*f),
            Value::NativeMacro(m) => ValueView::NativeMacro(*m),
            Value::UserFunction { params, body } => ValueView::UserFunction {
                params: names_view(params@),
                body: body@,
            },
        }
    }
}

impl Value {
    /// The native function that the value is: `None` for every other value.
    pub fn as_func(&self) -> (function: Option<NativeFunction>)
        ensures
            match self@ {
                ValueView::NativeFunction(f) => function == Some(f),
                _ => function is None,
            },
    {
        match self {
            Value::NativeFunction(f) => Some(*f),
            _ => None,
        }
    }

    /// The native macro that the value is: `None` for every other value.
    pub fn as_macro(&self) -> (native: Option<NativeMacro>)
        ensures
            match self@ {
                ValueView::NativeMacro(m) => native == Some(m),
                _ => native is None,
            },
    {
        match self {
            Value::NativeMacro(m) => Some(*m),
            _ => None,
        }
    }

    /// The bytes of a string: `None` for every other value.
    pub fn as_str(&self) -> (bytes: Option<&Vec<u8>>)
        ensures
            match self@ {
                ValueView::StringVal(s) => bytes matches Some(found) && found@ == s,
                _ => bytes is None,
            },
    {
        match self {
            Value::StringVal(s) => Some(s),
            _ => None,
        }
    }
}

/// The views of a sequence of values, in order.
pub open spec fn values_view(values: Seq<Value>) -> Seq<ValueView>
    decreases values,
{
    Seq::new(
        values.len(),
        |i: int|
            if 0 <= i < values.len() {
                values[i]@
            } else {
                arbitrary()
            },
    )
}

/// The views of a sequence of names, in order.
pub open spec fn names_view(names: Seq<Vec<u8>>) -> Seq<Seq<u8>> {
    Seq::new(names.len(), |i: int| names[i]@)
}

/// The view of a sequence of values grows with the sequence.
pub proof fn lemma_values_view_push(values: Seq<Value>, value: Value)
    ensures
        values_view(values.push(value)) == values_view(values).push(value@),
{
}

/// A copy of a list of names.
pub(crate) fn copy_names(names: &Vec<Vec<u8>>) -> (copy: Vec<Vec<u8>>)
    ensures
        names_view(copy@) == names_view(names@),
{
    let mut copy: Vec<Vec<u8>> = Vec::new();
    let mut i: usize = 0;
    while i < names.len()
        invariant
            i <= names.len(),
            copy.len() == i,
            forall|j: int| 0 <= j < i ==> copy[j]@ == names[j]@,
        decreases names.len() - i,
    {
        copy.push(copy_bytes(&names[i]));
        i += 1;
    }
    copy
}

/// A copy of a list of values, item by item.
pub(crate) fn copy_values(values: &Vec<Value>) -> (copy: Vec<Value>)
    ensures
        values_view(copy@) == values_view(values@),
    decreases values,
{
    let mut copy: Vec<Value> = Vec::new();
    let mut i: usize = 0;
    while i < values.len()
        invariant
            i <= values.len(),
            copy.len() == i,
            forall|j: int| 0 <= j < i ==> copy[j]@ == values[j]@,
        decreases values.len() - i,
    {
        copy.push(values[i].clone());
        i += 1;
    }
    copy
}

impl Clone for Value {
    fn clone(&self) -> (copy: Self)
        ensures
            copy@ == self@,
        decreases self,
    {
        match self {
            Value::Nil => Value::Nil,
            Value::Number(n) => Value::Number(*n),
            Value::StringVal(s) => Value::StringVal(copy_bytes(s)),
            Value::Array(items) => Value::Array(copy_values(items)),
            Value::NativeFunction(f) => Value::NativeFunction(*f),
            Value::NativeMacro(m) => Value::NativeMacro(*m),
            Value::UserFunction { params, body } => Value::UserFunction {
                params: copy_names(params),
                body: body.clone(),
            },
        }
    }
}

/// The text `nil`.
pub open spec fn nil_text() -> Seq<u8> {
    seq!['n' as u8, 'i' as u8, 'l' as u8]
}

/// The text that stands for a function, native or user-defined.
pub open spec fn function_text() -> Seq<u8> {
    seq![
        '<' as u8,
        'f' as u8,
        'u' as u8,
        'n' as u8,
        'c' as u8,
        't' as u8,
        'i' as u8,
        'o' as u8,
        'n' as u8,
        '>' as u8,
    ]
}

/// The text that stands for a native macro.
pub open spec fn macro_text() -> Seq<u8> {
    seq!['<' as u8, 'm' as u8, 'a' as u8, 'c' as u8, 'r' as u8, 'o' as u8, '>' as u8]
}

/// The printed form of a value: `nil`; a number in decimal; a string
/// between double quotes, its bytes as they are; an array between square
/// brackets, its items one space apart; a function or a macro as a
/// placeholder.
pub open spec fn render(value: ValueView) -> Seq<u8>
    decreases value, 0int,
{
    match value {
        ValueView::Nil => nil_text(),
        ValueView::Number(n) => render_number(n as int),
        ValueView::StringVal(s) => seq!['"' as u8] + s + seq!['"' as u8],
        ValueView::Array(items) => seq!['[' as u8] + render_items(items, items.len() as int)
            + seq![']' as u8],
        ValueView::NativeFunction(_) => function_text(),
        ValueView::NativeMacro(_) => macro_text(),
        ValueView::UserFunction { .. } => function_text(),
    }
}

/// The printed forms of the first `count` items, a space between each two.
pub open spec fn render_items(items: Seq<ValueView>, count: int) -> Seq<u8>
    decreases items, count,
{
    if count <= 0 || count > items.len() {
        Seq::empty()
    } else if count == 1 {
        render(items[0])
    } else {
        render_items(items, count - 1) + seq![' ' as u8] + render(items[count - 1])
    }
}

/// Appends the printed form of `value` to `out`.
fn write_value(value: &Value, out: &mut Vec<u8>)
    ensures
        final(out)@ == old(out)@ + render(value@),
    decreases value,
{
    match value {
        Value::Nil => {
            out.push('n' as u8);
            out.push('i' as u8);
            out.push('l' as u8);
        },
        Value::Number(n) => write_number(*n, out),
        Value::StringVal(s) => {
            out.push('"' as u8);
            write_bytes(s.as_slice(), out);
            out.push('"' as u8);
        },
        Value::Array(items) => {
            out.push('[' as u8);
            write_items(items, out);
            out.push(']' as u8);
        },
        Value::NativeFunction(_) => write_placeholder(false, out),
        Value::NativeMacro(_) => write_placeholder(true, out),
        Value::UserFunction { .. } => write_placeholder(false, out),
    }
}

/// Appends the printed forms of the items, a space between each two, to
/// `out`.
fn write_items(items: &Vec<Value>, out: &mut Vec<u8>)
    ensures
        final(out)@ == old(out)@ + render_items(values_view(items@), items.len() as int),
    decreases items,
{
    let ghost model = values_view(items@);
    let mut i: usize = 0;
    while i < items.len()
        invariant
            i <= items.len(),
            model == values_view(items@),
            out@ == old(out)@ + render_items(model, i as int),
        decreases items.len() - i,
    {
        if i > 0 {
            out.push(' ' as u8);
        }
        write_value(&items[i], out);
        i += 1;
    }
}

/// Appends the placeholder for a macro or for a function to `out`.
fn write_placeholder(is_macro: bool, out: &mut Vec<u8>)
    ensures
        final(out)@ == old(out)@ + if is_macro {
            macro_text()
        } else {
            function_text()
        },
{
    out.push('<' as u8);
    if is_macro {
        out.push('m' as u8);
        out.push('a' as u8);
        out.push('c' as u8);
        out.push('r' as u8);
        out.push('o' as u8);
    } else {
        out.push('f' as u8);
        out.push('u' as u8);
        out.push('n' as u8);
        out.push('c' as u8);
        out.push('t' as u8);
        out.push('i' as u8);
        out.push('o' as u8);
        out.push('n' as u8);
    }
    out.push('>' as u8);
}

impl Value {
    /// The printed form of the value.
    pub fn to_text(&self) -> (text: Vec<u8>)
        ensures
            text@ == render(self@),
    {
        let mut text: Vec<u8> = Vec::new();
        write_value(self, &mut text);
        text
    }
}

} // verus!
