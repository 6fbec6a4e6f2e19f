//! The expression tree that the parser builds and the evaluator reduces.

use vstd::prelude::*;
use crate::bytes::copy_bytes;

verus! {

/// One node of the syntax tree.
#[derive(Debug, PartialEq, Eq)]
pub enum Expr {
    Number(i32),
    StringLit(Vec<u8>),
    /// An identifier. With `is_bind_marker` it stands for its own name, as
    /// data; without, for the value that the name is bound to.
    Ident { name: Vec<u8>, is_bind_marker: bool },
    Array(Vec<Expr>),
    /// A call form. `is_macro` says whether the callee carried the macro
    /// sigil: the arguments of a macro call reach the macro unevaluated.
    Call { func_name: Vec<u8>, arguments: Vec<Expr>, is_macro: bool },
}

/// What an [`Expr`] stands for.
pub enum ExprView {
    Number(i32),
    StringLit(Seq<u8>),
    Ident { name: Seq<u8>, is_bind_marker: bool },
    Array(Seq<ExprView>),
    Call { func_name: Seq<u8>, arguments: Seq<ExprView>, is_macro: bool },
}

impl View for Expr {
    type V = ExprView;

    open spec fn view(&self) -> ExprView
        decreases self,
    {
        match self {
            Expr::Number(n) => ExprView::Number(*n),
            Expr::StringLit(s) => ExprView::StringLit(s@),
            Expr::Ident { name, is_bind_marker } => ExprView::Ident {
                name: name@,
                is_bind_marker: *is_bind_marker,
            },
            Expr::Array(items) => ExprView::Array(exprs_view(items@)),
            Expr::Call { func_name, arguments, is_macro } => ExprView::Call {
                func_name: func_name@,
                arguments: exprs_view(arguments@),
                is_macro: *is_macro,
            },
        }
    }
}

impl Expr {
    /// The name of an identifier: `None` for every other expression.
    pub fn as_ident(&self) -> (name: Option<&Vec<u8>>)
        ensures
            match self@ {
                ExprView::Ident { name: n, .. } => name matches Some(found) && found@ == n,
                _ => name is None,
            },
    {
        match self {
            Expr::Ident { name, .. } => Some(name),
            _ => None,
        }
    }
}

/// The views of a sequence of expressions, in order.
pub open spec fn exprs_view(exprs: Seq<Expr>) -> Seq<ExprView>
    decreases exprs,
{
    Seq::new(
        exprs.len(),
        |i: int|
            if 0 <= i < exprs.len() {
                exprs[i]@
            } else {
                arbitrary()
            },
    )
}

/// A copy of a list of expressions, item by item.
pub(crate) fn copy_exprs(exprs: &Vec<Expr>) -> (copy: Vec<Expr>)
    ensures
        exprs_view(copy@) == exprs_view(exprs@),
    decreases exprs,
{
    let mut copy: Vec<Expr> = Vec::new();
    let mut i: usize = 0;
    while i < exprs.len()
        invariant
            i <= exprs.len(),
            copy.len() == i,
            forall|j: int| 0 <= j < i ==> copy[j]@ == exprs[j]@,
        decreases exprs.len() - i,
    {
        copy.push(exprs[i].clone());
        i += 1;
    }
    copy
}

impl Clone for Expr {
    fn clone(&self) -> (copy: Self)
        ensures
            copy@ == self@,
        decreases self,
    {
        match self {
            Expr::Number(n) => Expr::Number(*n),
            Expr::StringLit(s) => Expr::StringLit(copy_bytes(s)),
            Expr::Ident { name, is_bind_marker } => Expr::Ident {
                name: copy_bytes(name),
                is_bind_marker: *is_bind_marker,
            },
            Expr::Array(items) => Expr::Array(copy_exprs(items)),
            Expr::Call { func_name, arguments, is_macro } => Expr::Call {
                func_name: copy_bytes(func_name),
                arguments: copy_exprs(arguments),
                is_macro: *is_macro,
            },
        }
    }
}

} // verus!
