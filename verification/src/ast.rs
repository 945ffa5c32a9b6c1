//! The data model of the language: runtime values, expressions and
//! statements, together with their mathematical views.
//!
//! Each executable type `T` has a view type `TView` whose text is a
//! `Seq<char>` and whose integers are unbounded; contracts and the
//! specification-level semantics speak of views only.

use vstd::prelude::*;

verus! {

/// A runtime value: a signed 64-bit integer or an owned text string.
#[derive(Debug, PartialEq, Eq)]
pub enum Value {
    Int(i64),
    Str(String),
}

impl Clone for Value {
    /// Cloning yields an equal value, field for field.
    fn clone(&self) -> (r: Self)
        ensures
            r == *self,
    {
        match self {
            Value::Int(i) => Value::Int(*i),
            Value::Str(s) => Value::Str(s.clone()),
        }
    }
}

/// Mathematical model of a [`Value`].
pub enum ValueView {
    Int(int),
    Str(Seq<char>),
}

impl DeepView for Value {
    type V = ValueView;

    open spec fn deep_view(&self) -> ValueView {
        match self {
            Value::Int(i) => ValueView::Int(*i as int),
            Value::Str(s) => ValueView::Str(s@),
        }
    }
}

/// An expression: a literal, a variable reference, the pronoun `it`
/// (the value of the most recent assignment), or a binary comparison.
#[derive(Debug, PartialEq, Eq)]
pub enum Expr {
    Int(i64),
    Str(String),
    Var(String),
    LastValue,
    Greater(Box<Expr>, Box<Expr>),
    Less(Box<Expr>, Box<Expr>),
    Equal(Box<Expr>, Box<Expr>),
}

/// Mathematical model of an [`Expr`].
pub enum ExprView {
    Int(int),
    Str(Seq<char>),
    Var(Seq<char>),
    LastValue,
    Greater(Box<ExprView>, Box<ExprView>),
    Less(Box<ExprView>, Box<ExprView>),
    Equal(Box<ExprView>, Box<ExprView>),
}

/// The view of an expression tree, written as a free function so that the
/// recursion does not pass through the `DeepView` impl for `Box`.
pub open spec fn view_of_expr(e: Expr) -> ExprView
    decreases e,
{
    match e {
        Expr::Int(i) => ExprView::Int(i as int),
        Expr::Str(s) => ExprView::Str(s@),
        Expr::Var(s) => ExprView::Var(s@),
        Expr::LastValue => ExprView::LastValue,
        Expr::Greater(a, b) => ExprView::Greater(
            Box::new(view_of_expr(*a)),
            Box::new(view_of_expr(*b)),
        ),
        Expr::Less(a, b) => ExprView::Less(Box::new(view_of_expr(*a)), Box::new(view_of_expr(*b))),
        Expr::Equal(a, b) => ExprView::Equal(
            Box::new(view_of_expr(*a)),
            Box::new(view_of_expr(*b)),
        ),
    }
}

impl DeepView for Expr {
    type V = ExprView;

    open spec fn deep_view(&self) -> ExprView {
        view_of_expr(*self)
    }
}

/// A statement: assignment, the three in-place arithmetic forms, output,
/// a conditional with no else branch, sequencing ("a then b"), or a
/// bounded loop.
#[derive(Debug, PartialEq, Eq)]
pub enum Stmt {
    /// `set NAME to EXPR`
    Assign(String, Expr),
    /// `add EXPR to NAME`
    AddTo(Expr, String),
    /// `subtract EXPR from NAME`
    SubFrom(Expr, String),
    /// `multiply NAME by EXPR`
    MulBy(String, Expr),
    /// `show EXPR`, `print EXPR`, `display EXPR`
    Show(Expr),
    /// `if EXPR then STMT`
    If(Expr, Box<Stmt>),
    /// `STMT then STMT`
    Chain(Box<Stmt>, Box<Stmt>),
    /// `count to EXPR ... STMT`
    Loop(Expr, Box<Stmt>),
}

/// Mathematical model of a [`Stmt`].
pub enum StmtView {
    Assign(Seq<char>, ExprView),
    AddTo(ExprView, Seq<char>),
    SubFrom(ExprView, Seq<char>),
    MulBy(Seq<char>, ExprView),
    Show(ExprView),
    If(ExprView, Box<StmtView>),
    Chain(Box<StmtView>, Box<StmtView>),
    Loop(ExprView, Box<StmtView>),
}

/// The view of a statement tree, written as a free function for the same
/// reason as [`view_of_expr`].
pub open spec fn view_of_stmt(s: Stmt) -> StmtView
    decreases s,
{
    match s {
        Stmt::Assign(name, e) => StmtView::Assign(name@, view_of_expr(e)),
        Stmt::AddTo(e, name) => StmtView::AddTo(view_of_expr(e), name@),
        Stmt::SubFrom(e, name) => StmtView::SubFrom(view_of_expr(e), name@),
        Stmt::MulBy(name, e) => StmtView::MulBy(name@, view_of_expr(e)),
        Stmt::Show(e) => StmtView::Show(view_of_expr(e)),
        Stmt::If(c, b) => StmtView::If(view_of_expr(c), Box::new(view_of_stmt(*b))),
        Stmt::Chain(a, b) => StmtView::Chain(
            Box::new(view_of_stmt(*a)),
            Box::new(view_of_stmt(*b)),
        ),
        Stmt::Loop(c, b) => StmtView::Loop(view_of_expr(c), Box::new(view_of_stmt(*b))),
    }
}

impl DeepView for Stmt {
    type V = StmtView;

    open spec fn deep_view(&self) -> StmtView {
        view_of_stmt(*self)
    }
}

} // verus!
