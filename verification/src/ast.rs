//! The abstract syntax tree: statements, expressions and binary operators.
//!
//! Nodes are built bottom-up by the parser and are immutable thereafter.
//! `StatementView` and `ExpressionView` are the mathematical images of the
//! tree, with names as character sequences and child lists as sequences.

use vstd::prelude::*;

verus! {

/// A binary operator of the source language.
///
/// Multiplicative operators bind tighter than additive ones; all comparison
/// operators bind loosest.  There is no greater-or-equal operator: the
/// asymmetry with `LtEq` is a fact of the source grammar.
#[derive(Debug, Clone, Copy, PartialEq, Eq, Structural)]
pub enum BinaryOperator {
    Add,
    Sub,
    Mul,
    Div,
    Eq,
    NEq,
    Gt,
    Lt,
    LtEq,
}

/// An expression of the source language.
///
/// `FunctionArg` is a parameter reference: it is distinguished from
/// `Variable` only at the binding site of a parameter list.  `Fetch` models
/// an external request primitive taking a method, a URL and an optional
/// body expression.
#[derive(Debug)]
pub enum Expression {
    Integer(i64),
    StringLiteral(String),
    Variable(String),
    FunctionArg(String),
    BinaryOp { left: Box<Expression>, op: BinaryOperator, right: Box<Expression> },
    FunctionCall { name: String, args: Vec<Expression> },
    Fetch { method: Box<Expression>, url: Box<Expression>, body: Option<Box<Expression>> },
}

/// A statement of the source language.
///
/// `Send` is an early return carrying a value.  A `Function` owns its
/// parameter list (each entry a `FunctionArg`) and its body in order.
/// `Fetch` is the request primitive used for its side effect alone.
#[derive(Debug)]
pub enum Statement {
    Assign { name: String, value: Expression },
    Print(Expression),
    Send(Expression),
    Function { name: String, params: Vec<Expression>, body: Vec<Statement> },
    FunctionCall { name: String, args: Vec<Expression> },
    If { condition: Expression, then_body: Vec<Statement>, else_body: Option<Vec<Statement>> },
    While { condition: Expression, body: Vec<Statement> },
    Fetch { method: Expression, url: Expression, body: Option<Expression> },
}

/// The mathematical image of an `Expression`.
pub enum ExpressionView {
    Integer(i64),
    StringLiteral(Seq<char>),
    Variable(Seq<char>),
    FunctionArg(Seq<char>),
    BinaryOp { left: Box<ExpressionView>, op: BinaryOperator, right: Box<ExpressionView> },
    FunctionCall { name: Seq<char>, args: Seq<ExpressionView> },
    Fetch { method: Box<ExpressionView>, url: Box<ExpressionView>, body: Option<Box<ExpressionView>> },
}

/// The mathematical image of a `Statement`.
pub enum StatementView {
    Assign { name: Seq<char>, value: ExpressionView },
    Print(ExpressionView),
    Send(ExpressionView),
    Function { name: Seq<char>, params: Seq<ExpressionView>, body: Seq<StatementView> },
    FunctionCall { name: Seq<char>, args: Seq<ExpressionView> },
    If { condition: ExpressionView, then_body: Seq<StatementView>, else_body: Option<Seq<StatementView>> },
    While { condition: ExpressionView, body: Seq<StatementView> },
    Fetch { method: ExpressionView, url: ExpressionView, body: Option<ExpressionView> },
}

/// The mathematical image of an `Expression`.
pub open spec fn expr_view(e: Expression) -> ExpressionView
    decreases e,
{
    match e {
        Expression::Integer(n) => ExpressionView::Integer(n),
        Expression::StringLiteral(s) => ExpressionView::StringLiteral(s@),
        Expression::Variable(s) => ExpressionView::Variable(s@),
        Expression::FunctionArg(s) => ExpressionView::FunctionArg(s@),
        Expression::BinaryOp { left, op, right } => ExpressionView::BinaryOp {
            left: Box::new(expr_view(*left)),
            op,
            right: Box::new(expr_view(*right)),
        },
        Expression::FunctionCall { name, args } => {
            proof {
                assert(decreases_to!(args => args@));
            }
            ExpressionView::FunctionCall { name: name@, args: exprs_view(args@) }
        },
        Expression::Fetch { method, url, body } => ExpressionView::Fetch {
            method: Box::new(expr_view(*method)),
            url: Box::new(expr_view(*url)),
            body: match body {
                Some(b) => Some(Box::new(expr_view(*b))),
                None => None,
            },
        },
    }
}

/// The views of an expression sequence, in order.
pub open spec fn exprs_view(es: Seq<Expression>) -> Seq<ExpressionView>
    decreases es,
{
    if es.len() == 0 {
        Seq::empty()
    } else {
        seq![expr_view(es[0])] + exprs_view(es.drop_first())
    }
}

/// The mathematical image of a `Statement`.
pub open spec fn stmt_view(s: Statement) -> StatementView
    decreases s,
{
    match s {
        Statement::Assign { name, value } => StatementView::Assign {
            name: name@,
            value: expr_view(value),
        },
        Statement::Print(e) => StatementView::Print(expr_view(e)),
        Statement::Send(e) => StatementView::Send(expr_view(e)),
        Statement::Function { name, params, body } => {
            proof {
                assert(decreases_to!(params => params@));
                assert(decreases_to!(body => body@));
            }
            StatementView::Function {
                name: name@,
                params: exprs_view(params@),
                body: stmts_view(body@),
            }
        },
        Statement::FunctionCall { name, args } => {
            proof {
                assert(decreases_to!(args => args@));
            }
            StatementView::FunctionCall { name: name@, args: exprs_view(args@) }
        },
        Statement::If { condition, then_body, else_body } => {
            proof {
                assert(decreases_to!(then_body => then_body@));
                if else_body is Some {
                    assert(decreases_to!(else_body => else_body->0));
                    assert(decreases_to!(else_body->0 => else_body->0@));
                }
            }
            StatementView::If {
                condition: expr_view(condition),
                then_body: stmts_view(then_body@),
                else_body: match else_body {
                    Some(b) => Some(stmts_view(b@)),
                    None => None,
                },
            }
        },
        Statement::While { condition, body } => {
            proof {
                assert(decreases_to!(body => body@));
            }
            StatementView::While { condition: expr_view(condition), body: stmts_view(body@) }
        },
        Statement::Fetch { method, url, body } => StatementView::Fetch {
            method: expr_view(method),
            url: expr_view(url),
            body: match body {
                Some(b) => Some(expr_view(b)),
                None => None,
            },
        },
    }
}

/// The views of a statement sequence, in order.
pub open spec fn stmts_view(ss: Seq<Statement>) -> Seq<StatementView>
    decreases ss,
{
    if ss.len() == 0 {
        Seq::empty()
    } else {
        seq![stmt_view(ss[0])] + stmts_view(ss.drop_first())
    }
}

impl View for Expression {
    type V = ExpressionView;

    open spec fn view(&self) -> ExpressionView {
        expr_view(*self)
    }
}

impl View for Statement {
    type V = StatementView;

    open spec fn view(&self) -> StatementView {
        stmt_view(*self)
    }
}

/// An expression-sequence view is the element-wise view.
pub proof fn lemma_exprs_view(es: Seq<Expression>)
    ensures
        exprs_view(es).len() == es.len(),
        forall|i: int| 0 <= i < es.len() ==> exprs_view(es)[i] == expr_view(#[trigger] es[i]),
    decreases es,
{
    if es.len() > 0 {
        lemma_exprs_view(es.drop_first());
        assert forall|i: int| 0 <= i < es.len() implies exprs_view(es)[i] == expr_view(
            #[trigger] es[i],
        ) by {
            if i > 0 {
                assert(es.drop_first()[i - 1] == es[i]);
                assert(exprs_view(es)[i] == exprs_view(es.drop_first())[i - 1]);
            }
        }
    }
}

/// A statement-sequence view is the element-wise view.
pub proof fn lemma_stmts_view(ss: Seq<Statement>)
    ensures
        stmts_view(ss).len() == ss.len(),
        forall|i: int| 0 <= i < ss.len() ==> stmts_view(ss)[i] == stmt_view(#[trigger] ss[i]),
    decreases ss,
{
    if ss.len() > 0 {
        lemma_stmts_view(ss.drop_first());
        assert forall|i: int| 0 <= i < ss.len() implies stmts_view(ss)[i] == stmt_view(
            #[trigger] ss[i],
        ) by {
            if i > 0 {
                assert(ss.drop_first()[i - 1] == ss[i]);
                assert(stmts_view(ss)[i] == stmts_view(ss.drop_first())[i - 1]);
            }
        }
    }
}

} // verus!
