//! Recursive-descent parsing of the token stream into a statement tree,
//! with precedence climbing for expressions.
//!
//! The grammar has two binding tiers above comparisons: multiplicative
//! operators bind tighter than additive ones, and every comparison binds
//! loosest, so `a + b == c` parses as `(a + b) == c`.  The climb is
//! left-associative: same-precedence chains produce left-leaning trees.
//!
//! The specification-level parser (`sp_program` and companions) works on
//! token views and an integer cursor; the executable parser is proved to
//! return exactly its result.  After a statement, a following `end`,
//! semicolon, or `Then` token is consumed; the end of the stream, a
//! following `else` (left for the enclosing conditional), and a following
//! function-definition keyword are tolerated; any other token is a
//! terminator error.

use vstd::prelude::*;
use crate::tokens::{Token, TokenView, tokens_view};
use crate::ast::{BinaryOperator, Expression, ExpressionView, Statement, StatementView, expr_view,
    stmt_view, exprs_view, stmts_view, lemma_exprs_view, lemma_stmts_view};

verus! {

/// What the parser required at the point of failure.
#[derive(Debug, Clone, Copy, PartialEq, Eq, Structural)]
pub enum Expected {
    /// A token that can begin a statement.
    Statement,
    /// A statement terminator.
    Terminator,
    /// A token that can begin an expression.
    Expression,
    /// A parameter name.
    Identifier,
    /// The assignment operator after an assignment target.
    Assign,
    /// The keyword that follows a conditional's condition.
    Then,
    /// The keyword that follows a loop condition.
    Do,
    /// A closing parenthesis.
    RParen,
    /// A comma or a closing parenthesis after a parameter.
    CommaOrRParen,
}

/// A fatal parse error: what was required, and the token found instead
/// (`None` when the stream ran out).
#[derive(Debug, PartialEq)]
pub struct ParseError {
    pub expected: Expected,
    pub found: Option<Token>,
}

/// The mathematical image of a `ParseError`.
pub struct ParseErrorView {
    pub expected: Expected,
    pub found: Option<TokenView>,
}

impl View for ParseError {
    type V = ParseErrorView;

    open spec fn view(&self) -> ParseErrorView {
        ParseErrorView {
            expected: self.expected,
            found: match self.found {
                Some(t) => Some(t@),
                None => None,
            },
        }
    }
}

/// The error of a parse step that failed to advance the cursor.
/// Every successful parse step advances the cursor and stays within the
/// stream — the executable parser's contracts prove as much — so no
/// reachable path produces this value; the branches that return it exist
/// to make the termination measure immediate.
pub open spec fn stall_error() -> ParseErrorView {
    ParseErrorView { expected: Expected::Statement, found: None }
}

/// The operator and binding strength a token denotes, if any.
/// Comparisons bind loosest, additive operators tighter, multiplicative
/// operators tightest.
pub open spec fn op_of(t: TokenView) -> Option<(BinaryOperator, int)> {
    match t {
        TokenView::Plus => Some((BinaryOperator::Add, 1)),
        TokenView::Minus => Some((BinaryOperator::Sub, 1)),
        TokenView::Multiply => Some((BinaryOperator::Mul, 2)),
        TokenView::Divide => Some((BinaryOperator::Div, 2)),
        TokenView::Eq => Some((BinaryOperator::Eq, 0)),
        TokenView::NotEq => Some((BinaryOperator::NEq, 0)),
        TokenView::Less => Some((BinaryOperator::Lt, 0)),
        TokenView::LessEq => Some((BinaryOperator::LtEq, 0)),
        TokenView::Greater => Some((BinaryOperator::Gt, 0)),
        _ => None,
    }
}

/// The name of the external fetch primitive.
pub open spec fn fetch_name() -> Seq<char> {
    seq!['f', 'e', 't', 'c', 'h']
}

/// A call expression, or the fetch primitive when the callee is named
/// `fetch` and takes a method, a URL and an optional body.
pub open spec fn mk_call_expr(name: Seq<char>, args: Seq<ExpressionView>) -> ExpressionView {
    if name == fetch_name() && (args.len() == 2 || args.len() == 3) {
        ExpressionView::Fetch {
            method: Box::new(args[0]),
            url: Box::new(args[1]),
            body: if args.len() == 3 {
                Some(Box::new(args[2]))
            } else {
                None
            },
        }
    } else {
        ExpressionView::FunctionCall { name, args }
    }
}

/// A call statement, or the fetch primitive when the callee is named
/// `fetch` and takes a method, a URL and an optional body.
pub open spec fn mk_call_stmt(name: Seq<char>, args: Seq<ExpressionView>) -> StatementView {
    if name == fetch_name() && (args.len() == 2 || args.len() == 3) {
        StatementView::Fetch {
            method: args[0],
            url: args[1],
            body: if args.len() == 3 {
                Some(args[2])
            } else {
                None
            },
        }
    } else {
        StatementView::FunctionCall { name, args }
    }
}

/// An atomic expression: an integer literal, a string literal, a variable
/// reference, or a sigil call with an optional argument list.
pub open spec fn sp_atomic(ts: Seq<TokenView>, pos: int) -> Result<
    (ExpressionView, int),
    ParseErrorView,
>
    decreases ts.len() - pos, 0int,
{
    if !(0 <= pos < ts.len()) {
        Err(ParseErrorView { expected: Expected::Expression, found: None })
    } else {
        match ts[pos] {
            TokenView::Number(n) => Ok((ExpressionView::Integer(n), pos + 1)),
            TokenView::StrLit(s) => Ok((ExpressionView::StringLiteral(s), pos + 1)),
            TokenView::Identifier(name) => Ok((ExpressionView::Variable(name), pos + 1)),
            TokenView::FunctionCall(name) => {
                if pos + 1 < ts.len() && ts[pos + 1] is LParen {
                    match sp_args(ts, pos + 2) {
                        Ok((args, p)) => Ok((mk_call_expr(name, args), p)),
                        Err(e) => Err(e),
                    }
                } else {
                    Ok((mk_call_expr(name, Seq::empty()), pos + 1))
                }
            },
            _ => Err(ParseErrorView { expected: Expected::Expression, found: Some(ts[pos]) }),
        }
    }
}

/// A comma-separated argument list after an opening parenthesis, up to and
/// including the closing parenthesis.  A trailing comma is tolerated.
pub open spec fn sp_args(ts: Seq<TokenView>, pos: int) -> Result<
    (Seq<ExpressionView>, int),
    ParseErrorView,
>
    decreases ts.len() - pos, 3int,
{
    if !(0 <= pos < ts.len()) {
        Err(ParseErrorView { expected: Expected::RParen, found: None })
    } else if ts[pos] is RParen {
        Ok((Seq::empty(), pos + 1))
    } else {
        match sp_expression(ts, pos, 0) {
            Ok((e, p)) => {
                if p <= pos {
                    Err(stall_error())
                } else if p < ts.len() && ts[p] is Comma {
                    match sp_args(ts, p + 1) {
                        Ok((rest, p2)) => Ok((seq![e] + rest, p2)),
                        Err(err) => Err(err),
                    }
                } else if p < ts.len() && ts[p] is RParen {
                    Ok((seq![e], p + 1))
                } else if p < ts.len() {
                    Err(ParseErrorView { expected: Expected::RParen, found: Some(ts[p]) })
                } else {
                    Err(ParseErrorView { expected: Expected::RParen, found: None })
                }
            },
            Err(e) => Err(e),
        }
    }
}

/// An expression whose operators all bind at least as tightly as `min`.
pub open spec fn sp_expression(ts: Seq<TokenView>, pos: int, min: int) -> Result<
    (ExpressionView, int),
    ParseErrorView,
>
    decreases ts.len() - pos, 1int,
{
    match sp_atomic(ts, pos) {
        Ok((left, p)) => {
            if p <= pos || p > ts.len() {
                Err(stall_error())
            } else {
                sp_binops(ts, p, left, min)
            }
        },
        Err(e) => Err(e),
    }
}

/// The precedence climb: while the next operator binds at least as
/// tightly as `min`, consume it, parse its right operand with the minimum
/// raised by one, and extend `left` leftward.
pub open spec fn sp_binops(ts: Seq<TokenView>, pos: int, left: ExpressionView, min: int) -> Result<
    (ExpressionView, int),
    ParseErrorView,
>
    decreases ts.len() - pos, 2int,
{
    if 0 <= pos < ts.len() {
        match op_of(ts[pos]) {
            Some((op, prec)) => {
                if prec >= min {
                    match sp_expression(ts, pos + 1, prec + 1) {
                        Ok((right, p2)) => {
                            if p2 <= pos || p2 > ts.len() {
                                Err(stall_error())
                            } else {
                                sp_binops(
                                    ts,
                                    p2,
                                    ExpressionView::BinaryOp {
                                        left: Box::new(left),
                                        op,
                                        right: Box::new(right),
                                    },
                                    min,
                                )
                            }
                        },
                        Err(e) => Err(e),
                    }
                } else {
                    Ok((left, pos))
                }
            },
            None => Ok((left, pos)),
        }
    } else {
        Ok((left, pos))
    }
}

/// The statement terminator: a semicolon or the conditional keyword is
/// consumed and discarded; the end of the stream, a following `end` or
/// `else` (both left for the enclosing construct to consume), and a
/// following function definition are tolerated; anything else is an
/// error.
pub open spec fn sp_terminator(ts: Seq<TokenView>, pos: int) -> Result<int, ParseErrorView> {
    if !(0 <= pos < ts.len()) {
        Ok(pos)
    } else {
        match ts[pos] {
            TokenView::End => Ok(pos),
            TokenView::Semicolon => Ok(pos + 1),
            TokenView::Then => Ok(pos + 1),
            TokenView::Else => Ok(pos),
            TokenView::Function => Ok(pos),
            _ => Err(ParseErrorView { expected: Expected::Terminator, found: Some(ts[pos]) }),
        }
    }
}

/// A comma-separated parameter list after an opening parenthesis, up to
/// and including the closing parenthesis; each parameter is a bare
/// identifier, bound as a `FunctionArg`.
pub open spec fn sp_params(ts: Seq<TokenView>, pos: int) -> Result<
    (Seq<ExpressionView>, int),
    ParseErrorView,
>
    decreases ts.len() - pos,
{
    if !(0 <= pos < ts.len()) {
        Err(ParseErrorView { expected: Expected::RParen, found: None })
    } else if ts[pos] is RParen {
        Ok((Seq::empty(), pos + 1))
    } else {
        match ts[pos] {
            TokenView::Identifier(name) => {
                if pos + 1 < ts.len() && ts[pos + 1] is Comma {
                    match sp_params(ts, pos + 2) {
                        Ok((rest, p)) => Ok((seq![ExpressionView::FunctionArg(name)] + rest, p)),
                        Err(e) => Err(e),
                    }
                } else if pos + 1 < ts.len() && ts[pos + 1] is RParen {
                    Ok((seq![ExpressionView::FunctionArg(name)], pos + 2))
                } else if pos + 1 < ts.len() {
                    Err(
                        ParseErrorView {
                            expected: Expected::CommaOrRParen,
                            found: Some(ts[pos + 1]),
                        },
                    )
                } else {
                    Err(ParseErrorView { expected: Expected::CommaOrRParen, found: None })
                }
            },
            _ => Err(ParseErrorView { expected: Expected::Identifier, found: Some(ts[pos]) }),
        }
    }
}

/// A statement sequence: statements and their terminators, up to the end
/// of the stream, an `end` token, or (when `stop_else` holds) an `else`
/// token.
pub open spec fn sp_body(ts: Seq<TokenView>, pos: int, stop_else: bool) -> Result<
    (Seq<StatementView>, int),
    ParseErrorView,
>
    decreases ts.len() - pos, 5int,
{
    if !(0 <= pos < ts.len()) {
        Ok((Seq::empty(), pos))
    } else if ts[pos] is End {
        Ok((Seq::empty(), pos))
    } else if stop_else && ts[pos] is Else {
        Ok((Seq::empty(), pos))
    } else {
        match sp_statement(ts, pos) {
            Ok((st, p)) => {
                if p <= pos {
                    Err(stall_error())
                } else {
                    match sp_terminator(ts, p) {
                        Ok(p2) => {
                            if p2 <= pos || p2 > ts.len() {
                                Err(stall_error())
                            } else {
                                match sp_body(ts, p2, stop_else) {
                                    Ok((rest, p3)) => Ok((seq![st] + rest, p3)),
                                    Err(e) => Err(e),
                                }
                            }
                        },
                        Err(e) => Err(e),
                    }
                }
            },
            Err(e) => Err(e),
        }
    }
}

/// A function definition: the keyword, a name (the literal text `Name`
/// when the next token is not an identifier), an optional parenthesized
/// parameter list, and a body; a closing `end` still present is consumed.
pub open spec fn sp_function(ts: Seq<TokenView>, pos: int) -> Result<
    (StatementView, int),
    ParseErrorView,
>
    decreases ts.len() - pos, 3int,
{
    let (name, p1) = if pos + 1 < ts.len() && ts[pos + 1] is Identifier {
        (ts[pos + 1]->Identifier_0, pos + 2)
    } else {
        (seq!['N', 'a', 'm', 'e'], pos + 1)
    };
    let params_r = if p1 < ts.len() && ts[p1] is LParen {
        sp_params(ts, p1 + 1)
    } else {
        Ok((Seq::empty(), p1))
    };
    match params_r {
        Ok((params, p2)) => {
            if p2 <= pos || p2 > ts.len() {
                Err(stall_error())
            } else {
                match sp_body(ts, p2, false) {
                    Ok((body, p3)) => {
                        let p4 = if p3 < ts.len() && ts[p3] is End {
                            p3 + 1
                        } else {
                            p3
                        };
                        Ok((StatementView::Function { name, params, body }, p4))
                    },
                    Err(e) => Err(e),
                }
            }
        },
        Err(e) => Err(e),
    }
}

/// A conditional: condition, `Then` keyword, a body up to `else` or
/// `end`, an optional else-body up to `end`; a closing `end` still
/// present is consumed.
pub open spec fn sp_if(ts: Seq<TokenView>, pos: int) -> Result<(StatementView, int), ParseErrorView>
    decreases ts.len() - pos, 3int,
{
    match sp_expression(ts, pos + 1, 0) {
        Ok((cond, p)) => {
            if p <= pos {
                Err(stall_error())
            } else if p < ts.len() && ts[p] is Then {
                match sp_body(ts, p + 1, true) {
                    Ok((thn, p2)) => {
                        if p2 <= pos {
                            Err(stall_error())
                        } else if p2 < ts.len() && ts[p2] is Else {
                            match sp_body(ts, p2 + 1, false) {
                                Ok((els, p3)) => {
                                    let p4 = if p3 < ts.len() && ts[p3] is End {
                                        p3 + 1
                                    } else {
                                        p3
                                    };
                                    Ok(
                                        (
                                            StatementView::If {
                                                condition: cond,
                                                then_body: thn,
                                                else_body: Some(els),
                                            },
                                            p4,
                                        ),
                                    )
                                },
                                Err(e) => Err(e),
                            }
                        } else {
                            let p4 = if p2 < ts.len() && ts[p2] is End {
                                p2 + 1
                            } else {
                                p2
                            };
                            Ok(
                                (
                                    StatementView::If {
                                        condition: cond,
                                        then_body: thn,
                                        else_body: None,
                                    },
                                    p4,
                                ),
                            )
                        }
                    },
                    Err(e) => Err(e),
                }
            } else if p < ts.len() {
                Err(ParseErrorView { expected: Expected::Then, found: Some(ts[p]) })
            } else {
                Err(ParseErrorView { expected: Expected::Then, found: None })
            }
        },
        Err(e) => Err(e),
    }
}

/// A loop: condition, `do`, a body up to `end`; a closing `end` still
/// present is consumed.
pub open spec fn sp_while(ts: Seq<TokenView>, pos: int) -> Result<
    (StatementView, int),
    ParseErrorView,
>
    decreases ts.len() - pos, 3int,
{
    match sp_expression(ts, pos + 1, 0) {
        Ok((cond, p)) => {
            if p <= pos {
                Err(stall_error())
            } else if p < ts.len() && ts[p] is Do {
                match sp_body(ts, p + 1, false) {
                    Ok((body, p2)) => {
                        let p3 = if p2 < ts.len() && ts[p2] is End {
                            p2 + 1
                        } else {
                            p2
                        };
                        Ok((StatementView::While { condition: cond, body }, p3))
                    },
                    Err(e) => Err(e),
                }
            } else if p < ts.len() {
                Err(ParseErrorView { expected: Expected::Do, found: Some(ts[p]) })
            } else {
                Err(ParseErrorView { expected: Expected::Do, found: None })
            }
        },
        Err(e) => Err(e),
    }
}

/// One statement, dispatched on its leading token.
pub open spec fn sp_statement(ts: Seq<TokenView>, pos: int) -> Result<
    (StatementView, int),
    ParseErrorView,
>
    decreases ts.len() - pos, 4int,
{
    if !(0 <= pos < ts.len()) {
        Err(ParseErrorView { expected: Expected::Statement, found: None })
    } else {
        match ts[pos] {
            TokenView::Function => sp_function(ts, pos),
            TokenView::FunctionCall(name) => {
                if pos + 1 < ts.len() && ts[pos + 1] is LParen {
                    match sp_args(ts, pos + 2) {
                        Ok((args, p)) => Ok((mk_call_stmt(name, args), p)),
                        Err(e) => Err(e),
                    }
                } else {
                    Ok((mk_call_stmt(name, Seq::empty()), pos + 1))
                }
            },
            TokenView::Print => {
                match sp_expression(ts, pos + 1, 0) {
                    Ok((e, p)) => Ok((StatementView::Print(e), p)),
                    Err(e) => Err(e),
                }
            },
            TokenView::Send => {
                match sp_expression(ts, pos + 1, 0) {
                    Ok((e, p)) => Ok((StatementView::Send(e), p)),
                    Err(e) => Err(e),
                }
            },
            TokenView::If => sp_if(ts, pos),
            TokenView::While => sp_while(ts, pos),
            TokenView::Identifier(name) => {
                if pos + 1 < ts.len() && ts[pos + 1] is Assign {
                    match sp_expression(ts, pos + 2, 0) {
                        Ok((value, p)) => Ok((StatementView::Assign { name, value }, p)),
                        Err(e) => Err(e),
                    }
                } else if pos + 1 < ts.len() {
                    Err(ParseErrorView { expected: Expected::Assign, found: Some(ts[pos + 1]) })
                } else {
                    Err(ParseErrorView { expected: Expected::Assign, found: None })
                }
            },
            _ => Err(ParseErrorView { expected: Expected::Statement, found: Some(ts[pos]) }),
        }
    }
}

/// Prepends one statement to the outcome of parsing the rest of the
/// program.
pub open spec fn prepend_stmt(
    st: StatementView,
    rest: Result<(Seq<StatementView>, int), ParseErrorView>,
) -> Result<(Seq<StatementView>, int), ParseErrorView> {
    match rest {
        Ok((ss, p)) => Ok((seq![st] + ss, p)),
        Err(e) => Err(e),
    }
}

/// The whole program: statements and terminators until the stream is
/// exhausted.
pub open spec fn sp_program(ts: Seq<TokenView>, pos: int) -> Result<
    (Seq<StatementView>, int),
    ParseErrorView,
>
    decreases ts.len() - pos, 6int,
{
    if !(0 <= pos < ts.len()) {
        Ok((Seq::empty(), pos))
    } else {
        match sp_statement(ts, pos) {
            Ok((st, p)) => {
                if p <= pos {
                    Err(stall_error())
                } else {
                    match sp_terminator(ts, p) {
                        Ok(p2) => {
                            if p2 <= pos || p2 > ts.len() {
                                Err(stall_error())
                            } else {
                                match sp_program(ts, p2) {
                                    Ok((rest, p3)) => Ok((seq![st] + rest, p3)),
                                    Err(e) => Err(e),
                                }
                            }
                        },
                        Err(e) => Err(e),
                    }
                }
            },
            Err(e) => Err(e),
        }
    }
}

/// Prepends an already-parsed statement prefix to the outcome of parsing
/// the rest of the program.
pub open spec fn cons_stmts(
    acc: Seq<StatementView>,
    rest: Result<(Seq<StatementView>, int), ParseErrorView>,
) -> Result<(Seq<StatementView>, int), ParseErrorView> {
    match rest {
        Ok((ss, p)) => Ok((acc + ss, p)),
        Err(e) => Err(e),
    }
}

/// Pushing a statement onto an accumulator commutes with prepending.
proof fn lemma_cons_stmts_shift(
    acc: Seq<StatementView>,
    st: StatementView,
    rest: Result<(Seq<StatementView>, int), ParseErrorView>,
)
    ensures
        cons_stmts(acc, prepend_stmt(st, rest)) == cons_stmts(acc.push(st), rest),
{
    match rest {
        Ok((ss, p)) => {
            assert(acc + (seq![st] + ss) =~= acc.push(st) + ss);
        },
        Err(_) => {},
    }
}

/// The view of a pushed statement vector is the pushed view sequence.
proof fn lemma_stmts_view_push(ss: Seq<Statement>, s: Statement)
    ensures
        stmts_view(ss.push(s)) == stmts_view(ss).push(stmt_view(s)),
{
    lemma_stmts_view(ss.push(s));
    lemma_stmts_view(ss);
    assert forall|i: int| 0 <= i < ss.len() + 1 implies stmts_view(ss.push(s))[i] == stmts_view(
        ss,
    ).push(stmt_view(s))[i] by {
        assert(stmts_view(ss.push(s))[i] == stmt_view(ss.push(s)[i]));
        if i < ss.len() {
            assert(stmts_view(ss)[i] == stmt_view(ss[i]));
            assert(ss.push(s)[i] == ss[i]);
        } else {
            assert(ss.push(s)[i] == s);
        }
    }
    assert(stmts_view(ss.push(s)) =~= stmts_view(ss).push(stmt_view(s)));
}

/// The view of a front-inserted statement vector is the prepended view
/// sequence.
proof fn lemma_stmts_view_prepend(s: Statement, ss: Seq<Statement>)
    ensures
        stmts_view(ss.insert(0, s)) == seq![stmt_view(s)] + stmts_view(ss),
{
    lemma_stmts_view(ss.insert(0, s));
    lemma_stmts_view(ss);
    assert forall|i: int| 0 <= i < ss.len() + 1 implies stmts_view(ss.insert(0, s))[i] == (seq![
        stmt_view(s),
    ] + stmts_view(ss))[i] by {
        assert(stmts_view(ss.insert(0, s))[i] == stmt_view(ss.insert(0, s)[i]));
        if i > 0 {
            assert(stmts_view(ss)[i - 1] == stmt_view(ss[i - 1]));
            assert(ss.insert(0, s)[i] == ss[i - 1]);
        } else {
            assert(ss.insert(0, s)[0] == s);
        }
    }
    assert(stmts_view(ss.insert(0, s)) =~= seq![stmt_view(s)] + stmts_view(ss));
}

/// The view of a front-inserted expression vector is the prepended view
/// sequence.
proof fn lemma_exprs_view_prepend(e: Expression, es: Seq<Expression>)
    ensures
        exprs_view(es.insert(0, e)) == seq![expr_view(e)] + exprs_view(es),
{
    lemma_exprs_view(es.insert(0, e));
    lemma_exprs_view(es);
    assert forall|i: int| 0 <= i < es.len() + 1 implies exprs_view(es.insert(0, e))[i] == (seq![
        expr_view(e),
    ] + exprs_view(es))[i] by {
        assert(exprs_view(es.insert(0, e))[i] == expr_view(es.insert(0, e)[i]));
        if i > 0 {
            assert(exprs_view(es)[i - 1] == expr_view(es[i - 1]));
            assert(es.insert(0, e)[i] == es[i - 1]);
        } else {
            assert(es.insert(0, e)[0] == e);
        }
    }
    assert(exprs_view(es.insert(0, e)) =~= seq![expr_view(e)] + exprs_view(es));
}

/// Whether a token is the opening parenthesis.
fn is_lparen(t: &Token) -> (b: bool)
    ensures
        b == (t@ is LParen),
{
    match t {
        Token::LParen => true,
        _ => false,
    }
}

/// Whether a token is the closing parenthesis.
fn is_rparen(t: &Token) -> (b: bool)
    ensures
        b == (t@ is RParen),
{
    match t {
        Token::RParen => true,
        _ => false,
    }
}

/// Whether a token is the comma.
fn is_comma(t: &Token) -> (b: bool)
    ensures
        b == (t@ is Comma),
{
    match t {
        Token::Comma => true,
        _ => false,
    }
}

/// Whether a token is the assignment operator.
fn is_assign(t: &Token) -> (b: bool)
    ensures
        b == (t@ is Assign),
{
    match t {
        Token::Assign => true,
        _ => false,
    }
}

/// Whether a token is the `end` keyword.
fn is_end_tok(t: &Token) -> (b: bool)
    ensures
        b == (t@ is End),
{
    match t {
        Token::End => true,
        _ => false,
    }
}

/// Whether a token is the `else` keyword.
fn is_else_tok(t: &Token) -> (b: bool)
    ensures
        b == (t@ is Else),
{
    match t {
        Token::Else => true,
        _ => false,
    }
}

/// Whether a token is the keyword that follows a condition.
fn is_then_tok(t: &Token) -> (b: bool)
    ensures
        b == (t@ is Then),
{
    match t {
        Token::Then => true,
        _ => false,
    }
}

/// Whether a token is the `do` keyword.
fn is_do_tok(t: &Token) -> (b: bool)
    ensures
        b == (t@ is Do),
{
    match t {
        Token::Do => true,
        _ => false,
    }
}

/// Whether a name is the fetch primitive's.
fn name_is_fetch(name: &String) -> (b: bool)
    ensures
        b == (name@ == fetch_name()),
{
    let f = String::from_str("fetch");
    proof {
        reveal_strlit("fetch");
        assert("fetch"@ =~= fetch_name());
    }
    *name == f
}

/// The operator a token denotes with its binding strength, mirroring
/// `op_of`.
fn get_operator(t: &Token) -> (o: Option<(BinaryOperator, u32)>)
    ensures
        match o {
            Some((op, prec)) => op_of(t@) == Some((op, prec as int)) && prec <= 2,
            None => op_of(t@) is None,
        },
{
    match t {
        Token::Plus => Some((BinaryOperator::Add, 1)),
        Token::Minus => Some((BinaryOperator::Sub, 1)),
        Token::Multiply => Some((BinaryOperator::Mul, 2)),
        Token::Divide => Some((BinaryOperator::Div, 2)),
        Token::Eq => Some((BinaryOperator::Eq, 0)),
        Token::NotEq => Some((BinaryOperator::NEq, 0)),
        Token::Less => Some((BinaryOperator::Lt, 0)),
        Token::LessEq => Some((BinaryOperator::LtEq, 0)),
        Token::Greater => Some((BinaryOperator::Gt, 0)),
        _ => None,
    }
}

/// A call expression, folding a call of the fetch primitive into the
/// fetch node; mirrors `mk_call_expr`.
fn build_call_expr(name: String, args: Vec<Expression>) -> (e: Expression)
    ensures
        e@ == mk_call_expr(name@, exprs_view(args@)),
{
    proof {
        lemma_exprs_view(args@);
    }
    let is_fetch = name_is_fetch(&name);
    if is_fetch && (args.len() == 2 || args.len() == 3) {
        let mut args = args;
        let method = args.remove(0);
        let url = args.remove(0);
        let body = if args.len() == 1 {
            let b = args.remove(0);
            Some(Box::new(b))
        } else {
            None
        };
        Expression::Fetch { method: Box::new(method), url: Box::new(url), body }
    } else {
        Expression::FunctionCall { name, args }
    }
}

/// A call statement, folding a call of the fetch primitive into the
/// fetch node; mirrors `mk_call_stmt`.
fn build_call_stmt(name: String, args: Vec<Expression>) -> (s: Statement)
    ensures
        s@ == mk_call_stmt(name@, exprs_view(args@)),
{
    proof {
        lemma_exprs_view(args@);
    }
    let is_fetch = name_is_fetch(&name);
    if is_fetch && (args.len() == 2 || args.len() == 3) {
        let mut args = args;
        let method = args.remove(0);
        let url = args.remove(0);
        let body = if args.len() == 1 {
            let b = args.remove(0);
            Some(b)
        } else {
            None
        };
        Statement::Fetch { method, url, body }
    } else {
        Statement::FunctionCall { name, args }
    }
}

/// An atomic expression, mirroring `sp_atomic`.
fn parse_atomics(tokens: &Vec<Token>, pos: usize) -> (r: Result<(Expression, usize), ParseError>)
    ensures
        match (r, sp_atomic(tokens_view(tokens@), pos as int)) {
            (Ok((e, p)), Ok((ev, pv))) => e@ == ev && p as int == pv && pos < p <= tokens@.len(),
            (Err(e), Err(ev)) => e@ == ev,
            _ => false,
        },
    decreases tokens@.len() - pos, 0int,
{
    let ghost ts = tokens_view(tokens@);
    let n = tokens.len();
    if pos >= n {
        return Err(ParseError { expected: Expected::Expression, found: None });
    }
    match &tokens[pos] {
        Token::Number(v) => Ok((Expression::Integer(*v), pos + 1)),
        Token::StrLit(s) => Ok((Expression::StringLiteral(s.clone()), pos + 1)),
        Token::Identifier(s) => Ok((Expression::Variable(s.clone()), pos + 1)),
        Token::FunctionCall(name) => {
            let name = name.clone();
            if pos + 1 < n && is_lparen(&tokens[pos + 1]) {
                match parse_args(tokens, pos + 2) {
                    Ok((args, p)) => Ok((build_call_expr(name, args), p)),
                    Err(e) => Err(e),
                }
            } else {
                proof {
                    assert(exprs_view(Seq::<Expression>::empty()) =~= Seq::<
                        ExpressionView,
                    >::empty());
                }
                Ok((build_call_expr(name, Vec::new()), pos + 1))
            }
        },
        _ => Err(ParseError { expected: Expected::Expression, found: Some(tokens[pos].clone()) }),
    }
}

/// A parenthesized argument list, mirroring `sp_args`.
fn parse_args(tokens: &Vec<Token>, pos: usize) -> (r: Result<(Vec<Expression>, usize), ParseError>)
    ensures
        match (r, sp_args(tokens_view(tokens@), pos as int)) {
            (Ok((es, p)), Ok((esv, pv))) => exprs_view(es@) == esv && p as int == pv && pos < p
                <= tokens@.len(),
            (Err(e), Err(ev)) => e@ == ev,
            _ => false,
        },
    decreases tokens@.len() - pos, 3int,
{
    let ghost ts = tokens_view(tokens@);
    let n = tokens.len();
    if pos >= n {
        return Err(ParseError { expected: Expected::RParen, found: None });
    }
    if is_rparen(&tokens[pos]) {
        proof {
            assert(exprs_view(Seq::<Expression>::empty()) =~= Seq::<ExpressionView>::empty());
        }
        return Ok((Vec::new(), pos + 1));
    }
    match parse_expression(tokens, pos, 0) {
        Err(e) => Err(e),
        Ok((e, p)) => {
            if p < n && is_comma(&tokens[p]) {
                match parse_args(tokens, p + 1) {
                    Ok((rest, p2)) => {
                        proof {
                            lemma_exprs_view_prepend(e, rest@);
                        }
                        let mut rest = rest;
                        rest.insert(0, e);
                        Ok((rest, p2))
                    },
                    Err(err) => Err(err),
                }
            } else if p < n && is_rparen(&tokens[p]) {
                let mut v: Vec<Expression> = Vec::new();
                proof {
                    lemma_exprs_view_prepend(e, Seq::<Expression>::empty());
                    assert(exprs_view(Seq::<Expression>::empty()) =~= Seq::<
                        ExpressionView,
                    >::empty());
                    assert(seq![expr_view(e)] + Seq::<ExpressionView>::empty() =~= seq![
                        expr_view(e),
                    ]);
                    assert(Seq::<Expression>::empty().insert(0, e) =~= Seq::<
                        Expression,
                    >::empty().push(e));
                }
                v.push(e);
                proof {
                    assert(v@ =~= Seq::<Expression>::empty().insert(0, e));
                }
                Ok((v, p + 1))
            } else if p < n {
                Err(ParseError { expected: Expected::RParen, found: Some(tokens[p].clone()) })
            } else {
                Err(ParseError { expected: Expected::RParen, found: None })
            }
        },
    }
}

/// An expression parsed by precedence climbing, mirroring
/// `sp_expression`; the climb itself is the loop, mirroring `sp_binops`.
fn parse_expression(tokens: &Vec<Token>, pos: usize, min: u32) -> (r: Result<
    (Expression, usize),
    ParseError,
>)
    ensures
        match (r, sp_expression(tokens_view(tokens@), pos as int, min as int)) {
            (Ok((e, p)), Ok((ev, pv))) => e@ == ev && p as int == pv && pos < p <= tokens@.len(),
            (Err(e), Err(ev)) => e@ == ev,
            _ => false,
        },
    decreases tokens@.len() - pos, 1int,
{
    let ghost ts = tokens_view(tokens@);
    let n = tokens.len();
    match parse_atomics(tokens, pos) {
        Err(e) => Err(e),
        Ok((first, p0)) => {
            let ghost target = sp_binops(ts, p0 as int, first@, min as int);
            proof {
                assert(sp_expression(ts, pos as int, min as int) == target);
            }
            let mut left = first;
            let mut p = p0;
            loop
                invariant
                    ts == tokens_view(tokens@),
                    n == tokens@.len(),
                    pos < p <= n,
                    sp_binops(ts, p as int, left@, min as int) == target,
                    target == sp_expression(ts, pos as int, min as int),
                decreases n - p,
            {
                if p >= n {
                    return Ok((left, p));
                }
                match get_operator(&tokens[p]) {
                    None => {
                        return Ok((left, p));
                    },
                    Some((op, prec)) => {
                        if prec < min {
                            return Ok((left, p));
                        }
                        match parse_expression(tokens, p + 1, prec + 1) {
                            Err(e) => {
                                return Err(e);
                            },
                            Ok((right, p2)) => {
                                left = Expression::BinaryOp {
                                    left: Box::new(left),
                                    op,
                                    right: Box::new(right),
                                };
                                p = p2;
                            },
                        }
                    },
                }
            }
        },
    }
}

/// The statement terminator, mirroring `sp_terminator`.
fn parse_terminator(tokens: &Vec<Token>, pos: usize) -> (r: Result<usize, ParseError>)
    requires
        pos <= tokens@.len(),
    ensures
        match (r, sp_terminator(tokens_view(tokens@), pos as int)) {
            (Ok(p), Ok(pv)) => p as int == pv && pos <= p <= tokens@.len(),
            (Err(e), Err(ev)) => e@ == ev,
            _ => false,
        },
{
    let n = tokens.len();
    if pos >= n {
        return Ok(pos);
    }
    match &tokens[pos] {
        Token::End => Ok(pos),
        Token::Semicolon => Ok(pos + 1),
        Token::Then => Ok(pos + 1),
        Token::Else => Ok(pos),
        Token::Function => Ok(pos),
        _ => Err(ParseError { expected: Expected::Terminator, found: Some(tokens[pos].clone()) }),
    }
}

/// A parenthesized parameter list, mirroring `sp_params`.
fn parse_params(tokens: &Vec<Token>, pos: usize) -> (r: Result<
    (Vec<Expression>, usize),
    ParseError,
>)
    ensures
        match (r, sp_params(tokens_view(tokens@), pos as int)) {
            (Ok((es, p)), Ok((esv, pv))) => exprs_view(es@) == esv && p as int == pv && pos < p
                <= tokens@.len(),
            (Err(e), Err(ev)) => e@ == ev,
            _ => false,
        },
    decreases tokens@.len() - pos,
{
    let ghost ts = tokens_view(tokens@);
    let n = tokens.len();
    if pos >= n {
        return Err(ParseError { expected: Expected::RParen, found: None });
    }
    if is_rparen(&tokens[pos]) {
        proof {
            assert(exprs_view(Seq::<Expression>::empty()) =~= Seq::<ExpressionView>::empty());
        }
        return Ok((Vec::new(), pos + 1));
    }
    match &tokens[pos] {
        Token::Identifier(name) => {
            let param = Expression::FunctionArg(name.clone());
            if pos + 1 < n && is_comma(&tokens[pos + 1]) {
                match parse_params(tokens, pos + 2) {
                    Ok((rest, p)) => {
                        proof {
                            lemma_exprs_view_prepend(param, rest@);
                        }
                        let mut rest = rest;
                        rest.insert(0, param);
                        Ok((rest, p))
                    },
                    Err(e) => Err(e),
                }
            } else if pos + 1 < n && is_rparen(&tokens[pos + 1]) {
                let mut v: Vec<Expression> = Vec::new();
                v.push(param);
                proof {
                    lemma_exprs_view(v@);
                    assert(exprs_view(v@) =~= seq![ExpressionView::FunctionArg(name@)]);
                }
                Ok((v, pos + 2))
            } else if pos + 1 < n {
                Err(
                    ParseError {
                        expected: Expected::CommaOrRParen,
                        found: Some(tokens[pos + 1].clone()),
                    },
                )
            } else {
                Err(ParseError { expected: Expected::CommaOrRParen, found: None })
            }
        },
        _ => Err(ParseError { expected: Expected::Identifier, found: Some(tokens[pos].clone()) }),
    }
}

/// A statement sequence up to its closing token, mirroring `sp_body`.
fn parse_body(tokens: &Vec<Token>, pos: usize, stop_else: bool) -> (r: Result<
    (Vec<Statement>, usize),
    ParseError,
>)
    requires
        pos <= tokens@.len(),
    ensures
        match (r, sp_body(tokens_view(tokens@), pos as int, stop_else)) {
            (Ok((ss, p)), Ok((sv, pv))) => stmts_view(ss@) == sv && p as int == pv && pos <= p
                <= tokens@.len(),
            (Err(e), Err(ev)) => e@ == ev,
            _ => false,
        },
    decreases tokens@.len() - pos, 5int,
{
    let ghost ts = tokens_view(tokens@);
    let n = tokens.len();
    if pos >= n {
        proof {
            assert(stmts_view(Seq::<Statement>::empty()) =~= Seq::<StatementView>::empty());
        }
        return Ok((Vec::new(), pos));
    }
    if is_end_tok(&tokens[pos]) || (stop_else && is_else_tok(&tokens[pos])) {
        proof {
            assert(stmts_view(Seq::<Statement>::empty()) =~= Seq::<StatementView>::empty());
        }
        return Ok((Vec::new(), pos));
    }
    match parse_statement(tokens, pos) {
        Err(e) => Err(e),
        Ok((st, p)) => {
            match parse_terminator(tokens, p) {
                Err(e) => Err(e),
                Ok(p2) => {
                    match parse_body(tokens, p2, stop_else) {
                        Err(e) => Err(e),
                        Ok((rest, p3)) => {
                            proof {
                                lemma_stmts_view_prepend(st, rest@);
                            }
                            let mut rest = rest;
                            rest.insert(0, st);
                            Ok((rest, p3))
                        },
                    }
                },
            }
        },
    }
}

/// A function definition, mirroring `sp_function`.
fn parse_function(tokens: &Vec<Token>, pos: usize) -> (r: Result<(Statement, usize), ParseError>)
    requires
        pos < tokens@.len(),
    ensures
        match (r, sp_function(tokens_view(tokens@), pos as int)) {
            (Ok((st, p)), Ok((sv, pv))) => st@ == sv && p as int == pv && pos < p <= tokens@.len(),
            (Err(e), Err(ev)) => e@ == ev,
            _ => false,
        },
    decreases tokens@.len() - pos, 3int,
{
    let ghost ts = tokens_view(tokens@);
    let n = tokens.len();
    let mut name: String;
    let mut p1: usize;
    let mut named = false;
    if pos + 1 < n {
        match &tokens[pos + 1] {
            Token::Identifier(s) => {
                name = s.clone();
                p1 = pos + 2;
                named = true;
            },
            _ => {
                name = String::from_str("Name");
                p1 = pos + 1;
            },
        }
    } else {
        name = String::from_str("Name");
        p1 = pos + 1;
    }
    proof {
        if !named {
            reveal_strlit("Name");
            assert(name@ =~= seq!['N', 'a', 'm', 'e']);
        }
    }
    let params_r: Result<(Vec<Expression>, usize), ParseError> = if p1 < n && is_lparen(
        &tokens[p1],
    ) {
        parse_params(tokens, p1 + 1)
    } else {
        proof {
            assert(exprs_view(Seq::<Expression>::empty()) =~= Seq::<ExpressionView>::empty());
        }
        Ok((Vec::new(), p1))
    };
    match params_r {
        Err(e) => Err(e),
        Ok((params, p2)) => {
            match parse_body(tokens, p2, false) {
                Err(e) => Err(e),
                Ok((body, p3)) => {
                    let p4 = if p3 < n && is_end_tok(&tokens[p3]) {
                        p3 + 1
                    } else {
                        p3
                    };
                    Ok((Statement::Function { name, params, body }, p4))
                },
            }
        },
    }
}

/// A conditional, mirroring `sp_if`.
fn parse_if(tokens: &Vec<Token>, pos: usize) -> (r: Result<(Statement, usize), ParseError>)
    requires
        pos < tokens@.len(),
    ensures
        match (r, sp_if(tokens_view(tokens@), pos as int)) {
            (Ok((st, p)), Ok((sv, pv))) => st@ == sv && p as int == pv && pos < p <= tokens@.len(),
            (Err(e), Err(ev)) => e@ == ev,
            _ => false,
        },
    decreases tokens@.len() - pos, 3int,
{
    let ghost ts = tokens_view(tokens@);
    let n = tokens.len();
    match parse_expression(tokens, pos + 1, 0) {
        Err(e) => Err(e),
        Ok((cond, p)) => {
            if p < n && is_then_tok(&tokens[p]) {
                match parse_body(tokens, p + 1, true) {
                    Err(e) => Err(e),
                    Ok((thn, p2)) => {
                        if p2 < n && is_else_tok(&tokens[p2]) {
                            match parse_body(tokens, p2 + 1, false) {
                                Err(e) => Err(e),
                                Ok((els, p3)) => {
                                    let p4 = if p3 < n && is_end_tok(&tokens[p3]) {
                                        p3 + 1
                                    } else {
                                        p3
                                    };
                                    Ok(
                                        (
                                            Statement::If {
                                                condition: cond,
                                                then_body: thn,
                                                else_body: Some(els),
                                            },
                                            p4,
                                        ),
                                    )
                                },
                            }
                        } else {
                            let p4 = if p2 < n && is_end_tok(&tokens[p2]) {
                                p2 + 1
                            } else {
                                p2
                            };
                            Ok(
                                (
                                    Statement::If {
                                        condition: cond,
                                        then_body: thn,
                                        else_body: None,
                                    },
                                    p4,
                                ),
                            )
                        }
                    },
                }
            } else if p < n {
                Err(ParseError { expected: Expected::Then, found: Some(tokens[p].clone()) })
            } else {
                Err(ParseError { expected: Expected::Then, found: None })
            }
        },
    }
}

/// A loop, mirroring `sp_while`.
fn parse_while(tokens: &Vec<Token>, pos: usize) -> (r: Result<(Statement, usize), ParseError>)
    requires
        pos < tokens@.len(),
    ensures
        match (r, sp_while(tokens_view(tokens@), pos as int)) {
            (Ok((st, p)), Ok((sv, pv))) => st@ == sv && p as int == pv && pos < p <= tokens@.len(),
            (Err(e), Err(ev)) => e@ == ev,
            _ => false,
        },
    decreases tokens@.len() - pos, 3int,
{
    let ghost ts = tokens_view(tokens@);
    let n = tokens.len();
    match parse_expression(tokens, pos + 1, 0) {
        Err(e) => Err(e),
        Ok((cond, p)) => {
            if p < n && is_do_tok(&tokens[p]) {
                match parse_body(tokens, p + 1, false) {
                    Err(e) => Err(e),
                    Ok((body, p2)) => {
                        let p3 = if p2 < n && is_end_tok(&tokens[p2]) {
                            p2 + 1
                        } else {
                            p2
                        };
                        Ok((Statement::While { condition: cond, body }, p3))
                    },
                }
            } else if p < n {
                Err(ParseError { expected: Expected::Do, found: Some(tokens[p].clone()) })
            } else {
                Err(ParseError { expected: Expected::Do, found: None })
            }
        },
    }
}

/// An assignment statement led by the identifier under the cursor.
fn parse_assignment(tokens: &Vec<Token>, pos: usize) -> (r: Result<(Statement, usize), ParseError>)
    requires
        pos < tokens@.len(),
        tokens_view(tokens@)[pos as int] is Identifier,
    ensures
        match (r, sp_statement(tokens_view(tokens@), pos as int)) {
            (Ok((st, p)), Ok((sv, pv))) => st@ == sv && p as int == pv && pos < p <= tokens@.len(),
            (Err(e), Err(ev)) => e@ == ev,
            _ => false,
        },
    decreases tokens@.len() - pos, 3int,
{
    let ghost ts = tokens_view(tokens@);
    let n = tokens.len();
    let name = match &tokens[pos] {
        Token::Identifier(s) => s.clone(),
        _ => {
            proof {
                assert(false);
            }
            String::new()
        },
    };
    if pos + 1 < n && is_assign(&tokens[pos + 1]) {
        match parse_expression(tokens, pos + 2, 0) {
            Err(e) => Err(e),
            Ok((value, p)) => Ok((Statement::Assign { name, value }, p)),
        }
    } else if pos + 1 < n {
        Err(ParseError { expected: Expected::Assign, found: Some(tokens[pos + 1].clone()) })
    } else {
        Err(ParseError { expected: Expected::Assign, found: None })
    }
}

/// One statement, dispatched on its leading token; mirrors
/// `sp_statement`.
#[verifier::rlimit(60)]
fn parse_statement(tokens: &Vec<Token>, pos: usize) -> (r: Result<(Statement, usize), ParseError>)
    ensures
        match (r, sp_statement(tokens_view(tokens@), pos as int)) {
            (Ok((st, p)), Ok((sv, pv))) => st@ == sv && p as int == pv && pos < p <= tokens@.len(),
            (Err(e), Err(ev)) => e@ == ev,
            _ => false,
        },
    decreases tokens@.len() - pos, 4int,
{
    let ghost ts = tokens_view(tokens@);
    let n = tokens.len();
    if pos >= n {
        return Err(ParseError { expected: Expected::Statement, found: None });
    }
    match &tokens[pos] {
        Token::Function => parse_function(tokens, pos),
        Token::FunctionCall(name) => {
            let name = name.clone();
            if pos + 1 < n && is_lparen(&tokens[pos + 1]) {
                match parse_args(tokens, pos + 2) {
                    Ok((args, p)) => Ok((build_call_stmt(name, args), p)),
                    Err(e) => Err(e),
                }
            } else {
                proof {
                    assert(exprs_view(Seq::<Expression>::empty()) =~= Seq::<
                        ExpressionView,
                    >::empty());
                }
                Ok((build_call_stmt(name, Vec::new()), pos + 1))
            }
        },
        Token::Print => {
            match parse_expression(tokens, pos + 1, 0) {
                Ok((e, p)) => Ok((Statement::Print(e), p)),
                Err(e) => Err(e),
            }
        },
        Token::Send => {
            match parse_expression(tokens, pos + 1, 0) {
                Ok((e, p)) => Ok((Statement::Send(e), p)),
                Err(e) => Err(e),
            }
        },
        Token::If => parse_if(tokens, pos),
        Token::While => parse_while(tokens, pos),
        Token::Identifier(_) => parse_assignment(tokens, pos),
        _ => Err(ParseError { expected: Expected::Statement, found: Some(tokens[pos].clone()) }),
    }
}

/// Parses a whole token stream into its statement list, or reports the
/// first parse error.  The outcome is exactly that of `sp_program` on the
/// token views.
pub fn parse_program(tokens: &Vec<Token>) -> (r: Result<Vec<Statement>, ParseError>)
    ensures
        match (r, sp_program(tokens_view(tokens@), 0)) {
            (Ok(ss), Ok((sv, pv))) => stmts_view(ss@) == sv,
            (Err(e), Err(ev)) => e@ == ev,
            _ => false,
        },
{
    let ghost ts = tokens_view(tokens@);
    let n = tokens.len();
    let mut stmts: Vec<Statement> = Vec::new();
    let mut pos: usize = 0;
    proof {
        if let Ok((sv0, _)) = sp_program(ts, 0) {
            assert(Seq::<StatementView>::empty() + sv0 =~= sv0);
        }
        assert(stmts_view(stmts@) =~= Seq::<StatementView>::empty());
    }
    while pos < n
        invariant
            ts == tokens_view(tokens@),
            n == tokens@.len(),
            pos <= n,
            sp_program(ts, 0) == cons_stmts(stmts_view(stmts@), sp_program(ts, pos as int)),
        decreases n - pos,
    {
        let ghost acc = stmts_view(stmts@);
        let ghost pos0 = pos as int;
        match parse_statement(tokens, pos) {
            Err(e) => {
                return Err(e);
            },
            Ok((st, p)) => {
                match parse_terminator(tokens, p) {
                    Err(e) => {
                        return Err(e);
                    },
                    Ok(p2) => {
                        proof {
                            assert(sp_program(ts, pos0) == prepend_stmt(
                                st@,
                                sp_program(ts, p2 as int),
                            ));
                            lemma_cons_stmts_shift(acc, st@, sp_program(ts, p2 as int));
                            lemma_stmts_view_push(stmts@, st);
                        }
                        stmts.push(st);
                        pos = p2;
                    },
                }
            },
        }
    }
    proof {
        if let Ok((rest, _)) = sp_program(ts, pos as int) {
            assert(stmts_view(stmts@) + rest =~= stmts_view(stmts@));
        }
    }
    Ok(stmts)
}

} // verus!
