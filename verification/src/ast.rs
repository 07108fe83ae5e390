//! The `tp0` abstract syntax tree and its mathematical view.
use vstd::prelude::*;

use crate::lexer::{Token, TokenV};

verus! {

/// The two value types of `tp0`.
#[derive(Debug, Clone, Copy, PartialEq, Eq, Structural)]
pub enum Type {
    Int,
    Str,
}

/// An expression.
#[derive(Debug)]
pub enum Expr {
    Number(i64),
    StringLit(String),
    Ident(String),
    Binary(Box<Expr>, Token, Box<Expr>),
    Call(String, Vec<Expr>),
}

/// A statement.
#[derive(Debug)]
pub enum Stmt {
    Let(String, Type, Expr),
    Assign(String, Expr),
    If(Expr, Vec<Stmt>, Option<Vec<Stmt>>),
    Return(Expr),
    Expr(Expr),
}

/// A function definition.
#[derive(Debug)]
pub struct Function {
    pub name: String,
    pub args: Vec<(String, Type)>,
    pub ret_type: Type,
    pub body: Vec<Stmt>,
}

/// The mathematical value of an expression.
pub enum ExprV {
    Number(i64),
    StringLit(Seq<char>),
    Ident(Seq<char>),
    Binary(Box<ExprV>, TokenV, Box<ExprV>),
    Call(Seq<char>, Seq<ExprV>),
}

/// The mathematical value of a statement.
pub enum StmtV {
    Let(Seq<char>, Type, ExprV),
    Assign(Seq<char>, ExprV),
    If(ExprV, Seq<StmtV>, Option<Seq<StmtV>>),
    Return(ExprV),
    Expr(ExprV),
}

/// The mathematical value of a function definition.
pub struct FunctionV {
    pub name: Seq<char>,
    pub args: Seq<(Seq<char>, Type)>,
    pub ret_type: Type,
    pub body: Seq<StmtV>,
}

/// The view of an expression.
pub open spec fn expr_view(e: Expr) -> ExprV
    decreases e,
{
    match e {
        Expr::Number(n) => ExprV::Number(n),
        Expr::StringLit(s) => ExprV::StringLit(s@),
        Expr::Ident(s) => ExprV::Ident(s@),
        Expr::Binary(l, op, r) => ExprV::Binary(
            Box::new(expr_view(*l)),
            op@,
            Box::new(expr_view(*r)),
        ),
        Expr::Call(name, args) => ExprV::Call(name@, exprs_view(args@)),
    }
}

/// The views of a sequence of expressions.
pub open spec fn exprs_view(s: Seq<Expr>) -> Seq<ExprV>
    decreases s,
{
    if s.len() == 0 {
        Seq::empty()
    } else {
        exprs_view(s.drop_last()).push(expr_view(s.last()))
    }
}

/// The view of a statement.
pub open spec fn stmt_view(s: Stmt) -> StmtV
    decreases s,
{
    match s {
        Stmt::Let(name, ty, e) => StmtV::Let(name@, ty, expr_view(e)),
        Stmt::Assign(name, e) => StmtV::Assign(name@, expr_view(e)),
        Stmt::If(c, t, e) => StmtV::If(
            expr_view(c),
            stmts_view(t@),
            match e {
                Some(b) => Some(stmts_view(b@)),
                None => None,
            },
        ),
        Stmt::Return(e) => StmtV::Return(expr_view(e)),
        Stmt::Expr(e) => StmtV::Expr(expr_view(e)),
    }
}

/// The views of a sequence of statements.
pub open spec fn stmts_view(s: Seq<Stmt>) -> Seq<StmtV>
    decreases s,
{
    if s.len() == 0 {
        Seq::empty()
    } else {
        stmts_view(s.drop_last()).push(stmt_view(s.last()))
    }
}

/// The views of a parameter list.
pub open spec fn params_view(s: Seq<(String, Type)>) -> Seq<(Seq<char>, Type)> {
    s.map_values(|p: (String, Type)| (p.0@, p.1))
}

impl View for Expr {
    type V = ExprV;

    open spec fn view(&self) -> ExprV {
        expr_view(*self)
    }
}

impl View for Stmt {
    type V = StmtV;

    open spec fn view(&self) -> StmtV {
        stmt_view(*self)
    }
}

impl View for Function {
    type V = FunctionV;

    open spec fn view(&self) -> FunctionV {
        FunctionV {
            name: self.name@,
            args: params_view(self.args@),
            ret_type: self.ret_type,
            body: stmts_view(self.body@),
        }
    }
}

/// The view of a program.
pub open spec fn program_view(p: Seq<Function>) -> Seq<FunctionV> {
    p.map_values(|f: Function| f@)
}

/// The length and elements of a sequence's view.
pub proof fn lemma_exprs_view(s: Seq<Expr>)
    ensures
        exprs_view(s).len() == s.len(),
        forall|i: int| 0 <= i < s.len() ==> #[trigger] exprs_view(s)[i] == expr_view(s[i]),
    decreases s.len(),
{
    if s.len() > 0 {
        lemma_exprs_view(s.drop_last());
    }
}

/// The length and elements of a sequence's view.
pub proof fn lemma_stmts_view(s: Seq<Stmt>)
    ensures
        stmts_view(s).len() == s.len(),
        forall|i: int| 0 <= i < s.len() ==> #[trigger] stmts_view(s)[i] == stmt_view(s[i]),
    decreases s.len(),
{
    if s.len() > 0 {
        lemma_stmts_view(s.drop_last());
    }
}

/// The view of a sequence extended by one statement.
pub proof fn lemma_stmts_view_push(s: Seq<Stmt>, x: Stmt)
    ensures
        stmts_view(s.push(x)) == stmts_view(s).push(stmt_view(x)),
{
    assert(s.push(x).drop_last() =~= s);
}

/// The view of a sequence extended by one expression.
pub proof fn lemma_exprs_view_push(s: Seq<Expr>, x: Expr)
    ensures
        exprs_view(s.push(x)) == exprs_view(s).push(expr_view(x)),
{
    assert(s.push(x).drop_last() =~= s);
}

/// An arithmetic operator token.
pub open spec fn is_arith_op(op: TokenV) -> bool {
    op == TokenV::Plus || op == TokenV::Minus || op == TokenV::Star || op == TokenV::Slash
}

/// Every binary operator in the expression is arithmetic.
pub open spec fn expr_wf(e: ExprV) -> bool
    decreases e,
{
    match e {
        ExprV::Binary(l, op, r) => is_arith_op(op) && expr_wf(*l) && expr_wf(*r),
        ExprV::Call(_, args) => exprs_wf(args),
        _ => true,
    }
}

/// Every expression of the sequence is well formed.
pub open spec fn exprs_wf(args: Seq<ExprV>) -> bool
    decreases args,
{
    if args.len() == 0 {
        true
    } else {
        exprs_wf(args.drop_last()) && expr_wf(args.last())
    }
}

/// Every expression in the statement is well formed.
pub open spec fn stmt_wf(s: StmtV) -> bool
    decreases s,
{
    match s {
        StmtV::Let(_, _, e) => expr_wf(e),
        StmtV::Assign(_, e) => expr_wf(e),
        StmtV::If(c, t, e) => expr_wf(c) && stmts_wf(t) && match e {
            Some(b) => stmts_wf(b),
            None => true,
        },
        StmtV::Return(e) => expr_wf(e),
        StmtV::Expr(e) => expr_wf(e),
    }
}

/// Every statement of the sequence is well formed.
pub open spec fn stmts_wf(b: Seq<StmtV>) -> bool
    decreases b,
{
    if b.len() == 0 {
        true
    } else {
        stmts_wf(b.drop_last()) && stmt_wf(b.last())
    }
}


/// Well-formedness of a sequence extended by one expression.
pub proof fn lemma_exprs_wf_push(s: Seq<ExprV>, e: ExprV)
    ensures
        exprs_wf(s.push(e)) == (exprs_wf(s) && expr_wf(e)),
        exprs_wf(Seq::<ExprV>::empty()),
{
    assert(s.push(e).drop_last() =~= s);
}

/// Well-formedness of a sequence extended by one statement.
pub proof fn lemma_stmts_wf_push(s: Seq<StmtV>, x: StmtV)
    ensures
        stmts_wf(s.push(x)) == (stmts_wf(s) && stmt_wf(x)),
        stmts_wf(Seq::<StmtV>::empty()),
{
    assert(s.push(x).drop_last() =~= s);
}
} // verus!
