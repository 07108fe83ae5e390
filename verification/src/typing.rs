//! The typing rules of `tp0` and what code generation keeps: the generator
//! accepts exactly the well-typed programs, reports the types of expressions,
//! and changes nothing but the output, the registers, the labels, the string
//! constants and the innermost scope.
use vstd::prelude::*;

use crate::ast::{ExprV, FunctionV, StmtV, Type};
use crate::codegen::{
    close_scope, emit, env_lookup, expr_regs, expr_strs, exprs_regs, exprs_strs, funcs_lookup, if_between,
    if_entry, if_exit, open_scope, signatures, value_types, FuncSigV, spec_bind_params, spec_compile, spec_gen_args, spec_gen_block,
    spec_gen_expr, spec_gen_function, spec_gen_functions, spec_gen_if_blocks, spec_gen_stmt, BindingV, CgState,
};
use crate::lexer::TokenV;

verus! {

/// `a` is a prefix of `b`.
pub open spec fn extends<A>(a: Seq<A>, b: Seq<A>) -> bool {
    a.len() <= b.len() && b.take(a.len() as int) == a
}

/// Being a prefix is transitive.
pub proof fn lemma_extends_trans<A>(a: Seq<A>, b: Seq<A>, c: Seq<A>)
    requires
        extends(a, b),
        extends(b, c),
    ensures
        extends(a, c),
{
    assert(c.take(a.len() as int) =~= b.take(a.len() as int));
}

/// The scopes with the variables' types only: what typing depends on.
pub open spec fn env_types(env: Seq<Seq<BindingV>>) -> Seq<Seq<(Seq<char>, Type)>> {
    env.map_values(|scope: Seq<BindingV>| scope_types(scope))
}

/// A scope with the variables' types only.
pub open spec fn scope_types(scope: Seq<BindingV>) -> Seq<(Seq<char>, Type)> {
    scope.map_values(|b: BindingV| (b.0, b.2))
}

/// The type of the latest binding of `name` in a scope.
pub open spec fn scope_var_type(scope: Seq<(Seq<char>, Type)>, name: Seq<char>) -> Option<Type>
    decreases scope.len(),
{
    if scope.len() == 0 {
        None
    } else if scope.last().0 == name {
        Some(scope.last().1)
    } else {
        scope_var_type(scope.drop_last(), name)
    }
}

/// The type of `name` in the innermost scope that binds it.
pub open spec fn var_type(tenv: Seq<Seq<(Seq<char>, Type)>>, name: Seq<char>) -> Option<Type>
    decreases tenv.len(),
{
    if tenv.len() == 0 {
        None
    } else {
        match scope_var_type(tenv.last(), name) {
            Some(t) => Some(t),
            None => var_type(tenv.drop_last(), name),
        }
    }
}

/// Looking a variable up in the scopes gives the type that `var_type` gives.
pub proof fn lemma_var_type(env: Seq<Seq<BindingV>>, name: Seq<char>)
    ensures
        var_type(env_types(env), name) == match env_lookup(env, name) {
            Some((_, t)) => Some(t),
            None => None::<Type>,
        },
    decreases env.len(),
{
    if env.len() > 0 {
        lemma_scope_var_type(env.last(), name);
        assert(env_types(env).drop_last() =~= env_types(env.drop_last()));
        lemma_var_type(env.drop_last(), name);
    }
}

/// Looking a variable up in a scope gives the type that `scope_var_type` gives.
proof fn lemma_scope_var_type(scope: Seq<BindingV>, name: Seq<char>)
    ensures
        scope_var_type(scope_types(scope), name) == match crate::codegen::scope_lookup(scope, name) {
            Some((_, t)) => Some(t),
            None => None::<Type>,
        },
    decreases scope.len(),
{
    if scope.len() > 0 {
        assert(scope_types(scope).drop_last() =~= scope_types(scope.drop_last()));
        lemma_scope_var_type(scope.drop_last(), name);
    }
}

/// The type of an expression under the scopes `env` and the function table
/// `funcs`, if it has one.  A variable has the type of its binding; both
/// operands of an operator have one type; strings only support `+`; a call has
/// its function's return type once its arguments have the function's
/// parameter types, in number and in order.
pub open spec fn type_of(env: Seq<Seq<(Seq<char>, Type)>>, funcs: Seq<FuncSigV>, e: ExprV) -> Option<Type>
    decreases e,
{
    match e {
        ExprV::Number(_) => Some(Type::Int),
        ExprV::StringLit(_) => Some(Type::Str),
        ExprV::Ident(name) => var_type(env, name),
        ExprV::Binary(l, op, r) => match (type_of(env, funcs, *l), type_of(env, funcs, *r)) {
            (Some(a), Some(b)) => if a != b {
                None
            } else if a == Type::Str {
                if op == TokenV::Plus {
                    Some(Type::Str)
                } else {
                    None
                }
            } else {
                Some(Type::Int)
            },
            _ => None,
        },
        ExprV::Call(name, args) => if args_typed(env, funcs, args) {
            match funcs_lookup(funcs, name) {
                Some((params, ret)) => if args_types(env, funcs, args) == params {
                    Some(ret)
                } else {
                    None
                },
                None => None,
            }
        } else {
            None
        },
    }
}

/// Every argument has a type.
pub open spec fn args_typed(env: Seq<Seq<(Seq<char>, Type)>>, funcs: Seq<FuncSigV>, args: Seq<ExprV>) -> bool
    decreases args,
{
    if args.len() == 0 {
        true
    } else {
        args_typed(env, funcs, args.drop_last()) && type_of(env, funcs, args.last()) is Some
    }
}

/// The types of the arguments of a call, in order (`int` stands in for an
/// argument without a type).
pub open spec fn args_types(env: Seq<Seq<(Seq<char>, Type)>>, funcs: Seq<FuncSigV>, args: Seq<ExprV>) -> Seq<Type>
    decreases args,
{
    if args.len() == 0 {
        Seq::empty()
    } else {
        args_types(env, funcs, args.drop_last()).push(
            match type_of(env, funcs, args.last()) {
                Some(t) => t,
                None => Type::Int,
            },
        )
    }
}

/// What generating an expression may change: it appends to the output and to
/// the string constants, and takes exactly the registers the expression needs.
pub open spec fn expr_frame(s: CgState, s2: CgState, regs: nat, strs: nat) -> bool {
    &&& s2.env == s.env
    &&& s2.funcs == s.funcs
    &&& s2.label == s.label
    &&& s2.terminated == s.terminated
    &&& s2.ret == s.ret
    &&& s2.reg == s.reg + regs
    &&& s2.strings.len() == s.strings.len() + strs
    &&& extends(s.strings, s2.strings)
    &&& extends(s.ir, s2.ir)
}

/// Law: code generation accepts an expression exactly when it has a type,
/// returns that type, and changes the state only as `expr_frame` allows.
pub proof fn lemma_gen_expr_typing(s: CgState, e: ExprV)
    ensures
        (spec_gen_expr(s, e) is Ok) == (type_of(env_types(s.env), s.funcs, e) is Some),
        spec_gen_expr(s, e) matches Ok((s2, v, t)) ==> type_of(env_types(s.env), s.funcs, e) == Some(t)
            && expr_frame(s, s2, expr_regs(e), expr_strs(e)),
    decreases e, 1nat,
{
    match e {
        ExprV::Number(_) => {
            assert(s.strings.take(s.strings.len() as int) =~= s.strings);
            assert(s.ir.take(s.ir.len() as int) =~= s.ir);
        },
        ExprV::StringLit(lit) => {
            let id = s.strings.len() + 1;
            assert(s.strings.push((lit, id)).take(s.strings.len() as int) =~= s.strings);
            assert(s.ir.take(s.ir.len() as int) =~= s.ir);
        },
        ExprV::Ident(name) => {
            lemma_var_type(s.env, name);
            assert(s.strings.take(s.strings.len() as int) =~= s.strings);
            if let Some((slot, ty)) = env_lookup(s.env, name) {
                let s2 = spec_gen_expr(s, e)->Ok_0.0;
                assert(s2.ir.take(s.ir.len() as int) =~= s.ir);
            }
        },
        ExprV::Binary(..) => lemma_gen_binary_typing(s, e),
        ExprV::Call(..) => lemma_gen_call_typing(s, e),
    }
}

/// The operator case of `lemma_gen_expr_typing`.
proof fn lemma_gen_binary_typing(s: CgState, e: ExprV)
    requires
        e is Binary,
    ensures
        (spec_gen_expr(s, e) is Ok) == (type_of(env_types(s.env), s.funcs, e) is Some),
        spec_gen_expr(s, e) matches Ok((s2, v, t)) ==> type_of(env_types(s.env), s.funcs, e) == Some(t)
            && expr_frame(s, s2, expr_regs(e), expr_strs(e)),
    decreases e, 0nat,
{
    if let ExprV::Binary(l, op, r) = e {
        lemma_gen_expr_typing(s, *l);
        if let Ok((s1, lv, lt)) = spec_gen_expr(s, *l) {
            lemma_gen_expr_typing(s1, *r);
            if let Ok((s2, rv, rt)) = spec_gen_expr(s1, *r) {
                lemma_extends_trans(s.strings, s1.strings, s2.strings);
                lemma_extends_trans(s.ir, s1.ir, s2.ir);
                if let Ok((s3, v, t)) = spec_gen_expr(s, e) {
                    assert(s3.ir.take(s2.ir.len() as int) =~= s2.ir);
                    lemma_extends_trans(s.ir, s2.ir, s3.ir);
                }
            }
        }
    }
}

/// The call case of `lemma_gen_expr_typing`.
proof fn lemma_gen_call_typing(s: CgState, e: ExprV)
    requires
        e is Call,
    ensures
        (spec_gen_expr(s, e) is Ok) == (type_of(env_types(s.env), s.funcs, e) is Some),
        spec_gen_expr(s, e) matches Ok((s2, v, t)) ==> type_of(env_types(s.env), s.funcs, e) == Some(t)
            && expr_frame(s, s2, expr_regs(e), expr_strs(e)),
    decreases e, 0nat,
{
    if let ExprV::Call(name, args) = e {
        lemma_gen_args_typing(s, args);
        if let Ok((s1, vals)) = spec_gen_args(s, args) {
            if let Ok((s3, v, t)) = spec_gen_expr(s, e) {
                assert(s3.ir.take(s1.ir.len() as int) =~= s1.ir);
                lemma_extends_trans(s.ir, s1.ir, s3.ir);
            }
        }
    }
}

/// Law: the arguments of a call are generated exactly when each has a type,
/// one value per argument, changing the state only as `expr_frame` allows.
pub proof fn lemma_gen_args_typing(s: CgState, args: Seq<ExprV>)
    ensures
        (spec_gen_args(s, args) is Ok) == args_typed(env_types(s.env), s.funcs, args),
        spec_gen_args(s, args) matches Ok((s2, vals)) ==> vals.len() == args.len()
            && value_types(vals) == args_types(env_types(s.env), s.funcs, args)
            && expr_frame(s, s2, exprs_regs(args), exprs_strs(args)),
    decreases args, 2nat,
{
    if args.len() == 0 {
        assert(s.strings.take(s.strings.len() as int) =~= s.strings);
        assert(s.ir.take(s.ir.len() as int) =~= s.ir);
    } else {
        lemma_gen_args_typing(s, args.drop_last());
        if let Ok((s1, vals)) = spec_gen_args(s, args.drop_last()) {
            lemma_gen_expr_typing(s1, args.last());
            if let Ok((s2, v, t)) = spec_gen_expr(s1, args.last()) {
                lemma_extends_trans(s.strings, s1.strings, s2.strings);
                lemma_extends_trans(s.ir, s1.ir, s2.ir);
                assert(value_types(vals.push((v, t))) =~= value_types(vals).push(t));
            }
        }
    }
}


/// What generating a statement or block may change: the innermost scope (new
/// bindings), the output and the string constants (appended to), the register
/// and label counters (increased) and whether the block has returned.
pub open spec fn stmt_frame(s: CgState, s2: CgState) -> bool {
    &&& s2.env.len() == s.env.len()
    &&& s2.env.drop_last() == s.env.drop_last()
    &&& s2.funcs == s.funcs
    &&& s2.ret == s.ret
    &&& s2.reg >= s.reg
    &&& s2.label >= s.label
    &&& extends(s.strings, s2.strings)
    &&& extends(s.ir, s2.ir)
}

/// `stmt_frame` composes.
pub proof fn lemma_stmt_frame_trans(a: CgState, b: CgState, c: CgState)
    requires
        a.env.len() > 0,
        stmt_frame(a, b),
        stmt_frame(b, c),
    ensures
        stmt_frame(a, c),
{
    lemma_extends_trans(a.strings, b.strings, c.strings);
    lemma_extends_trans(a.ir, b.ir, c.ir);
}

/// Law: a statement changes the state only as `stmt_frame` allows; an `if`
/// leaves the scopes exactly as they were, since its blocks' bindings are
/// dropped at their ends.
pub proof fn lemma_gen_stmt_frame(s: CgState, st: StmtV)
    requires
        s.env.len() > 0,
    ensures
        spec_gen_stmt(s, st) matches Ok(s2) ==> stmt_frame(s, s2),
        st is If ==> (spec_gen_stmt(s, st) matches Ok(s2) ==> s2.env == s.env),
    decreases st, 1nat,
{
    if s.terminated {
        assert(s.strings.take(s.strings.len() as int) =~= s.strings);
        assert(s.ir.take(s.ir.len() as int) =~= s.ir);
        return;
    }
    match st {
        StmtV::Let(name, ty, e) => {
            lemma_gen_expr_typing(s, e);
            if let Ok((s1, v, et)) = spec_gen_expr(s, e) {
                if let Ok(s3) = spec_gen_stmt(s, st) {
                    assert(s3.ir.take(s1.ir.len() as int) =~= s1.ir);
                    lemma_extends_trans(s.ir, s1.ir, s3.ir);
                    assert(s3.env.drop_last() =~= s.env.drop_last());
                }
            }
        },
        StmtV::Assign(name, e) => {
            lemma_gen_expr_typing(s, e);
            if let Ok((s1, v, et)) = spec_gen_expr(s, e) {
                if let Ok(s3) = spec_gen_stmt(s, st) {
                    assert(s3.ir.take(s1.ir.len() as int) =~= s1.ir);
                    lemma_extends_trans(s.ir, s1.ir, s3.ir);
                }
            }
        },
        StmtV::Return(e) => {
            lemma_gen_expr_typing(s, e);
            if let Ok((s1, v, et)) = spec_gen_expr(s, e) {
                if let Ok(s3) = spec_gen_stmt(s, st) {
                    assert(s3.ir.take(s1.ir.len() as int) =~= s1.ir);
                    lemma_extends_trans(s.ir, s1.ir, s3.ir);
                }
            }
        },
        StmtV::Expr(e) => {
            lemma_gen_expr_typing(s, e);
        },
        StmtV::If(cond, then_b, else_b) => {
            lemma_gen_expr_typing(s, cond);
            if let Ok((s1, cv, ct)) = spec_gen_expr(s, cond) {
                if ct == Type::Int {
                    lemma_gen_if_frame(s, st, s1, cv);
                }
            }
        },
    }
}

/// The `if` case of `lemma_gen_stmt_frame`, once its condition has generated
/// `s1` with the value `cv`.
proof fn lemma_gen_if_frame(s: CgState, st: StmtV, s1: CgState, cv: Seq<char>)
    requires
        s.env.len() > 0,
        st is If,
        s1.env == s.env,
        s1.funcs == s.funcs,
        s1.ret == s.ret,
        s1.reg >= s.reg,
        s1.label == s.label,
        extends(s.strings, s1.strings),
        extends(s.ir, s1.ir),
    ensures
        (st matches StmtV::If(_, then_b, else_b) ==> (spec_gen_if_blocks(s1, cv, then_b, else_b) matches Ok(s6)
            ==> stmt_frame(s, s6) && s6.env == s.env)),
    decreases st, 0nat,
{
    if let StmtV::If(_, then_b, else_b) = st {
        let s2 = if_entry(s1, cv);
        assert(s2.ir.take(s1.ir.len() as int) =~= s1.ir);
        assert(s2.env.drop_last() =~= s1.env);
        assert(s1.strings.take(s1.strings.len() as int) =~= s1.strings);
        lemma_gen_block_frame(s2, then_b);
        if let Ok(s3) = spec_gen_block(s2, then_b) {
            lemma_extends_trans(s1.ir, s2.ir, s3.ir);
            let s4 = if_between(s1, s3);
            assert(s4.ir.take(s3.ir.len() as int) =~= s3.ir);
            lemma_extends_trans(s1.ir, s3.ir, s4.ir);
            assert(s4.env == s1.env);
            match else_b {
                Some(eb) => {
                    let s4b = open_scope(s4);
                    assert(s4b.env.drop_last() =~= s4.env);
                    lemma_gen_block_frame(s4b, eb);
                    if let Ok(s5) = spec_gen_block(s4b, eb) {
                        lemma_extends_trans(s1.ir, s4b.ir, s5.ir);
                        lemma_extends_trans(s1.strings, s4b.strings, s5.strings);
                        let s5c = close_scope(s5);
                        let s6 = if_exit(s1, s3.terminated, s5c);
                        assert(s6.ir.take(s5c.ir.len() as int) =~= s5c.ir);
                        lemma_extends_trans(s1.ir, s5c.ir, s6.ir);
                        lemma_extends_trans(s.ir, s1.ir, s6.ir);
                        lemma_extends_trans(s.strings, s1.strings, s6.strings);
                    }
                },
                None => {
                    let s6 = if_exit(s1, s3.terminated, s4);
                    assert(s6.ir.take(s4.ir.len() as int) =~= s4.ir);
                    lemma_extends_trans(s1.ir, s4.ir, s6.ir);
                    lemma_extends_trans(s.ir, s1.ir, s6.ir);
                    lemma_extends_trans(s1.strings, s2.strings, s3.strings);
                    lemma_extends_trans(s.strings, s1.strings, s6.strings);
                },
            }
        }
    }
}

/// Law: a block changes the state only as `stmt_frame` allows.
pub proof fn lemma_gen_block_frame(s: CgState, b: Seq<StmtV>)
    requires
        s.env.len() > 0,
    ensures
        spec_gen_block(s, b) matches Ok(s2) ==> stmt_frame(s, s2),
    decreases b, 0nat,
{
    if b.len() == 0 {
        assert(s.strings.take(s.strings.len() as int) =~= s.strings);
        assert(s.ir.take(s.ir.len() as int) =~= s.ir);
    } else {
        lemma_gen_block_frame(s, b.drop_last());
        if let Ok(s1) = spec_gen_block(s, b.drop_last()) {
            lemma_gen_stmt_frame(s1, b.last());
            if let Ok(s2) = spec_gen_stmt(s1, b.last()) {
                lemma_stmt_frame_trans(s, s1, s2);
            }
        }
    }
}

/// The typing rules of statements: after the scopes `tenv` (types only) and
/// with `term` telling whether the block has returned, the scopes and the
/// returned flag after the statement, if it is well typed.  Nothing after a
/// `return` in the same block is checked.  `let` binds in the innermost
/// scope and needs the declared type; `=` needs the variable's type;
/// `return` needs the function's declared return type `ret`; an `if` needs an
/// `int` condition, checks each block in a scope of its own, and returns when
/// both blocks return.
pub open spec fn check_stmt(
    tenv: Seq<Seq<(Seq<char>, Type)>>,
    funcs: Seq<FuncSigV>,
    ret: Type,
    term: bool,
    st: StmtV,
) -> Option<(Seq<Seq<(Seq<char>, Type)>>, bool)>
    decreases st,
{
    if term {
        Some((tenv, true))
    } else {
        match st {
            StmtV::Let(name, ty, e) => if type_of(tenv, funcs, e) == Some(ty) {
                Some((tenv.drop_last().push(tenv.last().push((name, ty))), false))
            } else {
                None
            },
            StmtV::Assign(name, e) => match type_of(tenv, funcs, e) {
                Some(et) => if var_type(tenv, name) == Some(et) {
                    Some((tenv, false))
                } else {
                    None
                },
                None => None,
            },
            StmtV::If(c, t, eb) => if type_of(tenv, funcs, c) == Some(Type::Int) {
                match check_block(tenv.push(Seq::empty()), funcs, ret, false, t) {
                    Some((t3, term3)) => match eb {
                        Some(b) => match check_block(t3.drop_last().push(Seq::empty()), funcs, ret, false, b) {
                            Some((t5, term5)) => Some((t5.drop_last(), term3 && term5)),
                            None => None,
                        },
                        None => Some((t3.drop_last(), false)),
                    },
                    None => None,
                }
            } else {
                None
            },
            StmtV::Return(e) => if type_of(tenv, funcs, e) == Some(ret) {
                Some((tenv, true))
            } else {
                None
            },
            StmtV::Expr(e) => if type_of(tenv, funcs, e) is Some {
                Some((tenv, false))
            } else {
                None
            },
        }
    }
}

/// The typing rules of a block: its statements in order.
pub open spec fn check_block(
    tenv: Seq<Seq<(Seq<char>, Type)>>,
    funcs: Seq<FuncSigV>,
    ret: Type,
    term: bool,
    b: Seq<StmtV>,
) -> Option<(Seq<Seq<(Seq<char>, Type)>>, bool)>
    decreases b,
{
    if b.len() == 0 {
        Some((tenv, term))
    } else {
        match check_block(tenv, funcs, ret, term, b.drop_last()) {
            Some((t1, term1)) => check_stmt(t1, funcs, ret, term1, b.last()),
            None => None,
        }
    }
}

/// The typing rules of the blocks of an `if`: what `check_stmt` does for an
/// `if` once its condition has type `int`.
pub open spec fn check_if_blocks(
    tenv: Seq<Seq<(Seq<char>, Type)>>,
    funcs: Seq<FuncSigV>,
    ret: Type,
    then_b: Seq<StmtV>,
    else_b: Option<Seq<StmtV>>,
) -> Option<(Seq<Seq<(Seq<char>, Type)>>, bool)> {
    match check_block(tenv.push(Seq::empty()), funcs, ret, false, then_b) {
        Some((t3, term3)) => match else_b {
            Some(b) => match check_block(t3.drop_last().push(Seq::empty()), funcs, ret, false, b) {
                Some((t5, term5)) => Some((t5.drop_last(), term3 && term5)),
                None => None,
            },
            None => Some((t3.drop_last(), false)),
        },
        None => None,
    }
}

/// Law: code generation accepts a statement exactly when it is well typed,
/// and leaves the scopes (their types) and the returned flag as the typing
/// rules say.
pub proof fn lemma_gen_stmt_checks(s: CgState, st: StmtV)
    requires
        s.env.len() > 0,
    ensures
        (spec_gen_stmt(s, st) is Ok) == (check_stmt(env_types(s.env), s.funcs, s.ret, s.terminated, st) is Some),
        spec_gen_stmt(s, st) matches Ok(s2) ==> check_stmt(env_types(s.env), s.funcs, s.ret, s.terminated, st)
            == Some((env_types(s2.env), s2.terminated)),
    decreases st, 1nat,
{
    if s.terminated {
        return;
    }
    match st {
        StmtV::Let(name, ty, e) => {
            lemma_gen_expr_typing(s, e);
            if let Ok(s2) = spec_gen_stmt(s, st) {
                let tenv = env_types(s.env);
                assert(scope_types(s2.env.last()) =~= tenv.last().push((name, ty)));
                assert(env_types(s2.env) =~= tenv.drop_last().push(tenv.last().push((name, ty))));
            }
        },
        StmtV::Assign(name, e) => {
            lemma_gen_expr_typing(s, e);
            lemma_var_type(s.env, name);
        },
        StmtV::Return(e) => {
            lemma_gen_expr_typing(s, e);
        },
        StmtV::Expr(e) => {
            lemma_gen_expr_typing(s, e);
        },
        StmtV::If(cond, _, _) => {
            lemma_gen_expr_typing(s, cond);
            if let Ok((s1, cv, ct)) = spec_gen_expr(s, cond) {
                if ct == Type::Int {
                    lemma_gen_if_checks(s, st, s1, cv);
                }
            }
        },
    }
}

/// The `if` case of `lemma_gen_stmt_checks`, once its condition has generated
/// `s1` with the value `cv`.
proof fn lemma_gen_if_checks(s: CgState, st: StmtV, s1: CgState, cv: Seq<char>)
    requires
        s.env.len() > 0,
        st is If,
        s1.env == s.env,
        s1.funcs == s.funcs,
        s1.ret == s.ret,
    ensures
        (st matches StmtV::If(_, then_b, else_b) ==> {
            let r = spec_gen_if_blocks(s1, cv, then_b, else_b);
            let c = check_if_blocks(env_types(s.env), s.funcs, s.ret, then_b, else_b);
            &&& (r is Ok) == (c is Some)
            &&& r matches Ok(s6) ==> c == Some((env_types(s6.env), s6.terminated))
        }),
    decreases st, 0nat,
{
    if let StmtV::If(_, then_b, else_b) = st {
        let tenv = env_types(s.env);
        let s2 = if_entry(s1, cv);
        assert(env_types(s2.env) =~= tenv.push(Seq::empty())) by {
            assert(scope_types(Seq::<BindingV>::empty()) =~= Seq::<(Seq<char>, Type)>::empty());
        }
        lemma_gen_block_checks(s2, then_b);
        lemma_gen_block_frame(s2, then_b);
        if let Ok(s3) = spec_gen_block(s2, then_b) {
            let t3 = env_types(s3.env);
            let s4 = if_between(s1, s3);
            assert(env_types(s4.env) =~= t3.drop_last());
            match else_b {
                Some(eb) => {
                    let s4b = open_scope(s4);
                    assert(env_types(s4b.env) =~= t3.drop_last().push(Seq::empty())) by {
                        assert(scope_types(Seq::<BindingV>::empty()) =~= Seq::<(Seq<char>, Type)>::empty());
                    }
                    lemma_gen_block_checks(s4b, eb);
                    lemma_gen_block_frame(s4b, eb);
                    if let Ok(s5) = spec_gen_block(s4b, eb) {
                        assert(env_types(close_scope(s5).env) =~= env_types(s5.env).drop_last());
                    }
                },
                None => {},
            }
        }
    }
}

/// Law: code generation accepts a block exactly when it is well typed, and
/// leaves the scopes (their types) and the returned flag as the typing rules say.
pub proof fn lemma_gen_block_checks(s: CgState, b: Seq<StmtV>)
    requires
        s.env.len() > 0,
    ensures
        (spec_gen_block(s, b) is Ok) == (check_block(env_types(s.env), s.funcs, s.ret, s.terminated, b) is Some),
        spec_gen_block(s, b) matches Ok(s2) ==> check_block(env_types(s.env), s.funcs, s.ret, s.terminated, b)
            == Some((env_types(s2.env), s2.terminated)),
    decreases b, 0nat,
{
    if b.len() > 0 {
        lemma_gen_block_checks(s, b.drop_last());
        lemma_gen_block_frame(s, b.drop_last());
        if let Ok(s1) = spec_gen_block(s, b.drop_last()) {
            lemma_gen_stmt_checks(s1, b.last());
        }
    }
}
/// Binding parameters appends them, with their types, to the innermost scope
/// and changes neither the function table nor the returned flag.
proof fn lemma_bind_params_types(s: CgState, params: Seq<(Seq<char>, Type)>)
    requires
        s.env.len() > 0,
    ensures
        ({
            let b = spec_bind_params(s, params);
            &&& b.env.len() == s.env.len()
            &&& env_types(b.env) == env_types(s.env).drop_last().push(env_types(s.env).last() + params)
            &&& b.funcs == s.funcs
            &&& b.ret == s.ret
            &&& b.terminated == s.terminated
        }),
    decreases params.len(),
{
    let t = env_types(s.env);
    if params.len() == 0 {
        assert(t.last() + params =~= t.last());
        assert(t.drop_last().push(t.last()) =~= t);
    } else {
        lemma_bind_params_types(s, params.drop_last());
        let b1 = spec_bind_params(s, params.drop_last());
        let b = spec_bind_params(s, params);
        assert(scope_types(b.env.last()) =~= scope_types(b1.env.last()).push(params.last()));
        assert(env_types(b1.env).last() == t.last() + params.drop_last());
        assert(b.env.drop_last() =~= b1.env.drop_last());
        assert(env_types(b.env).drop_last() =~= env_types(b1.env).drop_last());
        assert(env_types(b1.env).drop_last() =~= t.drop_last());
        assert(env_types(b.env).last() == scope_types(b.env.last()));
        assert(env_types(b1.env).last() == scope_types(b1.env.last()));
        assert((t.last() + params.drop_last()).push(params.last()) =~= t.last() + params);
        assert(env_types(b.env).last() == t.last() + params);
        assert(env_types(b.env) =~= t.drop_last().push(t.last() + params));
    }
}

/// The typing rules of a function: its body is well typed, under the function
/// table `funcs`, in one scope that holds its parameters.
pub open spec fn check_function(funcs: Seq<FuncSigV>, f: FunctionV) -> bool {
    check_block(seq![f.args], funcs, f.ret_type, false, f.body) is Some
}

/// Law: code generation accepts a function exactly when it is well typed, and
/// keeps the function table.
pub proof fn lemma_gen_function_checks(s: CgState, f: FunctionV)
    ensures
        (spec_gen_function(s, f) is Ok) == check_function(s.funcs, f),
        spec_gen_function(s, f) matches Ok(s2) ==> s2.funcs == s.funcs,
{
    let s0 = CgState { reg: 1, label: 1, terminated: false, env: seq![Seq::empty()], ret: f.ret_type, ..s };
    let e0 = emit(s0, crate::codegen::header_text(f));
    lemma_bind_params_types(e0, f.args);
    let s1 = spec_bind_params(e0, f.args);
    assert(env_types(e0.env) =~= seq![Seq::<(Seq<char>, Type)>::empty()]) by {
        assert(scope_types(Seq::<BindingV>::empty()) =~= Seq::<(Seq<char>, Type)>::empty());
    }
    assert(Seq::<(Seq<char>, Type)>::empty() + f.args =~= f.args);
    assert(env_types(s1.env) =~= seq![f.args]);
    lemma_gen_block_checks(s1, f.body);
    lemma_gen_block_frame(s1, f.body);
}

/// Law: code generation accepts a sequence of functions exactly when each is
/// well typed under the function table it starts with, and keeps that table.
pub proof fn lemma_gen_functions_checks(s: CgState, prog: Seq<FunctionV>)
    ensures
        (spec_gen_functions(s, prog) is Ok) == (forall|i: int| 0 <= i < prog.len() ==> check_function(s.funcs, #[trigger] prog[i])),
        spec_gen_functions(s, prog) matches Ok(s2) ==> s2.funcs == s.funcs,
    decreases prog.len(),
{
    if prog.len() > 0 {
        let init = prog.drop_last();
        lemma_gen_functions_checks(s, init);
        if let Ok(s1) = spec_gen_functions(s, init) {
            lemma_gen_function_checks(s1, prog.last());
        }
        if forall|i: int| 0 <= i < prog.len() ==> check_function(s.funcs, #[trigger] prog[i]) {
            assert forall|i: int| 0 <= i < init.len() implies check_function(s.funcs, #[trigger] init[i]) by {
                assert(init[i] == prog[i]);
            }
            assert(check_function(s.funcs, prog[prog.len() - 1]));
        } else {
            let k = choose|i: int| 0 <= i < prog.len() && !check_function(s.funcs, #[trigger] prog[i]);
            if k < init.len() {
                assert(init[k] == prog[k]);
            }
        }
    }
}

/// Law: a program compiles exactly when every function is well typed under the
/// function table that holds the built-in functions and every function of the
/// program, whatever their order.
pub proof fn lemma_compile_checks(s: CgState, prog: Seq<FunctionV>)
    ensures
        (spec_compile(s, prog) is Ok) == (forall|i: int| 0 <= i < prog.len()
            ==> check_function(s.funcs + signatures(prog), #[trigger] prog[i])),
{
    lemma_gen_functions_checks(CgState { funcs: s.funcs + signatures(prog), ..s }, prog);
}
} // verus!
