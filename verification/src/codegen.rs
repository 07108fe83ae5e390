//! The `tp0` code generator: emits LLVM IR and checks types as it goes.
use vstd::prelude::*;

use vstd::string::StringExecFns;
use vstd::utf8::encode_utf8;

use crate::ast::{
    expr_view, expr_wf, exprs_view, exprs_wf, is_arith_op, lemma_exprs_view, lemma_stmts_view, params_view,
    program_view, stmt_view, stmt_wf, stmts_view, stmts_wf, Expr, ExprV, Function, FunctionV, Stmt, StmtV, Type,
};
use crate::lexer::{Token, TokenV};
use crate::text::{
    hex_escape, int_to_decimal, nat_to_decimal, push_decimal, push_hex_escape, push_signed_decimal,
};

verus! {

/// Why the code generator rejects a program.
#[derive(Debug)]
pub enum CgError {
    /// A variable is read that no enclosing scope defines.
    UndefinedVariable(String),
    /// The operands of a binary operator have different types.
    MixedTypes,
    /// A string operand of an operator other than `+`.
    StringOperator,
    /// A call of a function that is neither defined nor built in.
    UnknownFunction(String),
    /// `let` gives a variable a value of another type than it declares.
    LetTypeMismatch { name: String, declared: Type, actual: Type },
    /// An assignment gives a variable a value of another type than its own.
    AssignTypeMismatch { name: String, actual: Type },
    /// An assignment to a variable that no enclosing scope defines.
    AssignUndefined(String),
    /// The condition of `if` is not an `int`.
    ConditionNotInt,
    /// A call's arguments differ in number or types from the function's parameters.
    ArgumentMismatch(String),
    /// `return` gives a value of another type than the function declares.
    ReturnTypeMismatch { declared: Type, actual: Type },
}

/// The mathematical value of a code generation error.
pub enum CgErrorV {
    UndefinedVariable(Seq<char>),
    MixedTypes,
    StringOperator,
    UnknownFunction(Seq<char>),
    LetTypeMismatch { name: Seq<char>, declared: Type, actual: Type },
    AssignTypeMismatch { name: Seq<char>, actual: Type },
    AssignUndefined(Seq<char>),
    ConditionNotInt,
    ArgumentMismatch(Seq<char>),
    ReturnTypeMismatch { declared: Type, actual: Type },
}

impl View for CgError {
    type V = CgErrorV;

    open spec fn view(&self) -> CgErrorV {
        match self {
            CgError::UndefinedVariable(n) => CgErrorV::UndefinedVariable(n@),
            CgError::MixedTypes => CgErrorV::MixedTypes,
            CgError::StringOperator => CgErrorV::StringOperator,
            CgError::UnknownFunction(n) => CgErrorV::UnknownFunction(n@),
            CgError::LetTypeMismatch { name, declared, actual } => CgErrorV::LetTypeMismatch {
                name: name@,
                declared: *declared,
                actual: *actual,
            },
            CgError::AssignTypeMismatch { name, actual } => CgErrorV::AssignTypeMismatch {
                name: name@,
                actual: *actual,
            },
            CgError::AssignUndefined(n) => CgErrorV::AssignUndefined(n@),
            CgError::ConditionNotInt => CgErrorV::ConditionNotInt,
            CgError::ArgumentMismatch(n) => CgErrorV::ArgumentMismatch(n@),
            CgError::ReturnTypeMismatch { declared, actual } => CgErrorV::ReturnTypeMismatch {
                declared: *declared,
                actual: *actual,
            },
        }
    }
}

/// A function's name, parameter types and return type.
pub type FuncSigV = (Seq<char>, Seq<Type>, Type);

/// A variable binding: name, the register that holds its stack slot, and its type.
pub type BindingV = (Seq<char>, Seq<char>, Type);

/// The mathematical state of the code generator.
#[verifier::ext_equal]
pub struct CgState {
    /// The instructions emitted so far.
    pub ir: Seq<char>,
    /// The number of the next temporary register.
    pub reg: nat,
    /// The number of the next label.
    pub label: nat,
    /// The scopes, innermost last; in each, later bindings shadow earlier ones.
    pub env: Seq<Seq<BindingV>>,
    /// The string constants and their numbers.
    pub strings: Seq<(Seq<char>, nat)>,
    /// The functions' parameter types and return types; later entries shadow
    /// earlier ones.
    pub funcs: Seq<FuncSigV>,
    /// Whether the current block has returned.
    pub terminated: bool,
    /// The declared return type of the function being generated.
    pub ret: Type,
}

// ---------------------------------------------------------------------------
// Names, lookups and instruction texts
// ---------------------------------------------------------------------------

/// The LLVM type of a `tp0` type.
pub open spec fn spec_llvm_type(ty: Type) -> Seq<char> {
    match ty {
        Type::Int => "i64"@,
        Type::Str => "ptr"@,
    }
}

/// The name of temporary register `n`.
pub open spec fn reg_name(n: nat) -> Seq<char> {
    "%t"@ + nat_to_decimal(n)
}

/// The name of label `n`.
pub open spec fn label_name(n: nat) -> Seq<char> {
    "L"@ + nat_to_decimal(n)
}

/// The global holding string constant `id`.
pub open spec fn string_global(id: nat) -> Seq<char> {
    "@.str."@ + nat_to_decimal(id)
}

/// The latest binding of `name` in one scope.
pub open spec fn scope_lookup(scope: Seq<BindingV>, name: Seq<char>) -> Option<(Seq<char>, Type)>
    decreases scope.len(),
{
    if scope.len() == 0 {
        None
    } else if scope.last().0 == name {
        Some((scope.last().1, scope.last().2))
    } else {
        scope_lookup(scope.drop_last(), name)
    }
}

/// The binding of `name` in the innermost scope that binds it.
pub open spec fn env_lookup(env: Seq<Seq<BindingV>>, name: Seq<char>) -> Option<(Seq<char>, Type)>
    decreases env.len(),
{
    if env.len() == 0 {
        None
    } else {
        match scope_lookup(env.last(), name) {
            Some(b) => Some(b),
            None => env_lookup(env.drop_last(), name),
        }
    }
}

/// The return type of the latest function entry named `name`.
pub open spec fn funcs_lookup(funcs: Seq<FuncSigV>, name: Seq<char>) -> Option<(Seq<Type>, Type)>
    decreases funcs.len(),
{
    if funcs.len() == 0 {
        None
    } else if funcs.last().0 == name {
        Some((funcs.last().1, funcs.last().2))
    } else {
        funcs_lookup(funcs.drop_last(), name)
    }
}

/// Adds a binding to the innermost scope.
pub open spec fn env_bind(env: Seq<Seq<BindingV>>, b: BindingV) -> Seq<Seq<BindingV>> {
    env.drop_last().push(env.last().push(b))
}

/// The instruction of an arithmetic operator.
pub open spec fn op_instr(op: TokenV) -> Seq<char> {
    match op {
        TokenV::Plus => "add"@,
        TokenV::Minus => "sub"@,
        TokenV::Star => "mul"@,
        _ => "sdiv"@,
    }
}

/// The call arguments `ty val, ty val, ...`.
pub open spec fn args_text(vals: Seq<(Seq<char>, Type)>) -> Seq<char>
    decreases vals.len(),
{
    if vals.len() == 0 {
        Seq::empty()
    } else {
        let item = spec_llvm_type(vals.last().1) + " "@ + vals.last().0;
        if vals.len() == 1 {
            item
        } else {
            args_text(vals.drop_last()) + ", "@ + item
        }
    }
}

/// The parameters `ty %arg_name, ...` of a function header.
pub open spec fn params_text(params: Seq<(Seq<char>, Type)>) -> Seq<char>
    decreases params.len(),
{
    if params.len() == 0 {
        Seq::empty()
    } else {
        let item = spec_llvm_type(params.last().1) + " %arg_"@ + params.last().0;
        if params.len() == 1 {
            item
        } else {
            params_text(params.drop_last()) + ", "@ + item
        }
    }
}

/// `  res = load ty, ptr slot`
pub open spec fn load_line(res: Seq<char>, ty: Type, slot: Seq<char>) -> Seq<char> {
    "  "@ + res + " = load "@ + spec_llvm_type(ty) + ", ptr "@ + slot + "\n"@
}

/// Do the values have exactly the parameter types `params`?
fn types_match(vals: &Vec<(String, Type)>, params: &Vec<Type>) -> (r: bool)
    ensures
        r == (value_types(vals_view(vals@)) == params@),
{
    let ghost vt = value_types(vals_view(vals@));
    if vals.len() != params.len() {
        return false;
    }
    let mut i: usize = 0;
    while i < vals.len()
        invariant
            i <= vals@.len(),
            vals@.len() == params@.len(),
            vt == value_types(vals_view(vals@)),
            vt.len() == vals@.len(),
            forall|j: int| 0 <= j < i ==> vt[j] == params@[j],
        decreases vals@.len() - i,
    {
        assert(vt[i as int] == vals@[i as int].1);
        if vals[i].1 != params[i] {
            return false;
        }
        i = i + 1;
    }
    assert(vt =~= params@);
    true
}

/// The types of a parameter list.
fn params_types(args: &Vec<(String, Type)>) -> (r: Vec<Type>)
    ensures
        r@ == param_types(params_view(args@)),
{
    let mut r: Vec<Type> = Vec::new();
    let mut i: usize = 0;
    while i < args.len()
        invariant
            i <= args@.len(),
            r@ == param_types(params_view(args@)).take(i as int),
        decreases args@.len() - i,
    {
        r.push(args[i].1);
        assert(param_types(params_view(args@)).take(i + 1) =~= param_types(params_view(args@)).take(i as int).push(args@[i as int].1));
        i = i + 1;
    }
    assert(param_types(params_view(args@)).take(i as int) =~= param_types(params_view(args@)));
    r
}

/// `  res = call ptr @concat(ptr l, ptr r)`
pub open spec fn concat_line(res: Seq<char>, l: Seq<char>, r: Seq<char>) -> Seq<char> {
    "  "@ + res + " = call ptr @concat(ptr "@ + l + ", ptr "@ + r + ")\n"@
}

/// `  res = instr i64 l, r`
pub open spec fn arith_line(res: Seq<char>, op: TokenV, l: Seq<char>, r: Seq<char>) -> Seq<char> {
    "  "@ + res + " = "@ + op_instr(op) + " i64 "@ + l + ", "@ + r + "\n"@
}

/// `  res = call ty @name(args)`
pub open spec fn call_line(res: Seq<char>, ty: Type, name: Seq<char>, args: Seq<(Seq<char>, Type)>) -> Seq<char> {
    "  "@ + res + " = call "@ + spec_llvm_type(ty) + " @"@ + name + "("@ + args_text(args) + ")\n"@
}

/// `  slot = alloca ty` then `  store ty val, ptr slot`
pub open spec fn alloca_store_lines(slot: Seq<char>, ty: Type, val: Seq<char>) -> Seq<char> {
    "  "@ + slot + " = alloca "@ + spec_llvm_type(ty) + "\n"@ + "  store "@ + spec_llvm_type(ty) + " "@ + val
        + ", ptr "@ + slot + "\n"@
}

/// `  store ty val, ptr slot`
pub open spec fn store_line(ty: Type, val: Seq<char>, slot: Seq<char>) -> Seq<char> {
    "  store "@ + spec_llvm_type(ty) + " "@ + val + ", ptr "@ + slot + "\n"@
}

/// `  b = icmp ne i64 c, 0`
pub open spec fn icmp_line(b: Seq<char>, c: Seq<char>) -> Seq<char> {
    "  "@ + b + " = icmp ne i64 "@ + c + ", 0\n"@
}

/// `  br i1 b, label %t, label %e`
pub open spec fn cond_br_line(b: Seq<char>, t: Seq<char>, e: Seq<char>) -> Seq<char> {
    "  br i1 "@ + b + ", label %"@ + t + ", label %"@ + e + "\n"@
}

/// `  br label %l`
pub open spec fn br_line(l: Seq<char>) -> Seq<char> {
    "  br label %"@ + l + "\n"@
}

/// `l:`
pub open spec fn label_line(l: Seq<char>) -> Seq<char> {
    l + ":\n"@
}

/// `  ret ty val`
pub open spec fn ret_line(ty: Type, val: Seq<char>) -> Seq<char> {
    "  ret "@ + spec_llvm_type(ty) + " "@ + val + "\n"@
}

/// The state with `text` appended to the instructions.
pub open spec fn emit(s: CgState, text: Seq<char>) -> CgState {
    CgState { ir: s.ir + text, ..s }
}

/// The state with the next register taken.
pub open spec fn take_reg(s: CgState) -> CgState {
    CgState { reg: s.reg + 1, ..s }
}

// ---------------------------------------------------------------------------
// Well-formed trees and the resources they need
// ---------------------------------------------------------------------------

/// The number of temporary registers an expression takes.
pub open spec fn expr_regs(e: ExprV) -> nat
    decreases e,
{
    match e {
        ExprV::Ident(_) => 1,
        ExprV::Binary(l, _, r) => expr_regs(*l) + expr_regs(*r) + 1,
        ExprV::Call(_, args) => exprs_regs(args) + 1,
        _ => 0,
    }
}

/// The number of temporary registers a sequence of expressions takes.
pub open spec fn exprs_regs(args: Seq<ExprV>) -> nat
    decreases args,
{
    if args.len() == 0 {
        0
    } else {
        exprs_regs(args.drop_last()) + expr_regs(args.last())
    }
}

/// The number of string constants an expression creates.
pub open spec fn expr_strs(e: ExprV) -> nat
    decreases e,
{
    match e {
        ExprV::StringLit(_) => 1,
        ExprV::Binary(l, _, r) => expr_strs(*l) + expr_strs(*r),
        ExprV::Call(_, args) => exprs_strs(args),
        _ => 0,
    }
}

/// The number of string constants a sequence of expressions creates.
pub open spec fn exprs_strs(args: Seq<ExprV>) -> nat
    decreases args,
{
    if args.len() == 0 {
        0
    } else {
        exprs_strs(args.drop_last()) + expr_strs(args.last())
    }
}

/// The number of temporary registers a statement takes at most.
pub open spec fn stmt_regs(s: StmtV) -> nat
    decreases s,
{
    match s {
        StmtV::Let(_, _, e) => expr_regs(e) + 1,
        StmtV::Assign(_, e) => expr_regs(e),
        StmtV::If(c, t, e) => expr_regs(c) + 1 + stmts_regs(t) + match e {
            Some(b) => stmts_regs(b),
            None => 0,
        },
        StmtV::Return(e) => expr_regs(e),
        StmtV::Expr(e) => expr_regs(e),
    }
}

/// The number of temporary registers a block takes at most.
pub open spec fn stmts_regs(b: Seq<StmtV>) -> nat
    decreases b,
{
    if b.len() == 0 {
        0
    } else {
        stmts_regs(b.drop_last()) + stmt_regs(b.last())
    }
}

/// The number of labels a statement takes at most.
pub open spec fn stmt_labels(s: StmtV) -> nat
    decreases s,
{
    match s {
        StmtV::If(_, t, e) => 3 + stmts_labels(t) + match e {
            Some(b) => stmts_labels(b),
            None => 0,
        },
        _ => 0,
    }
}

/// The number of labels a block takes at most.
pub open spec fn stmts_labels(b: Seq<StmtV>) -> nat
    decreases b,
{
    if b.len() == 0 {
        0
    } else {
        stmts_labels(b.drop_last()) + stmt_labels(b.last())
    }
}

/// The number of string constants a statement creates at most.
pub open spec fn stmt_strs(s: StmtV) -> nat
    decreases s,
{
    match s {
        StmtV::Let(_, _, e) => expr_strs(e),
        StmtV::Assign(_, e) => expr_strs(e),
        StmtV::If(c, t, e) => expr_strs(c) + stmts_strs(t) + match e {
            Some(b) => stmts_strs(b),
            None => 0,
        },
        StmtV::Return(e) => expr_strs(e),
        StmtV::Expr(e) => expr_strs(e),
    }
}

/// The number of string constants a block creates at most.
pub open spec fn stmts_strs(b: Seq<StmtV>) -> nat
    decreases b,
{
    if b.len() == 0 {
        0
    } else {
        stmts_strs(b.drop_last()) + stmt_strs(b.last())
    }
}

// ---------------------------------------------------------------------------
// Specification of code generation
// ---------------------------------------------------------------------------

/// The state with a new innermost scope.
pub open spec fn open_scope(s: CgState) -> CgState {
    CgState { env: s.env.push(Seq::empty()), ..s }
}

/// The state without its innermost scope.
pub open spec fn close_scope(s: CgState) -> CgState {
    CgState { env: s.env.drop_last(), ..s }
}

/// Entering the `then` block of an `if` whose condition (an `int`) is `cv`,
/// after state `s1`: compare with 0, branch to `L(n)` or `L(n+1)` (`L(n+2)`
/// is the merge label), open `L(n)` and a new scope.
pub open spec fn if_entry(s1: CgState, cv: Seq<char>) -> CgState {
    let b = reg_name(s1.reg);
    CgState {
        ir: s1.ir + icmp_line(b, cv) + cond_br_line(b, label_name(s1.label), label_name(s1.label + 1))
            + label_line(label_name(s1.label)),
        reg: s1.reg + 1,
        label: s1.label + 3,
        env: s1.env.push(Seq::empty()),
        terminated: false,
        ..s1
    }
}

/// Between the blocks of an `if` (entered after `s1`) when its `then` block
/// ended in `s3`: branch to the merge label unless it returned, drop its scope,
/// and open the `else` label.
pub open spec fn if_between(s1: CgState, s3: CgState) -> CgState {
    CgState {
        ir: s3.ir + (if s3.terminated { Seq::empty() } else { br_line(label_name(s1.label + 2)) })
            + label_line(label_name(s1.label + 1)),
        env: s3.env.drop_last(),
        terminated: false,
        ..s3
    }
}

/// Leaving an `if` (entered after `s1`) whose `else` part ended in `s5`:
/// branch to the merge label unless the `else` part returned, and open the
/// merge label unless both parts returned, in which case the `if` returns.
pub open spec fn if_exit(s1: CgState, then_term: bool, s5: CgState) -> CgState {
    let lm = label_name(s1.label + 2);
    CgState {
        ir: s5.ir + (if s5.terminated { Seq::empty() } else { br_line(lm) })
            + (if !then_term || !s5.terminated { label_line(lm) } else { Seq::empty() }),
        terminated: then_term && s5.terminated,
        ..s5
    }
}

/// Generates an expression: the new state, the value (a constant or a register) and its type.
pub open spec fn spec_gen_expr(s: CgState, e: ExprV) -> Result<(CgState, Seq<char>, Type), CgErrorV>
    decreases e,
{
    match e {
        ExprV::Number(n) => Ok((s, int_to_decimal(n as int), Type::Int)),
        ExprV::StringLit(lit) => {
            let id = s.strings.len() + 1;
            Ok((CgState { strings: s.strings.push((lit, id)), ..s }, string_global(id), Type::Str))
        },
        ExprV::Ident(name) => match env_lookup(s.env, name) {
            Some((slot, ty)) => {
                let res = reg_name(s.reg);
                Ok((emit(take_reg(s), load_line(res, ty, slot)), res, ty))
            },
            None => Err(CgErrorV::UndefinedVariable(name)),
        },
        ExprV::Binary(l, op, r) => match spec_gen_expr(s, *l) {
            Ok((s1, lv, lt)) => match spec_gen_expr(s1, *r) {
                Ok((s2, rv, rt)) => if lt != rt {
                    Err(CgErrorV::MixedTypes)
                } else if lt == Type::Str {
                    if op == TokenV::Plus {
                        let res = reg_name(s2.reg);
                        Ok((emit(take_reg(s2), concat_line(res, lv, rv)), res, Type::Str))
                    } else {
                        Err(CgErrorV::StringOperator)
                    }
                } else {
                    let res = reg_name(s2.reg);
                    Ok((emit(take_reg(s2), arith_line(res, op, lv, rv)), res, Type::Int))
                },
                Err(err) => Err(err),
            },
            Err(err) => Err(err),
        },
        ExprV::Call(name, args) => match spec_gen_args(s, args) {
            Ok((s1, vals)) => match funcs_lookup(s1.funcs, name) {
                Some((params, ret)) => if value_types(vals) != params {
                    Err(CgErrorV::ArgumentMismatch(name))
                } else {
                    let res = reg_name(s1.reg);
                    Ok((emit(take_reg(s1), call_line(res, ret, name, vals)), res, ret))
                },
                None => Err(CgErrorV::UnknownFunction(name)),
            },
            Err(err) => Err(err),
        },
    }
}

/// Generates call arguments from left to right.
pub open spec fn spec_gen_args(s: CgState, args: Seq<ExprV>) -> Result<(CgState, Seq<(Seq<char>, Type)>), CgErrorV>
    decreases args,
{
    if args.len() == 0 {
        Ok((s, Seq::empty()))
    } else {
        match spec_gen_args(s, args.drop_last()) {
            Ok((s1, vals)) => match spec_gen_expr(s1, args.last()) {
                Ok((s2, v, t)) => Ok((s2, vals.push((v, t)))),
                Err(err) => Err(err),
            },
            Err(err) => Err(err),
        }
    }
}

/// Generates a statement; after a `return` in the same block nothing is generated.
pub open spec fn spec_gen_stmt(s: CgState, stmt: StmtV) -> Result<CgState, CgErrorV>
    decreases stmt,
{
    if s.terminated {
        Ok(s)
    } else {
        match stmt {
            StmtV::Let(name, ty, e) => match spec_gen_expr(s, e) {
                Ok((s1, v, et)) => if ty != et {
                    Err(CgErrorV::LetTypeMismatch { name, declared: ty, actual: et })
                } else {
                    let slot = reg_name(s1.reg);
                    let s2 = emit(take_reg(s1), alloca_store_lines(slot, ty, v));
                    Ok(CgState { env: env_bind(s2.env, (name, slot, ty)), ..s2 })
                },
                Err(err) => Err(err),
            },
            StmtV::Assign(name, e) => match spec_gen_expr(s, e) {
                Ok((s1, v, et)) => match env_lookup(s1.env, name) {
                    Some((slot, ty)) => if ty != et {
                        Err(CgErrorV::AssignTypeMismatch { name, actual: et })
                    } else {
                        Ok(emit(s1, store_line(ty, v, slot)))
                    },
                    None => Err(CgErrorV::AssignUndefined(name)),
                },
                Err(err) => Err(err),
            },
            StmtV::If(cond, then_b, else_b) => match spec_gen_expr(s, cond) {
                Ok((s1, cv, ct)) => if ct != Type::Int {
                    Err(CgErrorV::ConditionNotInt)
                } else {
                    match spec_gen_block(if_entry(s1, cv), then_b) {
                        Ok(s3) => {
                            let r5 = match else_b {
                                Some(eb) => match spec_gen_block(open_scope(if_between(s1, s3)), eb) {
                                    Ok(s5) => Ok(close_scope(s5)),
                                    Err(err) => Err(err),
                                },
                                None => Ok(if_between(s1, s3)),
                            };
                            match r5 {
                                Ok(s5) => Ok(if_exit(s1, s3.terminated, s5)),
                                Err(err) => Err(err),
                            }
                        },
                        Err(err) => Err(err),
                    }
                },
                Err(err) => Err(err),
            },
            StmtV::Return(e) => match spec_gen_expr(s, e) {
                Ok((s1, v, t)) => if t != s.ret {
                    Err(CgErrorV::ReturnTypeMismatch { declared: s.ret, actual: t })
                } else {
                    Ok(CgState { terminated: true, ..emit(s1, ret_line(t, v)) })
                },
                Err(err) => Err(err),
            },
            StmtV::Expr(e) => match spec_gen_expr(s, e) {
                Ok((s1, _, _)) => Ok(s1),
                Err(err) => Err(err),
            },
        }
    }
}

/// Generates the statements of a block in order.
pub open spec fn spec_gen_block(s: CgState, stmts: Seq<StmtV>) -> Result<CgState, CgErrorV>
    decreases stmts,
{
    if stmts.len() == 0 {
        Ok(s)
    } else {
        match spec_gen_block(s, stmts.drop_last()) {
            Ok(s1) => spec_gen_stmt(s1, stmts.last()),
            Err(err) => Err(err),
        }
    }
}


/// The blocks of an `if` and the branches around them, once its condition
/// (an `int`) has generated `s1` with the value `cv`: what `spec_gen_stmt`
/// does for an `if` from there on.
pub open spec fn spec_gen_if_blocks(s1: CgState, cv: Seq<char>, then_b: Seq<StmtV>, else_b: Option<Seq<StmtV>>) -> Result<CgState, CgErrorV> {
    match spec_gen_block(if_entry(s1, cv), then_b) {
        Ok(s3) => {
            let r5 = match else_b {
                Some(eb) => match spec_gen_block(open_scope(if_between(s1, s3)), eb) {
                    Ok(s5) => Ok(close_scope(s5)),
                    Err(err) => Err(err),
                },
                None => Ok(if_between(s1, s3)),
            };
            match r5 {
                Ok(s5) => Ok(if_exit(s1, s3.terminated, s5)),
                Err(err) => Err(err),
            }
        },
        Err(err) => Err(err),
    }
}

/// The `ret` that closes a function whose body does not return on every path.
pub open spec fn default_ret(ty: Type) -> Seq<char> {
    match ty {
        Type::Int => "  ret i64 0\n"@,
        Type::Str => "  ret ptr null\n"@,
    }
}

/// `define ty @name(params) {` and the `entry:` label.
pub open spec fn header_text(f: FunctionV) -> Seq<char> {
    "define "@ + spec_llvm_type(f.ret_type) + " @"@ + f.name + "("@ + params_text(f.args) + ") {\nentry:\n"@
}

/// Copies the parameters into stack slots and binds them in the outer scope.
pub open spec fn spec_bind_params(s: CgState, params: Seq<(Seq<char>, Type)>) -> CgState
    decreases params.len(),
{
    if params.len() == 0 {
        s
    } else {
        let s1 = spec_bind_params(s, params.drop_last());
        let (name, ty) = params.last();
        let slot = reg_name(s1.reg);
        let s2 = emit(take_reg(s1), alloca_store_lines(slot, ty, "%arg_"@ + name));
        CgState { env: env_bind(s2.env, (name, slot, ty)), ..s2 }
    }
}

/// Generates one function: registers and labels restart at 1, a single scope
/// holds the parameters, and a body that can fall off its end gets a default `ret`.
pub open spec fn spec_gen_function(s: CgState, f: FunctionV) -> Result<CgState, CgErrorV> {
    let s0 = CgState { reg: 1, label: 1, terminated: false, env: seq![Seq::empty()], ret: f.ret_type, ..s };
    let s1 = spec_bind_params(emit(s0, header_text(f)), f.args);
    match spec_gen_block(s1, f.body) {
        Ok(s2) => Ok(emit(s2, (if s2.terminated { Seq::empty() } else { default_ret(f.ret_type) }) + "}\n\n"@)),
        Err(e) => Err(e),
    }
}

/// Generates the functions in order.
pub open spec fn spec_gen_functions(s: CgState, prog: Seq<FunctionV>) -> Result<CgState, CgErrorV>
    decreases prog.len(),
{
    if prog.len() == 0 {
        Ok(s)
    } else {
        match spec_gen_functions(s, prog.drop_last()) {
            Ok(s1) => spec_gen_function(s1, prog.last()),
            Err(e) => Err(e),
        }
    }
}

/// The functions' names and return types, in order.
pub open spec fn signatures(prog: Seq<FunctionV>) -> Seq<FuncSigV> {
    prog.map_values(|f: FunctionV| (f.name, param_types(f.args), f.ret_type))
}

/// The types of a parameter list.
pub open spec fn param_types(params: Seq<(Seq<char>, Type)>) -> Seq<Type> {
    params.map_values(|p: (Seq<char>, Type)| p.1)
}

/// The types of generated values.
pub open spec fn value_types(vals: Seq<(Seq<char>, Type)>) -> Seq<Type> {
    vals.map_values(|p: (Seq<char>, Type)| p.1)
}

/// Each byte as `\XX`.
pub open spec fn hex_text(bytes: Seq<u8>) -> Seq<char>
    decreases bytes.len(),
{
    if bytes.len() == 0 {
        Seq::empty()
    } else {
        hex_text(bytes.drop_last()) + hex_escape(bytes.last())
    }
}

/// The global constant of string `id`: its UTF-8 bytes and a terminating zero.
pub open spec fn string_decl(text: Seq<char>, id: nat) -> Seq<char> {
    let bytes = encode_utf8(text).push(0u8);
    string_global(id) + " = private unnamed_addr constant ["@ + nat_to_decimal(bytes.len()) + " x i8] c\""@
        + hex_text(bytes) + "\"\n"@
}

/// The global constants of all strings, in order.
pub open spec fn globals_text(strings: Seq<(Seq<char>, nat)>) -> Seq<char>
    decreases strings.len(),
{
    if strings.len() == 0 {
        Seq::empty()
    } else {
        globals_text(strings.drop_last()) + string_decl(strings.last().0, strings.last().1)
    }
}

/// The declarations of the runtime functions.
pub open spec fn runtime_decls() -> Seq<char> {
    "\ndeclare ptr @concat(ptr, ptr)\n"@ + "declare i64 @print(ptr)\n\n"@ + "declare ptr @to_str(i64)\n\n"@
}

/// Compiles a program: registers every function's return type, generates the
/// functions, and returns the string constants, the runtime declarations and the code.
pub open spec fn spec_compile(s: CgState, prog: Seq<FunctionV>) -> Result<(CgState, Seq<char>), CgErrorV> {
    match spec_gen_functions(CgState { funcs: s.funcs + signatures(prog), ..s }, prog) {
        Ok(s1) => Ok((s1, globals_text(s1.strings) + runtime_decls() + s1.ir)),
        Err(e) => Err(e),
    }
}

/// A function's body is well formed and its registers and labels fit in `usize`.
pub open spec fn function_fits(f: FunctionV) -> bool {
    &&& stmts_wf(f.body)
    &&& 1 + f.args.len() + stmts_regs(f.body) <= usize::MAX
    &&& 1 + stmts_labels(f.body) <= usize::MAX
}

/// The number of string constants a program creates at most.
pub open spec fn program_strs(prog: Seq<FunctionV>) -> nat
    decreases prog.len(),
{
    if prog.len() == 0 {
        0
    } else {
        program_strs(prog.drop_last()) + stmts_strs(prog.last().body)
    }
}

// ---------------------------------------------------------------------------
// Facts about resources and well-formedness
// ---------------------------------------------------------------------------

/// Facts about a prefix of a sequence of expressions.
pub proof fn lemma_exprs_prefix(args: Seq<ExprV>, i: int)
    requires
        0 <= i < args.len(),
    ensures
        args.take(i + 1).drop_last() == args.take(i),
        args.take(i + 1).last() == args[i],
        exprs_regs(args.take(i + 1)) == exprs_regs(args.take(i)) + expr_regs(args[i]),
        exprs_strs(args.take(i + 1)) == exprs_strs(args.take(i)) + expr_strs(args[i]),
        exprs_regs(args.take(i + 1)) <= exprs_regs(args),
        exprs_strs(args.take(i + 1)) <= exprs_strs(args),
        exprs_wf(args) ==> expr_wf(args[i]),
    decreases args.len(),
{
    assert(args.take(i + 1).drop_last() =~= args.take(i));
    if i + 1 < args.len() {
        lemma_exprs_prefix(args.drop_last(), i);
        assert(args.drop_last().take(i + 1) =~= args.take(i + 1));
        assert(args.drop_last().take(i) =~= args.take(i));
        assert(args.drop_last()[i] == args[i]);
    } else {
        assert(args.take(i + 1) =~= args);
    }
}

/// Once a prefix of the arguments fails, all of them fail the same way.
pub proof fn lemma_gen_args_prefix(s: CgState, args: Seq<ExprV>, k: int)
    requires
        0 <= k <= args.len(),
    ensures
        spec_gen_args(s, args.take(k)) is Err ==> spec_gen_args(s, args) == spec_gen_args(s, args.take(k)),
    decreases args.len(),
{
    if k < args.len() {
        lemma_gen_args_prefix(s, args.drop_last(), k);
        assert(args.drop_last().take(k) =~= args.take(k));
    } else {
        assert(args.take(k) =~= args);
    }
}

/// The views of generated call arguments.
pub open spec fn vals_view(vals: Seq<(String, Type)>) -> Seq<(Seq<char>, Type)> {
    vals.map_values(|p: (String, Type)| (p.0@, p.1))
}

/// Facts about a prefix of a block.
pub proof fn lemma_stmts_prefix(b: Seq<StmtV>, i: int)
    requires
        0 <= i < b.len(),
    ensures
        b.take(i + 1).drop_last() == b.take(i),
        b.take(i + 1).last() == b[i],
        stmts_regs(b.take(i + 1)) == stmts_regs(b.take(i)) + stmt_regs(b[i]),
        stmts_labels(b.take(i + 1)) == stmts_labels(b.take(i)) + stmt_labels(b[i]),
        stmts_strs(b.take(i + 1)) == stmts_strs(b.take(i)) + stmt_strs(b[i]),
        stmts_regs(b.take(i + 1)) <= stmts_regs(b),
        stmts_labels(b.take(i + 1)) <= stmts_labels(b),
        stmts_strs(b.take(i + 1)) <= stmts_strs(b),
        stmts_wf(b) ==> stmt_wf(b[i]),
    decreases b.len(),
{
    assert(b.take(i + 1).drop_last() =~= b.take(i));
    if i + 1 < b.len() {
        lemma_stmts_prefix(b.drop_last(), i);
        assert(b.drop_last().take(i + 1) =~= b.take(i + 1));
        assert(b.drop_last().take(i) =~= b.take(i));
        assert(b.drop_last()[i] == b[i]);
    } else {
        assert(b.take(i + 1) =~= b);
    }
}

/// Once a prefix of a block fails, the whole block fails the same way.
pub proof fn lemma_gen_block_prefix(s: CgState, b: Seq<StmtV>, k: int)
    requires
        0 <= k <= b.len(),
    ensures
        spec_gen_block(s, b.take(k)) is Err ==> spec_gen_block(s, b) == spec_gen_block(s, b.take(k)),
    decreases b.len(),
{
    if k < b.len() {
        lemma_gen_block_prefix(s, b.drop_last(), k);
        assert(b.drop_last().take(k) =~= b.take(k));
    } else {
        assert(b.take(k) =~= b);
    }
}

/// Once a prefix of the functions fails, the whole program fails the same way.
pub proof fn lemma_gen_functions_prefix(s: CgState, prog: Seq<FunctionV>, k: int)
    requires
        0 <= k <= prog.len(),
    ensures
        spec_gen_functions(s, prog.take(k)) is Err ==> spec_gen_functions(s, prog) == spec_gen_functions(s, prog.take(k)),
    decreases prog.len(),
{
    if k < prog.len() {
        lemma_gen_functions_prefix(s, prog.drop_last(), k);
        assert(prog.drop_last().take(k) =~= prog.take(k));
    } else {
        assert(prog.take(k) =~= prog);
    }
}

/// The string constants of a prefix of the program.
pub proof fn lemma_program_strs_prefix(prog: Seq<FunctionV>, i: int)
    requires
        0 <= i < prog.len(),
    ensures
        prog.take(i + 1).drop_last() == prog.take(i),
        prog.take(i + 1).last() == prog[i],
        program_strs(prog.take(i + 1)) == program_strs(prog.take(i)) + stmts_strs(prog[i].body),
        program_strs(prog.take(i + 1)) <= program_strs(prog),
    decreases prog.len(),
{
    assert(prog.take(i + 1).drop_last() =~= prog.take(i));
    if i + 1 < prog.len() {
        lemma_program_strs_prefix(prog.drop_last(), i);
        assert(prog.drop_last().take(i + 1) =~= prog.take(i + 1));
        assert(prog.drop_last().take(i) =~= prog.take(i));
    } else {
        assert(prog.take(i + 1) =~= prog);
    }
}

/// The whole sequence is its longest prefix.
pub proof fn lemma_take_all<A>(s: Seq<A>)
    ensures
        s.take(s.len() as int) == s,
{
    assert(s.take(s.len() as int) =~= s);
}

// ---------------------------------------------------------------------------
// The code generator
// ---------------------------------------------------------------------------

/// A variable binding: name, the register of its stack slot, and its type.
pub type Binding = (String, String, Type);

/// A function's name, parameter types and return type.
pub type FuncSig = (String, Vec<Type>, Type);

/// The view of one scope.
pub open spec fn scope_view(scope: Seq<Binding>) -> Seq<BindingV> {
    scope.map_values(|b: Binding| (b.0@, b.1@, b.2))
}

/// The view of the scopes.
pub open spec fn env_view(env: Seq<Vec<Binding>>) -> Seq<Seq<BindingV>> {
    env.map_values(|scope: Vec<Binding>| scope_view(scope@))
}

/// The code generator's state.
pub struct CodeGen {
    pub ir: String,
    pub reg: usize,
    pub label: usize,
    pub env: Vec<Vec<Binding>>,
    pub strings: Vec<(String, usize)>,
    pub funcs: Vec<FuncSig>,
    pub terminated: bool,
    pub ret_type: Type,
}

impl View for CodeGen {
    type V = CgState;

    open spec fn view(&self) -> CgState {
        CgState {
            ir: self.ir@,
            reg: self.reg as nat,
            label: self.label as nat,
            env: env_view(self.env@),
            strings: self.strings@.map_values(|p: (String, usize)| (p.0@, p.1 as nat)),
            funcs: self.funcs@.map_values(|p: FuncSig| (p.0@, p.1@, p.2)),
            terminated: self.terminated,
            ret: self.ret_type,
        }
    }
}

/// The built-in functions and their return types: `print` and `to_str`.
pub open spec fn builtin_funcs() -> Seq<FuncSigV> {
    seq![("print"@, seq![Type::Str], Type::Int), ("to_str"@, seq![Type::Int], Type::Str)]
}

impl CodeGen {
    /// A fresh generator: no output, registers and labels from 1, one empty
    /// scope, and the built-in functions `print` (`int`) and `to_str` (`str`).
    pub fn new() -> (g: CodeGen)
        ensures
            g@ == (CgState {
                ir: Seq::empty(),
                reg: 1,
                label: 1,
                env: seq![Seq::empty()],
                strings: Seq::empty(),
                funcs: builtin_funcs(),
                terminated: false,
                ret: Type::Int,
            }),
    {
        let mut funcs: Vec<FuncSig> = Vec::new();
        let mut print_params: Vec<Type> = Vec::new();
        print_params.push(Type::Str);
        let mut to_str_params: Vec<Type> = Vec::new();
        to_str_params.push(Type::Int);
        assert(print_params@ =~= seq![Type::Str]);
        assert(to_str_params@ =~= seq![Type::Int]);
        funcs.push((String::from_str("print"), print_params, Type::Int));
        funcs.push((String::from_str("to_str"), to_str_params, Type::Str));
        let mut env: Vec<Vec<Binding>> = Vec::new();
        env.push(Vec::new());
        let g = CodeGen {
            ir: String::new(),
            reg: 1,
            label: 1,
            env,
            strings: Vec::new(),
            funcs,
            terminated: false,
            ret_type: Type::Int,
        };
        assert(g@.env =~= seq![Seq::<BindingV>::empty()]) by {
            assert(scope_view(g.env@[0]@) =~= Seq::<BindingV>::empty());
        }
        assert(g@.funcs =~= builtin_funcs());
        assert(g@.strings =~= Seq::<(Seq<char>, nat)>::empty());
        g
    }

    /// Takes the next temporary register `%tN`.
    pub fn next_reg(&mut self) -> (r: String)
        requires
            old(self).reg < usize::MAX,
        ensures
            r@ == reg_name(old(self)@.reg),
            final(self)@ == take_reg(old(self)@),
    {
        let mut r = String::new();
        r.push_str("%t");
        push_decimal(&mut r, self.reg as u128);
        self.reg = self.reg + 1;
        assert(final(self)@ =~= take_reg(old(self)@));
        r
    }

    /// Takes the next label `LN`.
    pub fn next_label(&mut self) -> (l: String)
        requires
            old(self).label < usize::MAX,
        ensures
            l@ == label_name(old(self)@.label),
            final(self)@ == (CgState { label: old(self)@.label + 1, ..old(self)@ }),
    {
        let mut l = String::new();
        l.push_str("L");
        push_decimal(&mut l, self.label as u128);
        self.label = self.label + 1;
        assert(final(self)@ =~= (CgState { label: old(self)@.label + 1, ..old(self)@ }));
        l
    }

    /// The LLVM type of a `tp0` type: `i64` or `ptr`.
    pub fn llvm_type(ty: &Type) -> (t: &'static str)
        ensures
            t@ == spec_llvm_type(*ty),
    {
        match ty {
            Type::Int => "i64",
            Type::Str => "ptr",
        }
    }

    /// Appends text to the instructions.
    fn emit(&mut self, text: &str)
        ensures
            final(self)@ == emit(old(self)@, text@),
    {
        self.ir.push_str(text);
        assert(final(self)@ =~= emit(old(self)@, text@));
    }

    /// The binding of `name` in the innermost scope that binds it.
    fn lookup_var(&self, name: &String) -> (r: Option<(String, Type)>)
        ensures
            match env_lookup(self@.env, name@) {
                Some((p, t)) => r matches Some((rp, rt)) && rp@ == p && rt == t,
                None => r is None,
            },
    {
        let ghost e = self@.env;
        let mut i = self.env.len();
        assert(e.take(i as int) =~= e);
        while i > 0
            invariant
                i <= self.env@.len(),
                e == self@.env,
                e.len() == self.env@.len(),
                env_lookup(e, name@) == env_lookup(e.take(i as int), name@),
            decreases i,
        {
            let scope = &self.env[i - 1];
            assert(e.take(i as int).last() == scope_view(scope@));
            assert(e.take(i as int).drop_last() =~= e.take(i - 1));
            let mut j = scope.len();
            let ghost sv = scope_view(scope@);
            assert(sv.take(j as int) =~= sv);
            while j > 0
                invariant
                    0 < i <= self.env@.len(),
                    e == self@.env,
                    env_lookup(e, name@) == env_lookup(e.take(i as int), name@),
                    e.take(i as int).last() == sv,
                    e.take(i as int).drop_last() == e.take(i - 1),
                    j <= scope@.len(),
                    sv == scope_view(scope@),
                    sv.len() == scope@.len(),
                    scope_lookup(sv, name@) == scope_lookup(sv.take(j as int), name@),
                decreases j,
            {
                assert(sv.take(j as int).last() == sv[j - 1]);
                assert(sv.take(j as int).drop_last() =~= sv.take(j - 1));
                if scope[j - 1].0 == *name {
                    return Some((scope[j - 1].1.clone(), scope[j - 1].2));
                }
                j = j - 1;
            }
            assert(scope_lookup(sv, name@) is None);
            i = i - 1;
        }
        None
    }

    /// The position of the latest function entry named `name`.
    fn lookup_func(&self, name: &String) -> (r: Option<usize>)
        ensures
            match funcs_lookup(self@.funcs, name@) {
                Some((params, ret)) => r matches Some(i) && i < self.funcs@.len()
                    && self.funcs@[i as int].1@ == params && self.funcs@[i as int].2 == ret,
                None => r is None,
            },
    {
        let ghost f = self@.funcs;
        let mut i = self.funcs.len();
        assert(f.take(i as int) =~= f);
        while i > 0
            invariant
                i <= self.funcs@.len(),
                f == self@.funcs,
                f.len() == self.funcs@.len(),
                funcs_lookup(f, name@) == funcs_lookup(f.take(i as int), name@),
            decreases i,
        {
            assert(f.take(i as int).last() == f[i - 1]);
            assert(f.take(i as int).drop_last() =~= f.take(i - 1));
            if self.funcs[i - 1].0 == *name {
                return Some(i - 1);
            }
            i = i - 1;
        }
        None
    }

    /// Generates an expression, checking its types; returns its value (a
    /// constant or a register) and its type.
    /// Returns the error that rejects the input instead of aborting.
    pub fn try_gen_expr(&mut self, expr: &Expr) -> (r: Result<(String, Type), CgError>)
        requires
            expr_wf(expr@),
            old(self)@.reg + expr_regs(expr@) <= usize::MAX,
            old(self)@.strings.len() + expr_strs(expr@) <= usize::MAX,
        ensures
            match spec_gen_expr(old(self)@, expr@) {
                Ok((s, v, t)) => r matches Ok((rv, rt)) && rv@ == v && rt == t && final(self)@ == s,
                Err(e) => r matches Err(x) && x@ == e,
            },
            r is Ok ==> final(self)@.reg == old(self)@.reg + expr_regs(expr@),
            r is Ok ==> final(self)@.strings.len() == old(self)@.strings.len() + expr_strs(expr@),
            final(self)@.env == old(self)@.env,
            final(self)@.label == old(self)@.label,
            final(self)@.terminated == old(self)@.terminated,
            final(self)@.funcs == old(self)@.funcs,
            final(self).env@.len() == old(self).env@.len(),
        decreases expr, 1int,
    {
        let ghost s0 = self@;
        match expr {
            Expr::Number(n) => {
                let mut v = String::new();
                push_signed_decimal(&mut v, *n);
                Ok((v, Type::Int))
            },
            Expr::StringLit(lit) => {
                let id = self.strings.len() + 1;
                self.strings.push((lit.clone(), id));
                let mut v = String::new();
                v.push_str("@.str.");
                push_decimal(&mut v, id as u128);
                assert(self@ =~= (CgState { strings: s0.strings.push((lit@, id as nat)), ..s0 }));
                Ok((v, Type::Str))
            },
            Expr::Ident(name) => match self.lookup_var(name) {
                Some((slot, ty)) => {
                    let res = self.next_reg();
                    let line = load_text(&res, ty, &slot);
                    self.emit(line.as_str());
                    Ok((res, ty))
                },
                None => Err(CgError::UndefinedVariable(name.clone())),
            },
            Expr::Binary(..) => self.gen_binary(expr),
            Expr::Call(..) => self.gen_call(expr),
        }
    }
    fn gen_binary(&mut self, expr: &Expr) -> (r: Result<(String, Type), CgError>)
        requires
            expr_wf(expr@),
            old(self)@.reg + expr_regs(expr@) <= usize::MAX,
            old(self)@.strings.len() + expr_strs(expr@) <= usize::MAX,
            expr@ is Binary,
        ensures
            match spec_gen_expr(old(self)@, expr@) {
                Ok((s, v, t)) => r matches Ok((rv, rt)) && rv@ == v && rt == t && final(self)@ == s,
                Err(e) => r matches Err(x) && x@ == e,
            },
            r is Ok ==> final(self)@.reg == old(self)@.reg + expr_regs(expr@),
            r is Ok ==> final(self)@.strings.len() == old(self)@.strings.len() + expr_strs(expr@),
            final(self)@.env == old(self)@.env,
            final(self)@.label == old(self)@.label,
            final(self)@.terminated == old(self)@.terminated,
            final(self)@.funcs == old(self)@.funcs,
            final(self).env@.len() == old(self).env@.len(),
        decreases expr, 0int,
    {
        match expr {
            Expr::Binary(left, op, right) => {
                let (lv, lt) = match self.try_gen_expr(left) {
                    Ok(x) => x,
                    Err(e) => return Err(e),
                };
                let (rv, rt) = match self.try_gen_expr(right) {
                    Ok(x) => x,
                    Err(e) => return Err(e),
                };
                if lt != rt {
                    return Err(CgError::MixedTypes);
                }
                if lt == Type::Str {
                    if op.same(&Token::Plus) {
                        let res = self.next_reg();
                        let line = concat_text(&res, &lv, &rv);
                        self.emit(line.as_str());
                        return Ok((res, Type::Str));
                    } else {
                        return Err(CgError::StringOperator);
                    }
                }
                let res = self.next_reg();
                let line = arith_text(&res, op, &lv, &rv);
                self.emit(line.as_str());
                Ok((res, Type::Int))
            },
            _ => Err(CgError::MixedTypes),
        }
    }

    fn gen_call(&mut self, expr: &Expr) -> (r: Result<(String, Type), CgError>)
        requires
            expr_wf(expr@),
            old(self)@.reg + expr_regs(expr@) <= usize::MAX,
            old(self)@.strings.len() + expr_strs(expr@) <= usize::MAX,
            expr@ is Call,
        ensures
            match spec_gen_expr(old(self)@, expr@) {
                Ok((s, v, t)) => r matches Ok((rv, rt)) && rv@ == v && rt == t && final(self)@ == s,
                Err(e) => r matches Err(x) && x@ == e,
            },
            r is Ok ==> final(self)@.reg == old(self)@.reg + expr_regs(expr@),
            r is Ok ==> final(self)@.strings.len() == old(self)@.strings.len() + expr_strs(expr@),
            final(self)@.env == old(self)@.env,
            final(self)@.label == old(self)@.label,
            final(self)@.terminated == old(self)@.terminated,
            final(self)@.funcs == old(self)@.funcs,
            final(self).env@.len() == old(self).env@.len(),
        decreases expr, 0int,
    {
        match expr {
            Expr::Call(name, args) => {
                let vals = match self.gen_args(args) {
                    Ok(v) => v,
                    Err(e) => return Err(e),
                };
                let k = match self.lookup_func(name) {
                    Some(k) => k,
                    None => return Err(CgError::UnknownFunction(name.clone())),
                };
                if !types_match(&vals, &self.funcs[k].1) {
                    return Err(CgError::ArgumentMismatch(name.clone()));
                }
                let ret_ty = self.funcs[k].2;
                let res = self.next_reg();
                let line = call_text(&res, ret_ty, name, &vals);
                self.emit(line.as_str());
                Ok((res, ret_ty))
            },
            _ => Err(CgError::MixedTypes),
        }
    }

    /// Generates call arguments from left to right.
    fn gen_args(&mut self, args: &Vec<Expr>) -> (r: Result<Vec<(String, Type)>, CgError>)
        requires
            exprs_wf(exprs_view(args@)),
            old(self)@.reg + exprs_regs(exprs_view(args@)) < usize::MAX,
            old(self)@.strings.len() + exprs_strs(exprs_view(args@)) <= usize::MAX,
        ensures
            match spec_gen_args(old(self)@, exprs_view(args@)) {
                Ok((s, vs)) => r matches Ok(x) && vals_view(x@) == vs && final(self)@ == s,
                Err(e) => r matches Err(x) && x@ == e,
            },
            r is Ok ==> final(self)@.reg == old(self)@.reg + exprs_regs(exprs_view(args@)),
            r is Ok ==> final(self)@.strings.len() == old(self)@.strings.len() + exprs_strs(exprs_view(args@)),
            final(self)@.env == old(self)@.env,
            final(self)@.label == old(self)@.label,
            final(self)@.terminated == old(self)@.terminated,
            final(self)@.funcs == old(self)@.funcs,
            final(self).env@.len() == old(self).env@.len(),
        decreases args, 2int,
    {
        let ghost s0 = self@;
        let ghost av = exprs_view(args@);
        proof {
            lemma_exprs_view(args@);
            assert(av.take(0) =~= Seq::<ExprV>::empty());
        }
        let mut vals: Vec<(String, Type)> = Vec::new();
        assert(vals_view(vals@) =~= Seq::<(Seq<char>, Type)>::empty());
        let mut i: usize = 0;
        while i < args.len()
            invariant
                0 <= i <= args@.len(),
                av == exprs_view(args@),
                av.len() == args@.len(),
                forall|k: int| 0 <= k < args@.len() ==> #[trigger] av[k] == expr_view(args@[k]),
                exprs_wf(av),
                s0.reg + exprs_regs(av) < usize::MAX,
                s0.strings.len() + exprs_strs(av) <= usize::MAX,
                spec_gen_args(s0, av.take(i as int)) == Ok::<(CgState, Seq<(Seq<char>, Type)>), CgErrorV>((self@, vals_view(vals@))),
                self@.reg == s0.reg + exprs_regs(av.take(i as int)),
                self@.strings.len() == s0.strings.len() + exprs_strs(av.take(i as int)),
                s0 == old(self)@,
                self@.env == s0.env,
                self@.label == s0.label,
                self@.terminated == s0.terminated,
                self@.funcs == s0.funcs,
                self.env@.len() == old(self).env@.len(),
            decreases args@.len() - i,
        {
            proof {
                lemma_exprs_prefix(av, i as int);
            }
            let (v, t) = match self.try_gen_expr(&args[i]) {
                Ok(x) => x,
                Err(e) => {
                    proof {
                        lemma_gen_args_prefix(s0, av, i + 1);
                    }
                    return Err(e);
                },
            };
            let ghost prev = vals@;
            vals.push((v, t));
            assert(vals_view(vals@) =~= vals_view(prev).push((v@, t)));
            i = i + 1;
        }
        proof {
            lemma_take_all(av);
        }
        Ok(vals)
    }

    /// Generates a statement, checking its types.  Nothing is generated after
    /// the block has returned.
    /// Returns the error that rejects the input instead of aborting.
    pub fn try_gen_stmt(&mut self, stmt: &Stmt) -> (r: Result<(), CgError>)
        requires
            !old(self)@.terminated ==> {
                &&& stmt_wf(stmt@)
                &&& old(self).env@.len() > 0
                &&& old(self)@.reg + stmt_regs(stmt@) <= usize::MAX
                &&& old(self)@.label + stmt_labels(stmt@) <= usize::MAX
                &&& old(self)@.strings.len() + stmt_strs(stmt@) <= usize::MAX
            },
        ensures
            match spec_gen_stmt(old(self)@, stmt@) {
                Ok(s) => r is Ok && final(self)@ == s,
                Err(e) => r matches Err(x) && x@ == e,
            },
            r is Ok ==> final(self).env@.len() == old(self).env@.len(),
            r is Ok ==> final(self)@.reg <= old(self)@.reg + stmt_regs(stmt@),
            r is Ok ==> final(self)@.label <= old(self)@.label + stmt_labels(stmt@),
            r is Ok ==> final(self)@.strings.len() <= old(self)@.strings.len() + stmt_strs(stmt@),
        decreases stmt, 2int,
    {
        if self.terminated {
            return Ok(());
        }
        match stmt {
            Stmt::Let(..) => self.gen_let(stmt),
            Stmt::Assign(name, expr) => {
                let (val, e_ty) = match self.try_gen_expr(expr) {
                    Ok(x) => x,
                    Err(e) => return Err(e),
                };
                match self.lookup_var(name) {
                    Some((slot, ty)) => {
                        if ty != e_ty {
                            return Err(CgError::AssignTypeMismatch { name: name.clone(), actual: e_ty });
                        }
                        let line = store_text(ty, &val, &slot);
                        self.emit(line.as_str());
                        Ok(())
                    },
                    None => Err(CgError::AssignUndefined(name.clone())),
                }
            },
            Stmt::If(..) => self.gen_if(stmt),
            Stmt::Return(expr) => {
                let declared = self.ret_type;
                let (val, ty) = match self.try_gen_expr(expr) {
                    Ok(x) => x,
                    Err(e) => return Err(e),
                };
                if ty != declared {
                    return Err(CgError::ReturnTypeMismatch { declared, actual: ty });
                }
                let line = ret_text(ty, &val);
                self.emit(line.as_str());
                self.terminated = true;
                Ok(())
            },
            Stmt::Expr(expr) => match self.try_gen_expr(expr) {
                Ok(_) => Ok(()),
                Err(e) => Err(e),
            },
        }
    }

    fn gen_let(&mut self, stmt: &Stmt) -> (r: Result<(), CgError>)
        requires
            stmt_wf(stmt@),
            stmt@ is Let,
            !old(self).terminated,
            old(self).env@.len() > 0,
            old(self)@.reg + stmt_regs(stmt@) <= usize::MAX,
            old(self)@.strings.len() + stmt_strs(stmt@) <= usize::MAX,
        ensures
            match spec_gen_stmt(old(self)@, stmt@) {
                Ok(s) => r is Ok && final(self)@ == s,
                Err(e) => r matches Err(x) && x@ == e,
            },
            r is Ok ==> final(self).env@.len() == old(self).env@.len(),
            r is Ok ==> final(self)@.reg <= old(self)@.reg + stmt_regs(stmt@),
            r is Ok ==> final(self)@.label == old(self)@.label,
            r is Ok ==> final(self)@.strings.len() <= old(self)@.strings.len() + stmt_strs(stmt@),
        decreases stmt, 1int,
    {
        match stmt {
            Stmt::Let(name, ty, expr) => {
                let (val, e_ty) = match self.try_gen_expr(expr) {
                    Ok(x) => x,
                    Err(e) => return Err(e),
                };
                if *ty != e_ty {
                    return Err(CgError::LetTypeMismatch { name: name.clone(), declared: *ty, actual: e_ty });
                }
                let slot = self.next_reg();
                let line = alloca_store_text(&slot, *ty, &val);
                self.emit(line.as_str());
                let ghost s2 = self@;
                let ghost old_env = self.env@;
                let mut scope = match self.env.pop() {
                    Some(sc) => sc,
                    None => return Ok(()),
                };
                let ghost old_scope = scope@;
                scope.push((name.clone(), slot, *ty));
                self.env.push(scope);
                proof {
                    assert(self.env@ =~= old_env.drop_last().push(scope));
                    assert(scope_view(scope@) =~= scope_view(old_scope).push((name@, slot@, *ty)));
                    assert(env_view(self.env@) =~= env_bind(s2.env, (name@, slot@, *ty)));
                    assert(self@ =~= (CgState { env: env_bind(s2.env, (name@, slot@, *ty)), ..s2 }));
                }
                Ok(())
            },
            _ => Ok(()),
        }
    }

    #[verifier::rlimit(40)]
    fn gen_if(&mut self, stmt: &Stmt) -> (r: Result<(), CgError>)
        requires
            stmt_wf(stmt@),
            stmt@ is If,
            !old(self).terminated,
            old(self).env@.len() > 0,
            old(self)@.reg + stmt_regs(stmt@) <= usize::MAX,
            old(self)@.label + stmt_labels(stmt@) <= usize::MAX,
            old(self)@.strings.len() + stmt_strs(stmt@) <= usize::MAX,
        ensures
            match spec_gen_stmt(old(self)@, stmt@) {
                Ok(s) => r is Ok && final(self)@ == s,
                Err(e) => r matches Err(x) && x@ == e,
            },
            r is Ok ==> final(self).env@.len() == old(self).env@.len(),
            r is Ok ==> final(self)@.reg <= old(self)@.reg + stmt_regs(stmt@),
            r is Ok ==> final(self)@.label <= old(self)@.label + stmt_labels(stmt@),
            r is Ok ==> final(self)@.strings.len() <= old(self)@.strings.len() + stmt_strs(stmt@),
        decreases stmt, 1int,
    {
        match stmt {
            Stmt::If(cond, then_b, else_b) => {
                let (c_val, c_ty) = match self.try_gen_expr(cond) {
                    Ok(x) => x,
                    Err(e) => return Err(e),
                };
                if c_ty != Type::Int {
                    return Err(CgError::ConditionNotInt);
                }
                let ghost s1 = self@;
                let cond_bool = self.next_reg();
                let line = icmp_text(&cond_bool, &c_val);
                self.emit(line.as_str());
                let label_then = self.next_label();
                let label_else = self.next_label();
                let label_merge = self.next_label();
                let line = cond_br_text(&cond_bool, &label_then, &label_else);
                self.emit(line.as_str());
                let line = label_text(&label_then);
                self.emit(line.as_str());
                let ghost env1 = self.env@;
                let fresh: Vec<Binding> = Vec::new();
                let ghost fresh_v = fresh;
                self.env.push(fresh);
                self.terminated = false;
                let ghost s2 = self@;
                proof {
                    assert(env_view(self.env@) =~= s1.env.push(Seq::empty())) by {
                        assert(self.env@ =~= env1.push(fresh_v));
                        assert(scope_view(fresh_v@) =~= Seq::<BindingV>::empty());
                    }
                    assert(s2 =~= if_entry(s1, c_val@));
                }
                if let Err(e) = self.gen_block(then_b) {
                    return Err(e);
                }
                let ghost s3 = self@;
                let ghost env3 = self.env@;
                let _ = self.env.pop();
                assert(env_view(self.env@) =~= s3.env.drop_last()) by {
                    assert(self.env@ =~= env3.drop_last());
                }
                let then_term = self.terminated;
                if !then_term {
                    let line = br_text(&label_merge);
                    self.emit(line.as_str());
                }
                self.terminated = false;
                let line = label_text(&label_else);
                self.emit(line.as_str());
                let ghost s4 = self@;
                assert(s4 =~= if_between(s1, s3));
                match else_b {
                    Some(eb) => {
                        let ghost env4 = self.env@;
                        let fresh2: Vec<Binding> = Vec::new();
                        let ghost fresh2_v = fresh2;
                        self.env.push(fresh2);
                        assert(env_view(self.env@) =~= open_scope(s4).env) by {
                            assert(self.env@ =~= env4.push(fresh2_v));
                            assert(scope_view(fresh2_v@) =~= Seq::<BindingV>::empty());
                        }
                        if let Err(e) = self.gen_block(eb) {
                            return Err(e);
                        }
                        let ghost env5 = self.env@;
                        let ghost s5 = self@;
                        let _ = self.env.pop();
                        assert(env_view(self.env@) =~= s5.env.drop_last()) by {
                            assert(self.env@ =~= env5.drop_last());
                        }
                        assert(self@ =~= close_scope(s5));
                    },
                    None => {},
                }
                let ghost s5 = self@;
                let else_term = self.terminated;
                if !else_term {
                    let line = br_text(&label_merge);
                    self.emit(line.as_str());
                }
                if !then_term || !else_term {
                    let line = label_text(&label_merge);
                    self.emit(line.as_str());
                }
                self.terminated = then_term && else_term;
                assert(self@ =~= if_exit(s1, then_term, s5));
                Ok(())
            },
            _ => Ok(()),
        }
    }

    /// Generates the statements of a block in order.
    fn gen_block(&mut self, stmts: &Vec<Stmt>) -> (r: Result<(), CgError>)
        requires
            stmts_wf(stmts_view(stmts@)),
            old(self).env@.len() > 0,
            old(self)@.reg + stmts_regs(stmts_view(stmts@)) <= usize::MAX,
            old(self)@.label + stmts_labels(stmts_view(stmts@)) <= usize::MAX,
            old(self)@.strings.len() + stmts_strs(stmts_view(stmts@)) <= usize::MAX,
        ensures
            match spec_gen_block(old(self)@, stmts_view(stmts@)) {
                Ok(s) => r is Ok && final(self)@ == s,
                Err(e) => r matches Err(x) && x@ == e,
            },
            r is Ok ==> final(self).env@.len() == old(self).env@.len(),
            r is Ok ==> final(self)@.reg <= old(self)@.reg + stmts_regs(stmts_view(stmts@)),
            r is Ok ==> final(self)@.label <= old(self)@.label + stmts_labels(stmts_view(stmts@)),
            r is Ok ==> final(self)@.strings.len() <= old(self)@.strings.len() + stmts_strs(stmts_view(stmts@)),
        decreases stmts, 0int,
    {
        let ghost s0 = self@;
        let ghost bv = stmts_view(stmts@);
        proof {
            lemma_stmts_view(stmts@);
            assert(bv.take(0) =~= Seq::<StmtV>::empty());
        }
        let mut i: usize = 0;
        while i < stmts.len()
            invariant
                0 <= i <= stmts@.len(),
                bv == stmts_view(stmts@),
                bv.len() == stmts@.len(),
                forall|k: int| 0 <= k < stmts@.len() ==> #[trigger] bv[k] == stmt_view(stmts@[k]),
                stmts_wf(bv),
                s0.reg + stmts_regs(bv) <= usize::MAX,
                s0.label + stmts_labels(bv) <= usize::MAX,
                s0.strings.len() + stmts_strs(bv) <= usize::MAX,
                spec_gen_block(s0, bv.take(i as int)) == Ok::<CgState, CgErrorV>(self@),
                self.env@.len() == old(self).env@.len(),
                self@.reg <= s0.reg + stmts_regs(bv.take(i as int)),
                self@.label <= s0.label + stmts_labels(bv.take(i as int)),
                self@.strings.len() <= s0.strings.len() + stmts_strs(bv.take(i as int)),
                s0 == old(self)@,
                old(self).env@.len() > 0,
            decreases stmts@.len() - i,
        {
            proof {
                lemma_stmts_prefix(bv, i as int);
            }
            if let Err(e) = self.try_gen_stmt(&stmts[i]) {
                proof {
                    lemma_gen_block_prefix(s0, bv, i + 1);
                }
                return Err(e);
            }
            i = i + 1;
        }
        proof {
            lemma_take_all(bv);
        }
        Ok(())
    }

    /// Copies a parameter into a fresh stack slot and binds it in the innermost scope.
    fn bind_param(&mut self, name: &String, ty: Type)
        requires
            old(self).env@.len() > 0,
            old(self).reg < usize::MAX,
        ensures
            final(self)@ == ({
                let slot = reg_name(old(self)@.reg);
                let s2 = emit(take_reg(old(self)@), alloca_store_lines(slot, ty, "%arg_"@ + name@));
                CgState { env: env_bind(s2.env, (name@, slot, ty)), ..s2 }
            }),
            final(self).env@.len() == old(self).env@.len(),
    {
        let slot = self.next_reg();
        let mut arg = String::new();
        arg.push_str("%arg_");
        arg.push_str(name.as_str());
        let line = alloca_store_text(&slot, ty, &arg);
        self.emit(line.as_str());
        let ghost s2 = self@;
        let ghost old_env = self.env@;
        let mut scope = match self.env.pop() {
            Some(sc) => sc,
            None => return,
        };
        let ghost old_scope = scope@;
        scope.push((name.clone(), slot, ty));
        self.env.push(scope);
        proof {
            assert(self.env@ =~= old_env.drop_last().push(scope));
            assert(scope_view(scope@) =~= scope_view(old_scope).push((name@, slot@, ty)));
            assert(env_view(self.env@) =~= env_bind(s2.env, (name@, slot@, ty)));
            assert(self@ =~= (CgState { env: env_bind(s2.env, (name@, slot@, ty)), ..s2 }));
        }
    }

    /// Generates one function.
    fn gen_function(&mut self, f: &Function) -> (r: Result<(), CgError>)
        requires
            function_fits(f@),
            old(self)@.strings.len() + stmts_strs(f@.body) <= usize::MAX,
        ensures
            match spec_gen_function(old(self)@, f@) {
                Ok(s) => r is Ok && final(self)@ == s,
                Err(e) => r matches Err(x) && x@ == e,
            },
            r is Ok ==> final(self)@.strings.len() <= old(self)@.strings.len() + stmts_strs(f@.body),
    {
        let ghost s = self@;
        self.reg = 1;
        self.label = 1;
        self.terminated = false;
        self.ret_type = f.ret_type;
        let mut env: Vec<Vec<Binding>> = Vec::new();
        let fresh: Vec<Binding> = Vec::new();
        let ghost fresh_v = fresh;
        env.push(fresh);
        self.env = env;
        let ghost s0 = CgState { reg: 1, label: 1, terminated: false, env: seq![Seq::empty()], ret: f@.ret_type, ..s };
        assert(self@ =~= s0) by {
            assert(scope_view(fresh_v@) =~= Seq::<BindingV>::empty());
            assert(env_view(self.env@) =~= seq![Seq::<BindingV>::empty()]);
        }
        let header = header_text_of(f);
        self.emit(header.as_str());
        let ghost sh = self@;
        assert(env_view(self.env@).len() == self.env@.len());
        let ghost pv = params_view(f.args@);
        assert(pv.take(0) =~= Seq::<(Seq<char>, Type)>::empty());
        let mut i: usize = 0;
        while i < f.args.len()
            invariant
                i <= f.args@.len(),
                pv == params_view(f.args@),
                pv.len() == f.args@.len(),
                function_fits(f@),
                f@.args == pv,
                self@ == spec_bind_params(sh, pv.take(i as int)),
                self.env@.len() == 1,
                self@.reg == 1 + i,
                self@.label == 1,
                !self@.terminated,
                self@.strings == s.strings,
                self@.funcs == s.funcs,
                s.strings.len() + stmts_strs(f@.body) <= usize::MAX,
                sh == emit(s0, header_text(f@)),
                s0 == (CgState { reg: 1, label: 1, terminated: false, env: seq![Seq::empty()], ret: f@.ret_type, ..s }),
                s == old(self)@,
            decreases f.args@.len() - i,
        {
            assert(pv.take(i + 1).drop_last() =~= pv.take(i as int));
            assert(pv.take(i + 1).last() == pv[i as int]);
            self.bind_param(&f.args[i].0, f.args[i].1);
            i = i + 1;
        }
        proof {
            lemma_take_all(pv);
        }
        if let Err(e) = self.gen_block(&f.body) {
            return Err(e);
        }
        let ghost s2 = self@;
        if !self.terminated {
            match f.ret_type {
                Type::Int => self.emit("  ret i64 0\n"),
                Type::Str => self.emit("  ret ptr null\n"),
            }
        }
        self.emit("}\n\n");
        assert(self@ =~= emit(s2, (if s2.terminated { Seq::empty() } else { default_ret(f@.ret_type) }) + "}\n\n"@));
        Ok(())
    }

    /// Compiles a program to LLVM IR: the string constants, the runtime
    /// declarations and the functions.
    /// Returns the error that rejects the input instead of aborting.
    pub fn try_compile(&mut self, prog: Vec<Function>) -> (r: Result<String, CgError>)
        requires
            forall|i: int| 0 <= i < prog@.len() ==> function_fits(#[trigger] prog@[i]@),
            old(self)@.strings.len() + program_strs(program_view(prog@)) <= usize::MAX,
        ensures
            match spec_compile(old(self)@, program_view(prog@)) {
                Ok((s, out)) => r matches Ok(x) && x@ == out && final(self)@ == s,
                Err(e) => r matches Err(x) && x@ == e,
            },
    {
        let ghost s = self@;
        let ghost pv = program_view(prog@);
        assert(pv.take(0) =~= Seq::<FunctionV>::empty());
        let mut i: usize = 0;
        while i < prog.len()
            invariant
                i <= prog@.len(),
                pv == program_view(prog@),
                self@ == (CgState { funcs: s.funcs + signatures(pv.take(i as int)), ..s }),
                s == old(self)@,
            decreases prog@.len() - i,
        {
            let ghost before = self@.funcs;
            let pt = params_types(&prog[i].args);
            self.funcs.push((prog[i].name.clone(), pt, prog[i].ret_type));
            assert(self@.funcs =~= before.push((prog@[i as int].name@, param_types(params_view(prog@[i as int].args@)), prog@[i as int].ret_type)));
            assert(pv[i as int] == prog@[i as int]@);
            assert(signatures(pv.take(i + 1)) =~= signatures(pv.take(i as int)).push((pv[i as int].name, param_types(pv[i as int].args), pv[i as int].ret_type)));
            assert(self@ =~= (CgState { funcs: s.funcs + signatures(pv.take(i + 1)), ..s }));
            i = i + 1;
        }
        proof {
            lemma_take_all(pv);
        }
        let ghost s1 = self@;
        assert(pv.take(0) =~= Seq::<FunctionV>::empty());
        let mut k: usize = 0;
        while k < prog.len()
            invariant
                k <= prog@.len(),
                pv == program_view(prog@),
                pv.len() == prog@.len(),
                forall|j: int| 0 <= j < prog@.len() ==> function_fits(#[trigger] prog@[j]@),
                spec_gen_functions(s1, pv.take(k as int)) == Ok::<CgState, CgErrorV>(self@),
                self@.strings.len() <= s1.strings.len() + program_strs(pv.take(k as int)),
                s1.strings.len() + program_strs(pv) <= usize::MAX,
                s1 == (CgState { funcs: s.funcs + signatures(pv), ..s }),
                s == old(self)@,
            decreases prog@.len() - k,
        {
            proof {
                lemma_program_strs_prefix(pv, k as int);
                assert(pv[k as int] == prog@[k as int]@);
            }
            if let Err(e) = self.gen_function(&prog[k]) {
                proof {
                    lemma_gen_functions_prefix(s1, pv, k + 1);
                }
                return Err(e);
            }
            k = k + 1;
        }
        proof {
            lemma_take_all(pv);
        }
        let ghost sv = self@.strings;
        let mut out = String::new();
        let mut j: usize = 0;
        assert(sv.take(0) =~= Seq::<(Seq<char>, nat)>::empty());
        while j < self.strings.len()
            invariant
                j <= self.strings@.len(),
                sv == self@.strings,
                sv.len() == self.strings@.len(),
                out@ == globals_text(sv.take(j as int)),
            decreases self.strings@.len() - j,
        {
            let decl = string_decl_text(&self.strings[j].0, self.strings[j].1);
            out.push_str(decl.as_str());
            assert(sv.take(j + 1).drop_last() =~= sv.take(j as int));
            assert(sv.take(j + 1).last() == sv[j as int]);
            j = j + 1;
        }
        proof {
            lemma_take_all(sv);
        }
        out.push_str("\ndeclare ptr @concat(ptr, ptr)\n");
        out.push_str("declare i64 @print(ptr)\n\n");
        out.push_str("declare ptr @to_str(i64)\n\n");
        out.push_str(self.ir.as_str());
        assert(out@ =~= globals_text(sv) + runtime_decls() + self@.ir);
        Ok(out)
    }
}

impl CodeGen {
    /// Generates an expression that type-checks (the generator aborts on one
    /// that does not; `try_gen_expr` reports why): its value and its type.
    pub fn gen_expr(&mut self, expr: &Expr) -> (r: (String, Type))
        requires
            expr_wf(expr@),
            old(self)@.reg + expr_regs(expr@) <= usize::MAX,
            old(self)@.strings.len() + expr_strs(expr@) <= usize::MAX,
            spec_gen_expr(old(self)@, expr@) is Ok,
        ensures
            ({
                let (s, v, t) = spec_gen_expr(old(self)@, expr@)->Ok_0;
                r.0@ == v && r.1 == t && final(self)@ == s
            }),
            final(self)@.reg == old(self)@.reg + expr_regs(expr@),
            final(self)@.strings.len() == old(self)@.strings.len() + expr_strs(expr@),
            final(self).env@.len() == old(self).env@.len(),
    {
        self.try_gen_expr(expr).unwrap()
    }

    /// Generates a statement that type-checks (the generator aborts on one
    /// that does not; `try_gen_stmt` reports why).  Nothing is generated after
    /// the block has returned.
    pub fn gen_stmt(&mut self, stmt: &Stmt)
        requires
            !old(self)@.terminated ==> {
                &&& stmt_wf(stmt@)
                &&& old(self).env@.len() > 0
                &&& old(self)@.reg + stmt_regs(stmt@) <= usize::MAX
                &&& old(self)@.label + stmt_labels(stmt@) <= usize::MAX
                &&& old(self)@.strings.len() + stmt_strs(stmt@) <= usize::MAX
            },
            spec_gen_stmt(old(self)@, stmt@) is Ok,
        ensures
            final(self)@ == spec_gen_stmt(old(self)@, stmt@)->Ok_0,
            final(self).env@.len() == old(self).env@.len(),
    {
        self.try_gen_stmt(stmt).unwrap()
    }

    /// Compiles a program that type-checks (the generator aborts on one that
    /// does not; `try_compile` reports why) to LLVM IR: the string constants,
    /// the runtime declarations and the functions.
    pub fn compile(&mut self, prog: Vec<Function>) -> (r: String)
        requires
            forall|i: int| 0 <= i < prog@.len() ==> function_fits(#[trigger] prog@[i]@),
            old(self)@.strings.len() + program_strs(program_view(prog@)) <= usize::MAX,
            spec_compile(old(self)@, program_view(prog@)) is Ok,
        ensures
            ({
                let (s, out) = spec_compile(old(self)@, program_view(prog@))->Ok_0;
                r@ == out && final(self)@ == s
            }),
    {
        self.try_compile(prog).unwrap()
    }
}

// ---------------------------------------------------------------------------
// Instruction texts
// ---------------------------------------------------------------------------

/// `  res = call ptr @concat(ptr l, ptr r)`
fn concat_text(res: &String, l: &String, r: &String) -> (t: String)
    ensures
        t@ == concat_line(res@, l@, r@),
{
    let mut t = String::new();
    t.push_str("  ");
    t.push_str(res.as_str());
    t.push_str(" = call ptr @concat(ptr ");
    t.push_str(l.as_str());
    t.push_str(", ptr ");
    t.push_str(r.as_str());
    t.push_str(")\n");
    assert(t@ =~= concat_line(res@, l@, r@));
    t
}

/// `  res = instr i64 l, r`
fn arith_text(res: &String, op: &Token, l: &String, r: &String) -> (t: String)
    requires
        is_arith_op(op@),
    ensures
        t@ == arith_line(res@, op@, l@, r@),
{
    let instr = match op {
        Token::Plus => "add",
        Token::Minus => "sub",
        Token::Star => "mul",
        _ => "sdiv",
    };
    let mut t = String::new();
    t.push_str("  ");
    t.push_str(res.as_str());
    t.push_str(" = ");
    t.push_str(instr);
    t.push_str(" i64 ");
    t.push_str(l.as_str());
    t.push_str(", ");
    t.push_str(r.as_str());
    t.push_str("\n");
    assert(t@ =~= arith_line(res@, op@, l@, r@));
    t
}

/// `  res = load ty, ptr slot`
fn load_text(res: &String, ty: Type, slot: &String) -> (t: String)
    ensures
        t@ == load_line(res@, ty, slot@),
{
    let mut t = String::new();
    t.push_str("  ");
    t.push_str(res.as_str());
    t.push_str(" = load ");
    t.push_str(CodeGen::llvm_type(&ty));
    t.push_str(", ptr ");
    t.push_str(slot.as_str());
    t.push_str("\n");
    assert(t@ =~= load_line(res@, ty, slot@));
    t
}

/// `ty val, ty val, ...`
fn args_list_text(vals: &Vec<(String, Type)>) -> (t: String)
    ensures
        t@ == args_text(vals_view(vals@)),
{
    let ghost vv = vals_view(vals@);
    let mut t = String::new();
    let mut j: usize = 0;
    assert(vv.take(0) =~= Seq::<(Seq<char>, Type)>::empty());
    while j < vals.len()
        invariant
            j <= vals@.len(),
            vv == vals_view(vals@),
            vv.len() == vals@.len(),
            t@ == args_text(vv.take(j as int)),
        decreases vals@.len() - j,
    {
        if j > 0 {
            t.push_str(", ");
        }
        t.push_str(CodeGen::llvm_type(&vals[j].1));
        t.push_str(" ");
        t.push_str(vals[j].0.as_str());
        assert(vv.take(j + 1).drop_last() =~= vv.take(j as int));
        assert(vv.take(j + 1).last() == vv[j as int]);
        assert(t@ =~= args_text(vv.take(j + 1)));
        j = j + 1;
    }
    proof {
        lemma_take_all(vv);
    }
    t
}

/// `  res = call ty @name(args)`
fn call_text(res: &String, ty: Type, name: &String, vals: &Vec<(String, Type)>) -> (t: String)
    ensures
        t@ == call_line(res@, ty, name@, vals_view(vals@)),
{
    let args = args_list_text(vals);
    let mut t = String::new();
    t.push_str("  ");
    t.push_str(res.as_str());
    t.push_str(" = call ");
    t.push_str(CodeGen::llvm_type(&ty));
    t.push_str(" @");
    t.push_str(name.as_str());
    t.push_str("(");
    t.push_str(args.as_str());
    t.push_str(")\n");
    assert(t@ =~= call_line(res@, ty, name@, vals_view(vals@)));
    t
}


/// `  slot = alloca ty` and `  store ty val, ptr slot`
fn alloca_store_text(slot: &String, ty: Type, val: &String) -> (t: String)
    ensures
        t@ == alloca_store_lines(slot@, ty, val@),
{
    let lty = CodeGen::llvm_type(&ty);
    let mut t = String::new();
    t.push_str("  ");
    t.push_str(slot.as_str());
    t.push_str(" = alloca ");
    t.push_str(lty);
    t.push_str("\n");
    t.push_str("  store ");
    t.push_str(lty);
    t.push_str(" ");
    t.push_str(val.as_str());
    t.push_str(", ptr ");
    t.push_str(slot.as_str());
    t.push_str("\n");
    assert(t@ =~= alloca_store_lines(slot@, ty, val@));
    t
}

/// `  store ty val, ptr slot`
fn store_text(ty: Type, val: &String, slot: &String) -> (t: String)
    ensures
        t@ == store_line(ty, val@, slot@),
{
    let mut t = String::new();
    t.push_str("  store ");
    t.push_str(CodeGen::llvm_type(&ty));
    t.push_str(" ");
    t.push_str(val.as_str());
    t.push_str(", ptr ");
    t.push_str(slot.as_str());
    t.push_str("\n");
    assert(t@ =~= store_line(ty, val@, slot@));
    t
}

/// `  b = icmp ne i64 c, 0`
fn icmp_text(b: &String, c: &String) -> (t: String)
    ensures
        t@ == icmp_line(b@, c@),
{
    let mut t = String::new();
    t.push_str("  ");
    t.push_str(b.as_str());
    t.push_str(" = icmp ne i64 ");
    t.push_str(c.as_str());
    t.push_str(", 0\n");
    assert(t@ =~= icmp_line(b@, c@));
    t
}

/// `  br i1 b, label %then, label %else`
fn cond_br_text(b: &String, lt: &String, le: &String) -> (t: String)
    ensures
        t@ == cond_br_line(b@, lt@, le@),
{
    let mut t = String::new();
    t.push_str("  br i1 ");
    t.push_str(b.as_str());
    t.push_str(", label %");
    t.push_str(lt.as_str());
    t.push_str(", label %");
    t.push_str(le.as_str());
    t.push_str("\n");
    assert(t@ =~= cond_br_line(b@, lt@, le@));
    t
}

/// `  br label %l`
fn br_text(l: &String) -> (t: String)
    ensures
        t@ == br_line(l@),
{
    let mut t = String::new();
    t.push_str("  br label %");
    t.push_str(l.as_str());
    t.push_str("\n");
    assert(t@ =~= br_line(l@));
    t
}

/// `l:`
fn label_text(l: &String) -> (t: String)
    ensures
        t@ == label_line(l@),
{
    let mut t = String::new();
    t.push_str(l.as_str());
    t.push_str(":\n");
    assert(t@ =~= label_line(l@));
    t
}

/// `  ret ty val`
fn ret_text(ty: Type, val: &String) -> (t: String)
    ensures
        t@ == ret_line(ty, val@),
{
    let mut t = String::new();
    t.push_str("  ret ");
    t.push_str(CodeGen::llvm_type(&ty));
    t.push_str(" ");
    t.push_str(val.as_str());
    t.push_str("\n");
    assert(t@ =~= ret_line(ty, val@));
    t
}


/// `define ty @name(ty %arg_a, ...) {` and `entry:`
fn header_text_of(f: &Function) -> (t: String)
    ensures
        t@ == header_text(f@),
{
    let ghost pv = params_view(f.args@);
    let mut params = String::new();
    let mut i: usize = 0;
    assert(pv.take(0) =~= Seq::<(Seq<char>, Type)>::empty());
    while i < f.args.len()
        invariant
            i <= f.args@.len(),
            pv == params_view(f.args@),
            pv.len() == f.args@.len(),
            params@ == params_text(pv.take(i as int)),
        decreases f.args@.len() - i,
    {
        if i > 0 {
            params.push_str(", ");
        }
        params.push_str(CodeGen::llvm_type(&f.args[i].1));
        params.push_str(" %arg_");
        params.push_str(f.args[i].0.as_str());
        assert(pv.take(i + 1).drop_last() =~= pv.take(i as int));
        assert(pv.take(i + 1).last() == pv[i as int]);
        assert(params@ =~= params_text(pv.take(i + 1)));
        i = i + 1;
    }
    proof {
        lemma_take_all(pv);
    }
    let mut t = String::new();
    t.push_str("define ");
    t.push_str(CodeGen::llvm_type(&f.ret_type));
    t.push_str(" @");
    t.push_str(f.name.as_str());
    t.push_str("(");
    t.push_str(params.as_str());
    t.push_str(") {\nentry:\n");
    assert(t@ =~= header_text(f@));
    t
}

/// The global constant of string `id`.
fn string_decl_text(text: &String, id: usize) -> (t: String)
    ensures
        t@ == string_decl(text@, id as nat),
{
    let bytes = text.as_str().as_bytes();
    let ghost b = bytes@;
    assert(b == encode_utf8(text@));
    let mut hex = String::new();
    let mut k: usize = 0;
    assert(b.take(0) =~= Seq::<u8>::empty());
    while k < bytes.len()
        invariant
            k <= b.len(),
            b == bytes@,
            hex@ == hex_text(b.take(k as int)),
        decreases b.len() - k,
    {
        push_hex_escape(&mut hex, bytes[k]);
        assert(b.take(k + 1).drop_last() =~= b.take(k as int));
        k = k + 1;
    }
    proof {
        lemma_take_all(b);
    }
    push_hex_escape(&mut hex, 0u8);
    assert(b.push(0u8).drop_last() =~= b);
    assert(hex@ =~= hex_text(b.push(0u8)));
    let mut t = String::new();
    t.push_str("@.str.");
    push_decimal(&mut t, id as u128);
    t.push_str(" = private unnamed_addr constant [");
    push_decimal(&mut t, bytes.len() as u128 + 1);
    t.push_str(" x i8] c\"");
    t.push_str(hex.as_str());
    t.push_str("\"\n");
    assert(t@ =~= string_decl(text@, id as nat));
    t
}

} // verus!
