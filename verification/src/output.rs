//! Properties of the code the generator emits: nothing follows a `return`,
//! every register and label name is new, every function ends with a `ret`,
//! and the string constants are numbered in order.
use vstd::prelude::*;

use crate::ast::{ExprV, FunctionV, StmtV, Type};
use crate::codegen::{
    args_text, label_line, params_text, spec_llvm_type, close_scope, default_ret, emit, if_between, if_entry, if_exit, label_name, open_scope, reg_name,
    ret_line, signatures, spec_bind_params, spec_compile, spec_gen_args, spec_gen_block, spec_gen_expr,
    spec_gen_function, spec_gen_functions, spec_gen_if_blocks, spec_gen_stmt, string_global, CgState,
};
use crate::text::lemma_prefixed_decimal_injective;
use crate::text::int_to_decimal;
use crate::typing::{extends, lemma_gen_args_typing, lemma_gen_expr_typing};

verus! {

/// Law: once the block has returned, a statement generates nothing and
/// changes nothing.
pub proof fn lemma_stmt_after_return(s: CgState, st: StmtV)
    requires
        s.terminated,
    ensures
        spec_gen_stmt(s, st) == Ok::<CgState, crate::codegen::CgErrorV>(s),
{
}

/// Law: once a block has returned, the rest of it generates nothing.
pub proof fn lemma_nothing_after_return(s: CgState, b: Seq<StmtV>)
    requires
        s.terminated,
    ensures
        spec_gen_block(s, b) == Ok::<CgState, crate::codegen::CgErrorV>(s),
    decreases b.len(),
{
    if b.len() > 0 {
        lemma_nothing_after_return(s, b.drop_last());
        assert(spec_gen_stmt(s, b.last()) == Ok::<CgState, crate::codegen::CgErrorV>(s));
    }
}
/// Law: different numbers give different register names, label names and
/// string constant names.  Since the generator only ever raises its counters
/// (`expr_frame`, `stmt_frame`), every register and label it defines is new.
pub proof fn lemma_names_distinct(a: nat, b: nat)
    ensures
        reg_name(a) == reg_name(b) ==> a == b,
        label_name(a) == label_name(b) ==> a == b,
        string_global(a) == string_global(b) ==> a == b,
{
    lemma_prefixed_decimal_injective("%t"@, a, b);
    lemma_prefixed_decimal_injective("L"@, a, b);
    lemma_prefixed_decimal_injective("@.str."@, a, b);
}
/// The text ends with a `ret` instruction.
pub open spec fn ends_with_ret(ir: Seq<char>) -> bool {
    exists|p: Seq<char>, t: Type, v: Seq<char>| #![trigger p.add(ret_line(t, v))] ir == p.add(ret_line(t, v))
}

/// Law: once a statement has made its block return, the last instruction
/// emitted is a `ret`.
pub proof fn lemma_gen_stmt_ret(s: CgState, st: StmtV)
    requires
        s.terminated ==> ends_with_ret(s.ir),
    ensures
        spec_gen_stmt(s, st) matches Ok(s2) ==> (s2.terminated ==> ends_with_ret(s2.ir)),
    decreases st, 1nat,
{
    if s.terminated {
        return;
    }
    match st {
        StmtV::Let(_, _, e) => {
            lemma_gen_expr_typing(s, e);
        },
        StmtV::Assign(_, e) => {
            lemma_gen_expr_typing(s, e);
        },
        StmtV::Expr(e) => {
            lemma_gen_expr_typing(s, e);
        },
        StmtV::Return(e) => {
            if let Ok((s1, v, t)) = spec_gen_expr(s, e) {
                if let Ok(s2) = spec_gen_stmt(s, st) {
                    assert(s2.ir == s1.ir.add(ret_line(t, v)));
                }
            }
        },
        StmtV::If(cond, _, _) => {
            if let Ok((s1, cv, ct)) = spec_gen_expr(s, cond) {
                if ct == Type::Int {
                    lemma_gen_if_ret(s, st, s1, cv);
                }
            }
        },
    }
}

/// The `if` case of `lemma_gen_stmt_ret`, once its condition has generated
/// `s1` with the value `cv`.
proof fn lemma_gen_if_ret(s: CgState, st: StmtV, s1: CgState, cv: Seq<char>)
    requires
        st is If,
    ensures
        (st matches StmtV::If(_, then_b, else_b) ==> (spec_gen_if_blocks(s1, cv, then_b, else_b) matches Ok(s6)
            ==> (s6.terminated ==> ends_with_ret(s6.ir)))),
    decreases st, 0nat,
{
    if let StmtV::If(_, then_b, else_b) = st {
        if let Ok(s3) = spec_gen_block(if_entry(s1, cv), then_b) {
            if let Some(eb) = else_b {
                let s4 = open_scope(if_between(s1, s3));
                lemma_gen_block_ret(s4, eb);
                if let Ok(s5) = spec_gen_block(s4, eb) {
                    let s6 = if_exit(s1, s3.terminated, close_scope(s5));
                    if s6.terminated {
                        assert(s6.ir =~= s5.ir);
                    }
                }
            }
        }
    }
}

/// Law: once a block has returned, the last instruction emitted is a `ret`.
pub proof fn lemma_gen_block_ret(s: CgState, b: Seq<StmtV>)
    requires
        s.terminated ==> ends_with_ret(s.ir),
    ensures
        spec_gen_block(s, b) matches Ok(s2) ==> (s2.terminated ==> ends_with_ret(s2.ir)),
    decreases b, 0nat,
{
    if b.len() > 0 {
        lemma_gen_block_ret(s, b.drop_last());
        if let Ok(s1) = spec_gen_block(s, b.drop_last()) {
            lemma_gen_stmt_ret(s1, b.last());
        }
    }
}

/// Binding the parameters does not make the body return.
proof fn lemma_bind_params_keeps(s: CgState, params: Seq<(Seq<char>, Type)>)
    ensures
        spec_bind_params(s, params).terminated == s.terminated,
    decreases params.len(),
{
    if params.len() > 0 {
        lemma_bind_params_keeps(s, params.drop_last());
    }
}

/// Law: the code of every generated function ends with a `ret` instruction
/// followed by the closing brace, so no path falls off its end.
pub proof fn lemma_gen_function_ends_with_ret(s: CgState, f: FunctionV)
    ensures
        spec_gen_function(s, f) matches Ok(s2) ==> {
            &&& s2.ir.len() >= 3
            &&& s2.ir == s2.ir.take(s2.ir.len() - 3) + "}\n\n"@
            &&& ends_with_ret(s2.ir.take(s2.ir.len() - 3))
        },
{
    let s0 = CgState { reg: 1, label: 1, terminated: false, env: seq![Seq::empty()], ret: f.ret_type, ..s };
    let s1 = spec_bind_params(emit(s0, crate::codegen::header_text(f)), f.args);
    lemma_bind_params_keeps(emit(s0, crate::codegen::header_text(f)), f.args);
    lemma_gen_block_ret(s1, f.body);
    if let Ok(s2) = spec_gen_block(s1, f.body) {
        let tail = if s2.terminated { Seq::empty() } else { default_ret(f.ret_type) };
        let out = s2.ir + tail + "}\n\n"@;
        reveal_strlit("}\n\n");
        assert(spec_gen_function(s, f)->Ok_0.ir =~= out);
        assert(out.take(out.len() - 3) =~= s2.ir + tail);
        assert(out =~= out.take(out.len() - 3) + "}\n\n"@);
        if s2.terminated {
            assert(s2.ir + tail =~= s2.ir);
            assert(ends_with_ret(out.take(out.len() - 3)));
        } else {
            reveal_strlit("  ret ");
            reveal_strlit("i64");
            reveal_strlit("ptr");
            reveal_strlit(" ");
            reveal_strlit("\n");
            reveal_strlit("0");
            reveal_strlit("null");
            reveal_strlit("  ret i64 0\n");
            reveal_strlit("  ret ptr null\n");
            let v = if f.ret_type == Type::Int { "0"@ } else { "null"@ };
            assert(default_ret(f.ret_type) =~= ret_line(f.ret_type, v));
            assert(s2.ir + tail == s2.ir.add(ret_line(f.ret_type, v)));
        }
    }
}
/// String constant `i` (from 0) has the number `i + 1`, so no two share a
/// global name.
pub open spec fn strings_numbered(strings: Seq<(Seq<char>, nat)>) -> bool {
    forall|i: int| 0 <= i < strings.len() ==> #[trigger] strings[i].1 == i + 1
}

/// Generating an expression keeps the string constants numbered in order.
proof fn lemma_gen_expr_numbered(s: CgState, e: ExprV)
    requires
        strings_numbered(s.strings),
    ensures
        spec_gen_expr(s, e) matches Ok((s2, _, _)) ==> strings_numbered(s2.strings),
    decreases e,
{
    match e {
        ExprV::Binary(l, _, r) => {
            lemma_gen_expr_numbered(s, *l);
            if let Ok((s1, _, _)) = spec_gen_expr(s, *l) {
                lemma_gen_expr_numbered(s1, *r);
            }
        },
        ExprV::Call(_, args) => {
            lemma_gen_args_numbered(s, args);
        },
        _ => {},
    }
}

/// Generating call arguments keeps the string constants numbered in order.
proof fn lemma_gen_args_numbered(s: CgState, args: Seq<ExprV>)
    requires
        strings_numbered(s.strings),
    ensures
        spec_gen_args(s, args) matches Ok((s2, _)) ==> strings_numbered(s2.strings),
    decreases args,
{
    if args.len() > 0 {
        lemma_gen_args_numbered(s, args.drop_last());
        if let Ok((s1, _)) = spec_gen_args(s, args.drop_last()) {
            lemma_gen_expr_numbered(s1, args.last());
        }
    }
}

/// Generating a statement keeps the string constants numbered in order.
proof fn lemma_gen_stmt_numbered(s: CgState, st: StmtV)
    requires
        strings_numbered(s.strings),
    ensures
        spec_gen_stmt(s, st) matches Ok(s2) ==> strings_numbered(s2.strings),
    decreases st, 1nat,
{
    if !s.terminated {
        match st {
            StmtV::Let(_, _, e) => lemma_gen_expr_numbered(s, e),
            StmtV::Assign(_, e) => lemma_gen_expr_numbered(s, e),
            StmtV::Return(e) => lemma_gen_expr_numbered(s, e),
            StmtV::Expr(e) => lemma_gen_expr_numbered(s, e),
            StmtV::If(cond, then_b, else_b) => {
                lemma_gen_expr_numbered(s, cond);
                if let Ok((s1, cv, _)) = spec_gen_expr(s, cond) {
                    lemma_gen_if_numbered(st, s1, cv);
                }
            },
        }
    }
}

/// The `if` case of `lemma_gen_stmt_numbered`.
proof fn lemma_gen_if_numbered(st: StmtV, s1: CgState, cv: Seq<char>)
    requires
        strings_numbered(s1.strings),
        st is If,
    ensures
        (st matches StmtV::If(_, then_b, else_b) ==> (spec_gen_if_blocks(s1, cv, then_b, else_b) matches Ok(s6)
            ==> strings_numbered(s6.strings))),
    decreases st, 0nat,
{
    if let StmtV::If(_, then_b, else_b) = st {
        lemma_gen_block_numbered(if_entry(s1, cv), then_b);
        if let Ok(s3) = spec_gen_block(if_entry(s1, cv), then_b) {
            if let Some(eb) = else_b {
                lemma_gen_block_numbered(open_scope(if_between(s1, s3)), eb);
            }
        }
    }
}

/// Generating a block keeps the string constants numbered in order.
proof fn lemma_gen_block_numbered(s: CgState, b: Seq<StmtV>)
    requires
        strings_numbered(s.strings),
    ensures
        spec_gen_block(s, b) matches Ok(s2) ==> strings_numbered(s2.strings),
    decreases b, 0nat,
{
    if b.len() > 0 {
        lemma_gen_block_numbered(s, b.drop_last());
        if let Ok(s1) = spec_gen_block(s, b.drop_last()) {
            lemma_gen_stmt_numbered(s1, b.last());
        }
    }
}

/// Binding parameters creates no string constants.
proof fn lemma_bind_params_strings(s: CgState, params: Seq<(Seq<char>, Type)>)
    ensures
        spec_bind_params(s, params).strings == s.strings,
    decreases params.len(),
{
    if params.len() > 0 {
        lemma_bind_params_strings(s, params.drop_last());
    }
}

/// Generating functions keeps the string constants numbered in order.
proof fn lemma_gen_functions_numbered(s: CgState, prog: Seq<FunctionV>)
    requires
        strings_numbered(s.strings),
    ensures
        spec_gen_functions(s, prog) matches Ok(s2) ==> strings_numbered(s2.strings),
    decreases prog.len(),
{
    if prog.len() > 0 {
        lemma_gen_functions_numbered(s, prog.drop_last());
        if let Ok(s1) = spec_gen_functions(s, prog.drop_last()) {
            let f = prog.last();
            let s0 = CgState { reg: 1, label: 1, terminated: false, env: seq![Seq::empty()], ret: f.ret_type, ..s1 };
            let e0 = emit(s0, crate::codegen::header_text(f));
            lemma_bind_params_strings(e0, f.args);
            lemma_gen_block_numbered(spec_bind_params(e0, f.args), f.body);
        }
    }
}

/// Law: a compiled program's string constants are numbered 1, 2, 3, ... in the
/// order the program mentions them, so every `@.str.N` it declares is declared
/// once.
pub proof fn lemma_compile_strings_numbered(s: CgState, prog: Seq<FunctionV>)
    requires
        strings_numbered(s.strings),
    ensures
        spec_compile(s, prog) matches Ok((s2, _)) ==> strings_numbered(s2.strings),
{
    lemma_gen_functions_numbered(CgState { funcs: s.funcs + signatures(prog), ..s }, prog);
}
/// A statement returns on every path: a `return`, or an `if` with an `else`
/// whose two blocks both return on every path.
pub open spec fn stmt_returns(st: StmtV) -> bool
    decreases st,
{
    match st {
        StmtV::Return(_) => true,
        StmtV::If(_, t, Some(e)) => block_returns(t) && block_returns(e),
        _ => false,
    }
}

/// A block returns on every path: one of its statements does.
pub open spec fn block_returns(b: Seq<StmtV>) -> bool
    decreases b,
{
    if b.len() == 0 {
        false
    } else {
        block_returns(b.drop_last()) || stmt_returns(b.last())
    }
}

/// Law: the returned flag after a statement says whether the block had
/// returned before it or the statement returns on every path.
pub proof fn lemma_gen_stmt_returns(s: CgState, st: StmtV)
    ensures
        spec_gen_stmt(s, st) matches Ok(s2) ==> s2.terminated == (s.terminated || stmt_returns(st)),
    decreases st, 1nat,
{
    if !s.terminated {
        match st {
            StmtV::Let(_, _, e) => lemma_gen_expr_typing(s, e),
            StmtV::Assign(_, e) => lemma_gen_expr_typing(s, e),
            StmtV::Expr(e) => lemma_gen_expr_typing(s, e),
            StmtV::Return(_) => {},
            StmtV::If(cond, _, _) => {
                if let Ok((s1, cv, _)) = spec_gen_expr(s, cond) {
                    lemma_gen_if_returns(st, s1, cv);
                }
            },
        }
    }
}

/// The `if` case of `lemma_gen_stmt_returns`.
proof fn lemma_gen_if_returns(st: StmtV, s1: CgState, cv: Seq<char>)
    requires
        st is If,
    ensures
        (st matches StmtV::If(_, then_b, else_b) ==> (spec_gen_if_blocks(s1, cv, then_b, else_b) matches Ok(s6)
            ==> s6.terminated == stmt_returns(st))),
    decreases st, 0nat,
{
    if let StmtV::If(_, then_b, else_b) = st {
        lemma_gen_block_returns(if_entry(s1, cv), then_b);
        if let Ok(s3) = spec_gen_block(if_entry(s1, cv), then_b) {
            if let Some(eb) = else_b {
                lemma_gen_block_returns(open_scope(if_between(s1, s3)), eb);
            }
        }
    }
}

/// Law: the returned flag after a block says whether it had returned before
/// the block or the block returns on every path.
pub proof fn lemma_gen_block_returns(s: CgState, b: Seq<StmtV>)
    ensures
        spec_gen_block(s, b) matches Ok(s2) ==> s2.terminated == (s.terminated || block_returns(b)),
    decreases b, 0nat,
{
    if b.len() > 0 {
        lemma_gen_block_returns(s, b.drop_last());
        if let Ok(s1) = spec_gen_block(s, b.drop_last()) {
            lemma_gen_stmt_returns(s1, b.last());
        }
    }
}

/// The string constants added after `s` are numbered on from those of `s`.
pub open spec fn new_strings_numbered(s: CgState, s2: CgState) -> bool {
    forall|j: int| s.strings.len() <= j < s2.strings.len() ==> #[trigger] s2.strings[j].1 == j + 1
}

/// The value of an expression generated from `s` to `s2`: a decimal
/// constant, a string constant that the expression created, or a register
/// that it took.
pub open spec fn expr_value_fresh(s: CgState, s2: CgState, v: Seq<char>) -> bool {
    ||| exists|n: int| v == #[trigger] int_to_decimal(n)
    ||| exists|k: nat| s.strings.len() < k <= s2.strings.len() && v == #[trigger] string_global(k)
    ||| exists|k: nat| s.reg <= k < s2.reg && v == #[trigger] reg_name(k)
}

/// Numbering on from `s` to `s1` and from `s1` to `s2` is numbering on from
/// `s` to `s2`.
proof fn lemma_numbered_trans(s: CgState, s1: CgState, s2: CgState)
    requires
        s.strings.len() <= s1.strings.len(),
        extends(s1.strings, s2.strings),
        new_strings_numbered(s, s1),
        new_strings_numbered(s1, s2),
    ensures
        new_strings_numbered(s, s2),
{
    assert forall|j: int| s.strings.len() <= j < s2.strings.len() implies #[trigger] s2.strings[j].1 == j + 1 by {
        if j < s1.strings.len() {
            assert(s2.strings.take(s1.strings.len() as int)[j] == s2.strings[j]);
        }
    }
}

/// Law: an expression numbers the string constants it creates on from the
/// ones before it, and its value is a decimal constant, one of those string
/// constants, or a register it took.
pub proof fn lemma_gen_expr_value(s: CgState, e: ExprV)
    ensures
        spec_gen_expr(s, e) matches Ok((s2, v, _)) ==> new_strings_numbered(s, s2) && expr_value_fresh(s, s2, v),
    decreases e, 1nat,
{
    lemma_gen_expr_typing(s, e);
    match e {
        ExprV::Number(n) => {
            assert(int_to_decimal(n as int) == int_to_decimal(n as int));
        },
        ExprV::StringLit(_) => {
            assert(string_global(s.strings.len() + 1) == string_global(s.strings.len() + 1));
        },
        ExprV::Ident(_) => {
            assert(reg_name(s.reg) == reg_name(s.reg));
        },
        ExprV::Binary(l, _, r) => {
            lemma_gen_expr_value(s, *l);
            if let Ok((s1, _, _)) = spec_gen_expr(s, *l) {
                lemma_gen_expr_typing(s, *l);
                lemma_gen_expr_value(s1, *r);
                lemma_gen_expr_typing(s1, *r);
                if let Ok((s2, _, _)) = spec_gen_expr(s1, *r) {
                    lemma_numbered_trans(s, s1, s2);
                    assert(reg_name(s2.reg) == reg_name(s2.reg));
                }
            }
        },
        ExprV::Call(_, args) => {
            lemma_gen_args_value(s, args);
            lemma_gen_args_typing(s, args);
            if let Ok((s1, _)) = spec_gen_args(s, args) {
                assert(reg_name(s1.reg) == reg_name(s1.reg));
            }
        },
    }
}

/// The arguments of a call number the string constants they create on from
/// the ones before them.
proof fn lemma_gen_args_value(s: CgState, args: Seq<ExprV>)
    ensures
        spec_gen_args(s, args) matches Ok((s2, _)) ==> new_strings_numbered(s, s2),
    decreases args, 2nat,
{
    if args.len() > 0 {
        lemma_gen_args_value(s, args.drop_last());
        lemma_gen_args_typing(s, args.drop_last());
        if let Ok((s1, _)) = spec_gen_args(s, args.drop_last()) {
            lemma_gen_expr_value(s1, args.last());
            lemma_gen_expr_typing(s1, args.last());
            if let Ok((s2, _, _)) = spec_gen_expr(s1, args.last()) {
                lemma_numbered_trans(s, s1, s2);
            }
        }
    }
}
/// `b` is a suffix of `a`.
pub open spec fn ends_with(a: Seq<char>, b: Seq<char>) -> bool {
    b.len() <= a.len() && a.skip(a.len() - b.len()) == b
}

/// Law: an `if` that does not return on every path ends with the line of its
/// merge label `L(n+2)` (`n` the first label it takes), the label its
/// branches jump to when they fall through; and it falls through exactly
/// when it does not return on every path.
pub proof fn lemma_if_merge_label(s: CgState, c: ExprV, t: Seq<StmtV>, e: Option<Seq<StmtV>>)
    requires
        !s.terminated,
    ensures
        spec_gen_stmt(s, StmtV::If(c, t, e)) matches Ok(s2) ==> {
            &&& spec_gen_expr(s, c) is Ok
            &&& s2.terminated == stmt_returns(StmtV::If(c, t, e))
            &&& !s2.terminated ==> ends_with(
                s2.ir,
                label_line(label_name(spec_gen_expr(s, c)->Ok_0.0.label + 2)),
            )
        },
{
    let st = StmtV::If(c, t, e);
    lemma_gen_stmt_returns(s, st);
    if let Ok(s2) = spec_gen_stmt(s, st) {
        let s1 = spec_gen_expr(s, c)->Ok_0.0;
        let cv = spec_gen_expr(s, c)->Ok_0.1;
        let lm = label_line(label_name(s1.label + 2));
        if !s2.terminated {
            let s3 = spec_gen_block(if_entry(s1, cv), t)->Ok_0;
            let s5 = match e {
                Some(eb) => close_scope(spec_gen_block(open_scope(if_between(s1, s3)), eb)->Ok_0),
                None => if_between(s1, s3),
            };
            assert(s2 == if_exit(s1, s3.terminated, s5));
            let pre = s5.ir + (if s5.terminated { Seq::<char>::empty() } else { crate::codegen::br_line(label_name(s1.label + 2)) });
            assert(s2.ir =~= pre + lm);
            assert((pre + lm).skip((pre + lm).len() - lm.len()) =~= lm);
        }
    }
}

/// The value an expression generates from state `s`.
pub open spec fn c_value(s: CgState, c: ExprV) -> Seq<char> {
    spec_gen_expr(s, c)->Ok_0.1
}

/// Law: right after the code of an `if`'s first block (`n` the first label
/// the `if` takes) comes a jump to the merge label `L(n+2)` when that block
/// falls through, and then the line of the label `L(n+1)` of the second
/// branch, both kept in the statement's output.
pub proof fn lemma_if_then_exit(s: CgState, c: ExprV, t: Seq<StmtV>, e: Option<Seq<StmtV>>)
    requires
        !s.terminated,
    ensures
        spec_gen_stmt(s, StmtV::If(c, t, e)) matches Ok(s2) ==> {
            let s1 = spec_gen_expr(s, c)->Ok_0.0;
            let s3 = spec_gen_block(if_entry(s1, c_value(s, c)), t)->Ok_0;
            let between = (if s3.terminated { Seq::empty() } else { crate::codegen::br_line(label_name(s1.label + 2)) })
                + label_line(label_name(s1.label + 1));
            &&& s3.ir.len() + between.len() <= s2.ir.len()
            &&& s2.ir.subrange(s3.ir.len() as int, (s3.ir.len() + between.len()) as int) == between
        },
{
    let st = StmtV::If(c, t, e);
    if let Ok(s2) = spec_gen_stmt(s, st) {
        let s1 = spec_gen_expr(s, c)->Ok_0.0;
        let cv = spec_gen_expr(s, c)->Ok_0.1;
        let s3 = spec_gen_block(if_entry(s1, cv), t)->Ok_0;
        let s4 = if_between(s1, s3);
        let between = (if s3.terminated { Seq::empty() } else { crate::codegen::br_line(label_name(s1.label + 2)) })
            + label_line(label_name(s1.label + 1));
        assert(s4.ir =~= s3.ir + between);
        let s5 = match e {
            Some(eb) => close_scope(spec_gen_block(open_scope(s4), eb)->Ok_0),
            None => s4,
        };
        if let Some(eb) = e {
            lemma_block_keeps_prefix(open_scope(s4), eb);
        } else {
            assert(s5.ir.take(s4.ir.len() as int) =~= s4.ir);
        }
        assert(s2 == if_exit(s1, s3.terminated, s5));
        assert(s2.ir.take(s5.ir.len() as int) =~= s5.ir);
        assert(s2.ir.take(s4.ir.len() as int) =~= s4.ir);
        assert(s2.ir.subrange(s3.ir.len() as int, (s3.ir.len() + between.len()) as int)
            =~= s4.ir.subrange(s3.ir.len() as int, s4.ir.len() as int));
    }
}

/// A block keeps the output before it.
proof fn lemma_block_keeps_prefix(s: CgState, b: Seq<StmtV>)
    requires
        s.env.len() > 0,
    ensures
        spec_gen_block(s, b) matches Ok(s2) ==> extends(s.ir, s2.ir),
{
    crate::typing::lemma_gen_block_frame(s, b);
}

/// One call argument as it appears in a call: `ty value`.
pub open spec fn arg_item(v: (Seq<char>, Type)) -> Seq<char> {
    spec_llvm_type(v.1) + " "@ + v.0
}

/// Law: the argument list of a call of one value is that value with its
/// type, and the list of two runs of values is the first list, `, `, and the
/// second: the arguments appear in their order.
pub proof fn lemma_args_text_order(a: Seq<(Seq<char>, Type)>, b: Seq<(Seq<char>, Type)>)
    requires
        a.len() > 0,
        b.len() > 0,
    ensures
        args_text(seq![b[0]]) == arg_item(b[0]),
        args_text(a + b) == args_text(a) + ", "@ + args_text(b),
    decreases b.len(),
{
    assert(seq![b[0]].drop_last() =~= Seq::<(Seq<char>, Type)>::empty());
    assert((a + b).drop_last() =~= a + b.drop_last());
    if b.len() == 1 {
        assert(a + b.drop_last() =~= a);
        assert(args_text(b) == arg_item(b[0]));
    } else {
        lemma_args_text_order(a, b.drop_last());
        assert(args_text(a + b) =~= args_text(a) + ", "@ + (args_text(b.drop_last()) + ", "@ + arg_item(b.last())));
    }
}

/// One parameter as it appears in a function header: `ty %arg_name`.
pub open spec fn param_item(p: (Seq<char>, Type)) -> Seq<char> {
    spec_llvm_type(p.1) + " %arg_"@ + p.0
}

/// Law: the parameter list of a header with one parameter is that parameter,
/// and the list of two runs of parameters is the first list, `, `, and the
/// second: the parameters appear in their order of declaration.
pub proof fn lemma_params_text_order(a: Seq<(Seq<char>, Type)>, b: Seq<(Seq<char>, Type)>)
    requires
        a.len() > 0,
        b.len() > 0,
    ensures
        params_text(seq![b[0]]) == param_item(b[0]),
        params_text(a + b) == params_text(a) + ", "@ + params_text(b),
    decreases b.len(),
{
    assert(seq![b[0]].drop_last() =~= Seq::<(Seq<char>, Type)>::empty());
    assert((a + b).drop_last() =~= a + b.drop_last());
    if b.len() == 1 {
        assert(a + b.drop_last() =~= a);
        assert(params_text(b) == param_item(b[0]));
    } else {
        lemma_params_text_order(a, b.drop_last());
        assert(params_text(a + b) =~= params_text(a) + ", "@ + (params_text(b.drop_last()) + ", "@ + param_item(b.last())));
    }
}
} // verus!
