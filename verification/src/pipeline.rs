//! The two tools end to end: `tp0` source to LLVM IR, and LLVM IR to ARM64
//! assembly, with the resource checks that keep every counter in range.
use vstd::prelude::*;
use vstd::string::StrSliceExecFns;

use crate::arm64::{spec_generate, try_generate_arm64_assembly, AsmError};
use crate::ast::{
    exprs_view, lemma_exprs_view, lemma_stmts_view, program_view, stmts_view, stmts_wf, Expr, ExprV,
    Function, FunctionV, Stmt, StmtV, Type,
};
use crate::codegen::{
    builtin_funcs, expr_regs, expr_strs, exprs_regs, exprs_strs, function_fits, lemma_exprs_prefix,
    lemma_program_strs_prefix, lemma_stmts_prefix, lemma_take_all, program_strs, spec_compile,
    stmt_labels, stmt_regs, stmt_strs, stmts_labels, stmts_regs, stmts_strs, CgError, CgErrorV,
    CgState, CodeGen,
};
use crate::llvm_ir::{spec_parse_llvm_ir, try_parse_llvm_ir, IrError};
use crate::parser::{parse_source, spec_parse_source, ParseError, ParseErrorV};

verus! {

/// `a + b`, unless it exceeds `usize::MAX`.
fn sum(a: usize, b: usize) -> (r: Option<usize>)
    ensures
        match r {
            Some(x) => x == a + b,
            None => a + b > usize::MAX,
        },
{
    if a <= usize::MAX - b {
        Some(a + b)
    } else {
        None
    }
}

/// The registers and string constants an expression takes, or `None` when a
/// count exceeds `usize::MAX`.
pub fn expr_resources(e: &Expr) -> (r: Option<(usize, usize)>)
    ensures
        match r {
            Some((a, b)) => a == expr_regs(e@) && b == expr_strs(e@),
            None => expr_regs(e@) > usize::MAX || expr_strs(e@) > usize::MAX,
        },
    decreases e, 1int,
{
    match e {
        Expr::Number(_) => Some((0, 0)),
        Expr::StringLit(_) => Some((0, 1)),
        Expr::Ident(_) => Some((1, 0)),
        Expr::Binary(l, _, r) => {
            let (a1, b1) = match expr_resources(l) {
                Some(x) => x,
                None => return None,
            };
            let (a2, b2) = match expr_resources(r) {
                Some(x) => x,
                None => return None,
            };
            let a = match sum(a1, a2) {
                Some(x) => x,
                None => return None,
            };
            let a = match sum(a, 1) {
                Some(x) => x,
                None => return None,
            };
            let b = match sum(b1, b2) {
                Some(x) => x,
                None => return None,
            };
            Some((a, b))
        },
        Expr::Call(_, args) => {
            let (a, b) = match exprs_resources(args) {
                Some(x) => x,
                None => return None,
            };
            let a = match sum(a, 1) {
                Some(x) => x,
                None => return None,
            };
            Some((a, b))
        },
    }
}

/// The registers and string constants a sequence of expressions takes, or
/// `None` when a count exceeds `usize::MAX`.
pub fn exprs_resources(args: &Vec<Expr>) -> (r: Option<(usize, usize)>)
    ensures
        match r {
            Some((a, b)) => a == exprs_regs(exprs_view(args@)) && b == exprs_strs(exprs_view(args@)),
            None => exprs_regs(exprs_view(args@)) > usize::MAX || exprs_strs(exprs_view(args@)) > usize::MAX,
        },
    decreases args, 2int,
{
    let ghost av = exprs_view(args@);
    proof {
        lemma_exprs_view(args@);
        assert(av.take(0) =~= Seq::<ExprV>::empty());
    }
    let mut a: usize = 0;
    let mut b: usize = 0;
    let mut i: usize = 0;
    while i < args.len()
        invariant
            i <= args@.len(),
            av == exprs_view(args@),
            av.len() == args@.len(),
            forall|k: int| 0 <= k < args@.len() ==> #[trigger] av[k] == args@[k]@,
            a == exprs_regs(av.take(i as int)),
            b == exprs_strs(av.take(i as int)),
        decreases args@.len() - i,
    {
        proof {
            lemma_exprs_prefix(av, i as int);
        }
        let (a1, b1) = match expr_resources(&args[i]) {
            Some(x) => x,
            None => return None,
        };
        a = match sum(a, a1) {
            Some(x) => x,
            None => return None,
        };
        b = match sum(b, b1) {
            Some(x) => x,
            None => return None,
        };
        i = i + 1;
    }
    proof {
        lemma_take_all(av);
    }
    Some((a, b))
}

/// Adds two triples of counts, unless one exceeds `usize::MAX`.
fn sum3(x: (usize, usize, usize), y: (usize, usize, usize)) -> (r: Option<(usize, usize, usize)>)
    ensures
        match r {
            Some(z) => z.0 == x.0 + y.0 && z.1 == x.1 + y.1 && z.2 == x.2 + y.2,
            None => x.0 + y.0 > usize::MAX || x.1 + y.1 > usize::MAX || x.2 + y.2 > usize::MAX,
        },
{
    let a = match sum(x.0, y.0) {
        Some(v) => v,
        None => return None,
    };
    let l = match sum(x.1, y.1) {
        Some(v) => v,
        None => return None,
    };
    let b = match sum(x.2, y.2) {
        Some(v) => v,
        None => return None,
    };
    Some((a, l, b))
}

/// The registers, labels and string constants a statement takes at most, or
/// `None` when a count exceeds `usize::MAX`.
pub fn stmt_resources(s: &Stmt) -> (r: Option<(usize, usize, usize)>)
    ensures
        match r {
            Some((a, l, b)) => a == stmt_regs(s@) && l == stmt_labels(s@) && b == stmt_strs(s@),
            None => stmt_regs(s@) > usize::MAX || stmt_labels(s@) > usize::MAX || stmt_strs(s@) > usize::MAX,
        },
    decreases s, 1int,
{
    match s {
        Stmt::Let(_, _, e) => {
            let (a, b) = match expr_resources(e) {
                Some(x) => x,
                None => return None,
            };
            let a = match sum(a, 1) {
                Some(x) => x,
                None => return None,
            };
            Some((a, 0, b))
        },
        Stmt::Assign(_, e) => match expr_resources(e) {
            Some((a, b)) => Some((a, 0, b)),
            None => None,
        },
        Stmt::Return(e) => match expr_resources(e) {
            Some((a, b)) => Some((a, 0, b)),
            None => None,
        },
        Stmt::Expr(e) => match expr_resources(e) {
            Some((a, b)) => Some((a, 0, b)),
            None => None,
        },
        Stmt::If(c, t, eb) => {
            let (ca, cb) = match expr_resources(c) {
                Some(x) => x,
                None => return None,
            };
            let tr = match stmts_resources(t) {
                Some(x) => x,
                None => return None,
            };
            let er = match eb {
                Some(b) => match stmts_resources(b) {
                    Some(x) => x,
                    None => return None,
                },
                None => (0, 0, 0),
            };
            let head = match sum(ca, 1) {
                Some(x) => x,
                None => return None,
            };
            let r1 = match sum3((head, 3, cb), tr) {
                Some(x) => x,
                None => return None,
            };
            sum3(r1, er)
        },
    }
}

/// The registers, labels and string constants a block takes at most, or
/// `None` when a count exceeds `usize::MAX`.
pub fn stmts_resources(b: &Vec<Stmt>) -> (r: Option<(usize, usize, usize)>)
    ensures
        match r {
            Some((a, l, s)) => a == stmts_regs(stmts_view(b@)) && l == stmts_labels(stmts_view(b@))
                && s == stmts_strs(stmts_view(b@)),
            None => stmts_regs(stmts_view(b@)) > usize::MAX || stmts_labels(stmts_view(b@)) > usize::MAX
                || stmts_strs(stmts_view(b@)) > usize::MAX,
        },
    decreases b, 2int,
{
    let ghost bv = stmts_view(b@);
    proof {
        lemma_stmts_view(b@);
        assert(bv.take(0) =~= Seq::<StmtV>::empty());
    }
    let mut acc: (usize, usize, usize) = (0, 0, 0);
    let mut i: usize = 0;
    while i < b.len()
        invariant
            i <= b@.len(),
            bv == stmts_view(b@),
            bv.len() == b@.len(),
            forall|k: int| 0 <= k < b@.len() ==> #[trigger] bv[k] == b@[k]@,
            acc.0 == stmts_regs(bv.take(i as int)),
            acc.1 == stmts_labels(bv.take(i as int)),
            acc.2 == stmts_strs(bv.take(i as int)),
        decreases b@.len() - i,
    {
        proof {
            lemma_stmts_prefix(bv, i as int);
        }
        let x = match stmt_resources(&b[i]) {
            Some(x) => x,
            None => return None,
        };
        acc = match sum3(acc, x) {
            Some(y) => y,
            None => return None,
        };
        i = i + 1;
    }
    proof {
        lemma_take_all(bv);
    }
    Some(acc)
}

/// The counters of every function, and the string constants of the whole
/// program, fit in `usize`: the condition under which `CodeGen::compile`
/// may run on a fresh generator.
pub open spec fn program_fits(prog: Seq<FunctionV>) -> bool {
    &&& forall|i: int| 0 <= i < prog.len() ==> function_fits(#[trigger] prog[i])
    &&& program_strs(prog) <= usize::MAX
}

/// Tests `program_fits` on a parsed program.
pub fn check_program_fits(prog: &Vec<Function>) -> (r: bool)
    requires
        forall|i: int| 0 <= i < prog@.len() ==> stmts_wf(#[trigger] prog@[i]@.body),
    ensures
        r == program_fits(program_view(prog@)),
{
    let ghost pv = program_view(prog@);
    assert(pv.take(0) =~= Seq::<FunctionV>::empty());
    let mut strs: usize = 0;
    let mut i: usize = 0;
    while i < prog.len()
        invariant
            i <= prog@.len(),
            pv == program_view(prog@),
            pv.len() == prog@.len(),
            forall|k: int| 0 <= k < prog@.len() ==> stmts_wf(#[trigger] prog@[k]@.body),
            forall|k: int| 0 <= k < i ==> function_fits(#[trigger] pv[k]),
            strs == program_strs(pv.take(i as int)),
        decreases prog@.len() - i,
    {
        proof {
            lemma_program_strs_prefix(pv, i as int);
        }
        assert(pv[i as int] == prog@[i as int]@);
        let (regs, labels, s) = match stmts_resources(&prog[i].body) {
            Some(x) => x,
            None => {
                assert(!function_fits(pv[i as int]) || program_strs(pv) > usize::MAX);
                return false;
            },
        };
        let nargs = prog[i].args.len();
        let fits = regs < usize::MAX && nargs <= usize::MAX - 1 - regs && labels < usize::MAX;
        if !fits {
            assert(!function_fits(pv[i as int]));
            return false;
        }
        strs = match sum(strs, s) {
            Some(x) => x,
            None => return false,
        };
        i = i + 1;
    }
    proof {
        lemma_take_all(pv);
    }
    true
}

/// The state of a fresh code generator.
pub open spec fn fresh_state() -> CgState {
    CgState {
        ir: Seq::empty(),
        reg: 1,
        label: 1,
        env: seq![Seq::empty()],
        strings: Seq::empty(),
        funcs: builtin_funcs(),
        terminated: false,
        ret: Type::Int,
    }
}

/// Why compiling a `tp0` source text fails.
#[derive(Debug)]
pub enum CompileError {
    /// The text does not parse.
    Parse(ParseError),
    /// The program does not type-check.
    Codegen(CgError),
    /// The text, or the registers, labels or string constants the program
    /// needs, are more than `usize` counts.
    TooLarge,
}

/// The mathematical value of a compile error.
pub enum CompileErrorV {
    Parse(ParseErrorV),
    Codegen(CgErrorV),
    TooLarge,
}

impl View for CompileError {
    type V = CompileErrorV;

    open spec fn view(&self) -> CompileErrorV {
        match self {
            CompileError::Parse(e) => CompileErrorV::Parse(e@),
            CompileError::Codegen(e) => CompileErrorV::Codegen(e@),
            CompileError::TooLarge => CompileErrorV::TooLarge,
        }
    }
}

/// What compiling a source text gives: the LLVM IR of the program, or why not.
pub open spec fn spec_compile_source(c: Seq<char>) -> Result<Seq<char>, CompileErrorV> {
    if c.len() >= usize::MAX {
        Err(CompileErrorV::TooLarge)
    } else {
        match spec_parse_source(c) {
            Err(e) => Err(CompileErrorV::Parse(e)),
            Ok(prog) => if !program_fits(prog) {
                Err(CompileErrorV::TooLarge)
            } else {
                match spec_compile(fresh_state(), prog) {
                    Ok((_, out)) => Ok(out),
                    Err(e) => Err(CompileErrorV::Codegen(e)),
                }
            },
        }
    }
}

/// Compiles a `tp0` source text to LLVM IR: parse, check the counters, and
/// generate with a fresh generator.
pub fn compile_source(input: &str) -> (r: Result<String, CompileError>)
    ensures
        match spec_compile_source(input@) {
            Ok(out) => r matches Ok(x) && x@ == out,
            Err(e) => r matches Err(x) && x@ == e,
        },
{
    if input.unicode_len() == usize::MAX {
        return Err(CompileError::TooLarge);
    }
    let prog = match parse_source(input) {
        Ok(p) => p,
        Err(e) => return Err(CompileError::Parse(e)),
    };
    if !check_program_fits(&prog) {
        return Err(CompileError::TooLarge);
    }
    assert forall|i: int| 0 <= i < prog@.len() implies function_fits(#[trigger] prog@[i]@) by {
        assert(program_view(prog@)[i] == prog@[i]@);
    }
    let mut g = CodeGen::new();
    assert(g@ == fresh_state());
    match g.try_compile(prog) {
        Ok(out) => Ok(out),
        Err(e) => Err(CompileError::Codegen(e)),
    }
}

/// Why translating LLVM IR to assembly fails.
#[derive(Debug, Clone, Copy, PartialEq, Eq)]
pub enum TranslateError {
    /// A line of the IR is malformed.
    Ir(IrError),
    /// The function uses a value that has no register, or too many registers.
    Asm(AsmError),
}

/// What translating an IR text gives: the assembly, or why not.
pub open spec fn spec_translate(c: Seq<char>) -> Result<Seq<char>, TranslateError> {
    match spec_parse_llvm_ir(c) {
        Err(e) => Err(TranslateError::Ir(e)),
        Ok(f) => match spec_generate(f) {
            Ok(t) => Ok(t),
            Err(e) => Err(TranslateError::Asm(e)),
        },
    }
}

/// Translates the IR text of a function to ARM64 assembly.
pub fn translate_ir(code: &str) -> (r: Result<String, TranslateError>)
    ensures
        match spec_translate(code@) {
            Ok(t) => r matches Ok(x) && x@ == t,
            Err(e) => r == Err::<String, TranslateError>(e),
        },
{
    let f = match try_parse_llvm_ir(code) {
        Ok(f) => f,
        Err(e) => return Err(TranslateError::Ir(e)),
    };
    match try_generate_arm64_assembly(&f) {
        Ok(t) => Ok(t),
        Err(e) => Err(TranslateError::Asm(e)),
    }
}

} // verus!
