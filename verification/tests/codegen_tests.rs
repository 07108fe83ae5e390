use lib::ast::{Expr, Stmt, Type};
use lib::codegen::{CgError, CodeGen};
use lib::lexer::Token;
use lib::parser::parse_source;
use lib::pipeline::{check_program_fits, compile_source, CompileError};

const DECLS: &str = "\ndeclare ptr @concat(ptr, ptr)\ndeclare i64 @print(ptr)\n\ndeclare ptr @to_str(i64)\n\n";

fn compile_ok(src: &str) -> String {
    match compile_source(src) {
        Ok(ir) => ir,
        Err(e) => panic!("compile failed: {:?}", e),
    }
}

fn compile_err(src: &str) -> CgError {
    match compile_source(src) {
        Err(CompileError::Codegen(e)) => e,
        other => panic!("expected a code generation error, got {:?}", other),
    }
}

#[test]
fn compiles_let_and_return() {
    let ir = compile_ok("fn main() -> int {\n    let x: int = 1 + 2;\n    return x;\n}\n");
    let want = String::from(DECLS)
        + "define i64 @main() {\nentry:\n"
        + "  %t1 = add i64 1, 2\n"
        + "  %t2 = alloca i64\n"
        + "  store i64 %t1, ptr %t2\n"
        + "  %t3 = load i64, ptr %t2\n"
        + "  ret i64 %t3\n"
        + "}\n\n";
    assert_eq!(ir, want);
}

#[test]
fn compiles_strings_concat_and_print() {
    let ir = compile_ok("fn main() {\n  let s: str = \"hi\";\n  print(s + \"!\");\n}");
    let want = String::from("@.str.1 = private unnamed_addr constant [3 x i8] c\"\\68\\69\\00\"\n")
        + "@.str.2 = private unnamed_addr constant [2 x i8] c\"\\21\\00\"\n"
        + DECLS
        + "define i64 @main() {\nentry:\n"
        + "  %t1 = alloca ptr\n"
        + "  store ptr @.str.1, ptr %t1\n"
        + "  %t2 = load ptr, ptr %t1\n"
        + "  %t3 = call ptr @concat(ptr %t2, ptr @.str.2)\n"
        + "  %t4 = call i64 @print(ptr %t3)\n"
        + "  ret i64 0\n"
        + "}\n\n";
    assert_eq!(ir, want);
}

#[test]
fn compiles_if_else_with_returns_on_both_sides() {
    let ir = compile_ok("fn f(a: int) -> int { if a { return 1; } else { return 2; } }");
    let want = String::from(DECLS)
        + "define i64 @f(i64 %arg_a) {\nentry:\n"
        + "  %t1 = alloca i64\n"
        + "  store i64 %arg_a, ptr %t1\n"
        + "  %t2 = load i64, ptr %t1\n"
        + "  %t3 = icmp ne i64 %t2, 0\n"
        + "  br i1 %t3, label %L1, label %L2\n"
        + "L1:\n"
        + "  ret i64 1\n"
        + "L2:\n"
        + "  ret i64 2\n"
        + "}\n\n";
    assert_eq!(ir, want);
}

#[test]
fn compiles_if_without_else() {
    let ir = compile_ok("fn g() -> int { if 0 { print(\"x\"); } return 5; }");
    let want = String::from("@.str.1 = private unnamed_addr constant [2 x i8] c\"\\78\\00\"\n")
        + DECLS
        + "define i64 @g() {\nentry:\n"
        + "  %t1 = icmp ne i64 0, 0\n"
        + "  br i1 %t1, label %L1, label %L2\n"
        + "L1:\n"
        + "  %t2 = call i64 @print(ptr @.str.1)\n"
        + "  br label %L3\n"
        + "L2:\n"
        + "  br label %L3\n"
        + "L3:\n"
        + "  ret i64 5\n"
        + "}\n\n";
    assert_eq!(ir, want);
}

#[test]
fn then_branch_return_skips_its_branch_to_merge() {
    let ir = compile_ok("fn h(n: int) -> int { if n { return 1; } n = 2; return n; }");
    let want = String::from(DECLS)
        + "define i64 @h(i64 %arg_n) {\nentry:\n"
        + "  %t1 = alloca i64\n"
        + "  store i64 %arg_n, ptr %t1\n"
        + "  %t2 = load i64, ptr %t1\n"
        + "  %t3 = icmp ne i64 %t2, 0\n"
        + "  br i1 %t3, label %L1, label %L2\n"
        + "L1:\n"
        + "  ret i64 1\n"
        + "L2:\n"
        + "  br label %L3\n"
        + "L3:\n"
        + "  store i64 2, ptr %t1\n"
        + "  %t4 = load i64, ptr %t1\n"
        + "  ret i64 %t4\n"
        + "}\n\n";
    assert_eq!(ir, want);
}

#[test]
fn registers_and_labels_restart_per_function() {
    let ir = compile_ok("fn a() -> str { return to_str(7); } fn b() -> str { return a(); }");
    let want = String::from(DECLS)
        + "define ptr @a() {\nentry:\n"
        + "  %t1 = call ptr @to_str(i64 7)\n"
        + "  ret ptr %t1\n"
        + "}\n\n"
        + "define ptr @b() {\nentry:\n"
        + "  %t1 = call ptr @a()\n"
        + "  ret ptr %t1\n"
        + "}\n\n";
    assert_eq!(ir, want);
}

#[test]
fn later_functions_can_be_called_earlier() {
    let ir = compile_ok("fn main() { let v: int = twice(3); } fn twice(x: int) -> int { return x * 2; }");
    assert!(ir.contains("  %t1 = call i64 @twice(i64 3)\n"));
    assert!(ir.contains("define i64 @twice(i64 %arg_x) {\n"));
    assert!(ir.contains("  %t3 = mul i64 %t2, 2\n"));
}

#[test]
fn string_function_without_return_returns_null() {
    let ir = compile_ok("fn s() -> str { }");
    assert!(ir.ends_with("define ptr @s() {\nentry:\n  ret ptr null\n}\n\n"));
}

#[test]
fn arithmetic_instructions() {
    let ir = compile_ok("fn m() { let a: int = 9 - 4 / 2 * 3; }");
    assert!(ir.contains("  %t1 = sdiv i64 4, 2\n"));
    assert!(ir.contains("  %t2 = mul i64 %t1, 3\n"));
    assert!(ir.contains("  %t3 = sub i64 9, %t2\n"));
}

#[test]
fn inner_scopes_shadow_and_end() {
    let ir = compile_ok("fn m() { let x: int = 1; if x { let x: str = \"s\"; print(x); } x = 4; }");
    assert!(ir.contains("  %t5 = load ptr, ptr %t4\n"));
    assert!(ir.contains("  store i64 4, ptr %t1\n"));
}

#[test]
fn nothing_is_generated_after_return() {
    let ir = compile_ok("fn m() -> int { return 1; return 2; let y: int = 3; }");
    assert!(ir.contains("  ret i64 1\n}\n\n"));
    assert!(!ir.contains("ret i64 2"));
    assert!(!ir.contains("alloca"));
}

#[test]
fn undefined_variable() {
    assert!(matches!(compile_err("fn m() { return y; }"), CgError::UndefinedVariable(n) if n == "y"));
}

#[test]
fn mixed_types() {
    assert!(matches!(compile_err("fn m() { let a: int = 1 + \"s\"; }"), CgError::MixedTypes));
}

#[test]
fn string_operator() {
    assert!(matches!(compile_err("fn m() { let a: str = \"a\" - \"b\"; }"), CgError::StringOperator));
}

#[test]
fn unknown_function() {
    assert!(matches!(compile_err("fn m() { foo(); }"), CgError::UnknownFunction(n) if n == "foo"));
}

#[test]
fn let_type_mismatch() {
    match compile_err("fn m() { let a: int = \"s\"; }") {
        CgError::LetTypeMismatch { name, declared, actual } => {
            assert_eq!(name, "a");
            assert_eq!(declared, Type::Int);
            assert_eq!(actual, Type::Str);
        },
        other => panic!("unexpected error {:?}", other),
    }
}

#[test]
fn assign_type_mismatch() {
    match compile_err("fn m() { let a: int = 1; a = \"s\"; }") {
        CgError::AssignTypeMismatch { name, actual } => {
            assert_eq!(name, "a");
            assert_eq!(actual, Type::Str);
        },
        other => panic!("unexpected error {:?}", other),
    }
}

#[test]
fn assign_undefined() {
    assert!(matches!(compile_err("fn m() { b = 1; }"), CgError::AssignUndefined(n) if n == "b"));
}

#[test]
fn condition_not_int() {
    assert!(matches!(compile_err("fn m() { if \"s\" { } }"), CgError::ConditionNotInt));
}

#[test]
fn variables_of_a_block_end_with_it() {
    assert!(matches!(
        compile_err("fn m() { if 1 { let t: int = 1; } return t; }"),
        CgError::UndefinedVariable(n) if n == "t"
    ));
}

#[test]
fn parse_errors_come_first() {
    assert!(matches!(compile_source("fn m( { }"), Err(CompileError::Parse(_))));
}

#[test]
fn parsed_programs_fit() {
    let prog = parse_source("fn m() { let a: int = 1 + 2; if a { print(\"x\"); } }").unwrap();
    assert!(check_program_fits(&prog));
}

#[test]
fn codegen_counters() {
    let mut g = CodeGen::new();
    assert_eq!(g.next_reg(), "%t1");
    assert_eq!(g.next_reg(), "%t2");
    assert_eq!(g.next_label(), "L1");
    assert_eq!(g.next_label(), "L2");
    assert_eq!(g.reg, 3);
    assert_eq!(g.label, 3);
    assert_eq!(CodeGen::llvm_type(&Type::Int), "i64");
    assert_eq!(CodeGen::llvm_type(&Type::Str), "ptr");
}

#[test]
fn codegen_new_knows_the_builtins() {
    let g = CodeGen::new();
    assert_eq!(g.funcs.len(), 2);
    assert_eq!(g.funcs[0].0, "print");
    assert_eq!(g.funcs[0].1, vec![Type::Str]);
    assert_eq!(g.funcs[0].2, Type::Int);
    assert_eq!(g.funcs[1].0, "to_str");
    assert_eq!(g.funcs[1].1, vec![Type::Int]);
    assert_eq!(g.funcs[1].2, Type::Str);
    assert_eq!(g.env.len(), 1);
    assert!(g.ir.is_empty());
    assert!(!g.terminated);
}

#[test]
fn gen_expr_directly() {
    let mut g = CodeGen::new();
    let e = Expr::Binary(Box::new(Expr::Number(-3)), Token::Star, Box::new(Expr::Number(4)));
    let (v, t) = g.gen_expr(&e);
    assert_eq!(v, "%t1");
    assert_eq!(t, Type::Int);
    assert_eq!(g.ir, "  %t1 = mul i64 -3, 4\n");
    let (v, t) = g.gen_expr(&Expr::StringLit("q".to_string()));
    assert_eq!(v, "@.str.1");
    assert_eq!(t, Type::Str);
    assert_eq!(g.strings.len(), 1);
}

#[test]
fn gen_stmt_directly() {
    let mut g = CodeGen::new();
    g.gen_stmt(&Stmt::Let("k".to_string(), Type::Int, Expr::Number(5)));
    assert_eq!(g.ir, "  %t1 = alloca i64\n  store i64 5, ptr %t1\n");
    g.gen_stmt(&Stmt::Return(Expr::Ident("k".to_string())));
    assert!(g.terminated);
    let before = g.ir.clone();
    g.gen_stmt(&Stmt::Expr(Expr::Call("print".to_string(), vec![])));
    assert_eq!(g.ir, before);
}

#[test]
fn compile_directly() {
    let prog = parse_source("fn z() { }").unwrap();
    let mut g = CodeGen::new();
    let ir = g.compile(prog);
    assert_eq!(ir, String::from(DECLS) + "define i64 @z() {\nentry:\n  ret i64 0\n}\n\n");
}

#[test]
fn try_gen_stmt_reports_type_errors() {
    let mut g = CodeGen::new();
    assert!(matches!(
        g.try_gen_stmt(&Stmt::Let("s".to_string(), Type::Str, Expr::Number(1))),
        Err(CgError::LetTypeMismatch { .. })
    ));
    let mut g = CodeGen::new();
    assert!(matches!(
        g.try_gen_stmt(&Stmt::If(Expr::StringLit("a".to_string()), vec![], None)),
        Err(CgError::ConditionNotInt)
    ));
    let mut g = CodeGen::new();
    assert!(matches!(
        g.try_gen_expr(&Expr::Ident("nope".to_string())),
        Err(CgError::UndefinedVariable(_))
    ));
}

#[test]
fn assignment_uses_the_innermost_binding() {
    let mut g = CodeGen::new();
    g.env = vec![
        vec![("x".to_string(), "%a".to_string(), Type::Int)],
        vec![("x".to_string(), "%b".to_string(), Type::Str)],
    ];
    g.gen_stmt(&Stmt::Assign("x".to_string(), Expr::StringLit("s".to_string())));
    assert_eq!(g.ir, "  store ptr @.str.1, ptr %b\n");
    assert_eq!(g.env.len(), 2);
    assert!(matches!(
        g.try_gen_stmt(&Stmt::Assign("x".to_string(), Expr::Number(1))),
        Err(CgError::AssignTypeMismatch { .. })
    ));
    assert!(matches!(
        g.try_gen_stmt(&Stmt::Assign("y".to_string(), Expr::Number(1))),
        Err(CgError::AssignUndefined(_))
    ));
}

#[test]
fn try_compile_reports_variables_of_other_functions() {
    let prog = parse_source("fn a() { let v: int = 1; } fn b() { return v; }").unwrap();
    let mut g = CodeGen::new();
    assert!(matches!(g.try_compile(prog), Err(CgError::UndefinedVariable(n)) if n == "v"));
}

#[test]
fn return_type_mismatch() {
    match compile_err("fn f() -> int { return \"s\"; }") {
        CgError::ReturnTypeMismatch { declared, actual } => {
            assert_eq!(declared, Type::Int);
            assert_eq!(actual, Type::Str);
        },
        other => panic!("unexpected error {:?}", other),
    }
    assert!(matches!(compile_err("fn g() -> str { if 1 { return 2; } }"), CgError::ReturnTypeMismatch { .. }));
    assert!(compile_source("fn h() -> str { return to_str(2); }").is_ok());
}

#[test]
fn argument_mismatch() {
    assert!(matches!(compile_err("fn m() { print(1); }"), CgError::ArgumentMismatch(n) if n == "print"));
    assert!(matches!(compile_err("fn m() { let s: str = to_str(\"x\"); }"), CgError::ArgumentMismatch(n) if n == "to_str"));
    assert!(matches!(
        compile_err("fn f(a: int) -> int { return a; } fn m() { f(1, 2); }"),
        CgError::ArgumentMismatch(n) if n == "f"
    ));
    assert!(matches!(compile_err("fn f(a: int, b: str) { } fn m() { f(\"x\", 1); }"), CgError::ArgumentMismatch(_)));
    assert!(compile_source("fn f(a: int, b: str) { } fn m() { f(1, \"x\"); }").is_ok());
}
