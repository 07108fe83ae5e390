use lib::arm64::is_constant;
use lib::ast::{Expr, Stmt};
use lib::codegen::CodeGen;
use lib::pipeline::{compile_source, translate_ir};
use lib::text::{
    is_alnum, is_alpha, is_digit, is_whitespace, push_decimal, push_hex_escape, push_signed_decimal,
    str_to_chars,
};

#[test]
fn decimal_rendering() {
    let mut s = String::new();
    push_decimal(&mut s, 0);
    assert_eq!(s, "0");
    let mut s = String::from("n=");
    push_decimal(&mut s, 1234567890123);
    assert_eq!(s, "n=1234567890123");
    let mut s = String::new();
    push_decimal(&mut s, u128::MAX);
    assert_eq!(s, u128::MAX.to_string());
}

#[test]
fn decimal_reads_back() {
    for n in [0u128, 7, 10, 99, 100, 4294967295, 18446744073709551616] {
        let mut s = String::new();
        push_decimal(&mut s, n);
        assert_eq!(s.parse::<u128>().unwrap(), n);
    }
}

#[test]
fn signed_decimal_rendering() {
    for n in [0i64, 5, -5, i64::MAX, i64::MIN, -1000] {
        let mut s = String::new();
        push_signed_decimal(&mut s, n);
        assert_eq!(s, n.to_string());
    }
}

#[test]
fn hex_escapes() {
    let mut s = String::new();
    push_hex_escape(&mut s, 0);
    push_hex_escape(&mut s, 0x4A);
    push_hex_escape(&mut s, 0xFF);
    assert_eq!(s, "\\00\\4A\\FF");
}

#[test]
fn character_classes() {
    assert!(is_whitespace(' ') && is_whitespace('\n') && is_whitespace('\u{2028}'));
    assert!(!is_whitespace('x') && !is_whitespace('\u{200B}'));
    for c in ['\t', '\u{0B}', '\u{0C}', '\r', '\u{85}', '\u{1680}', '\u{205F}', '\u{3000}'] {
        assert_eq!(is_whitespace(c), c.is_whitespace());
    }
    assert!(is_digit('0') && is_digit('9') && !is_digit('a'));
    assert!(is_alpha('a') && is_alpha('Z') && !is_alpha('1') && !is_alpha('é'));
    assert!(is_alnum('q') && is_alnum('3') && !is_alnum('_'));
    assert_eq!(str_to_chars("añb"), vec!['a', 'ñ', 'b']);
}

#[test]
fn register_and_label_names_never_repeat() {
    let mut g = CodeGen::new();
    let regs: Vec<String> = (0..50).map(|_| g.next_reg()).collect();
    let labels: Vec<String> = (0..50).map(|_| g.next_label()).collect();
    for i in 0..50 {
        for j in (i + 1)..50 {
            assert_ne!(regs[i], regs[j]);
            assert_ne!(labels[i], labels[j]);
        }
    }
}

#[test]
fn every_defined_register_is_new() {
    let ir = compile_source(
        "fn f(a: int, b: int) -> int { let c: int = a * b + a; if c { c = c - 1; } else { c = c + 1; } return c; }",
    )
    .unwrap();
    let defs: Vec<&str> =
        ir.lines().filter_map(|l| l.trim_start().split(" = ").next().filter(|d| d.starts_with("%t"))).collect();
    assert!(!defs.is_empty());
    for i in 0..defs.len() {
        for j in (i + 1)..defs.len() {
            assert_ne!(defs[i], defs[j]);
        }
    }
}

#[test]
fn well_typed_programs_compile_and_ill_typed_ones_do_not() {
    assert!(compile_source("fn f() -> str { let s: str = to_str(1) + \"x\"; return s; }").is_ok());
    assert!(compile_source("fn f() -> str { let s: str = to_str(1) + 2; return s; }").is_err());
}

#[test]
fn printed_i32_constants_are_backend_constants() {
    for n in [0i64, 1, -1, 2147483647, -2147483648, 123456] {
        assert!(is_constant(&n.to_string()));
    }
    let ir = compile_source("fn f() -> int { return 2147483647; }").unwrap();
    let line = ir.lines().find(|l| l.trim_start().starts_with("ret ")).unwrap();
    let value = line.split_whitespace().last().unwrap();
    assert!(is_constant(value));
}

#[test]
fn front_end_output_feeds_the_back_end() {
    let ir = compile_source("fn main() -> int { return 42; }").unwrap();
    let out = translate_ir(&ir).unwrap();
    assert_eq!(out, ".text\n.global _main\n.align 2\n_main:\n    mov w0, #42\n    ret\n");
}

#[test]
fn code_after_return_is_not_type_checked() {
    assert!(compile_source("fn m() -> int { return 1; let x: int = \"s\"; y = 2; }").is_ok());
}

#[test]
fn one_ill_typed_function_rejects_the_program() {
    assert!(compile_source("fn a() { } fn b() { return nope; } fn c() { }").is_err());
    assert!(compile_source("fn a() { } fn b() { return a(); } fn c() { }").is_ok());
}

#[test]
fn functions_may_call_functions_defined_later() {
    assert!(compile_source("fn a() -> str { return b(); } fn b() -> str { return \"z\"; }").is_ok());
}

#[test]
fn every_function_ends_with_ret_and_brace() {
    let ir = compile_source(
        "fn a(x: int) -> int { if x { return 1; } } fn b() -> str { } fn c() -> int { if 1 { return 2; } else { return 3; } }",
    )
    .unwrap();
    let mut count = 0;
    let lines: Vec<&str> = ir.lines().collect();
    for (i, l) in lines.iter().enumerate() {
        if *l == "}" {
            count += 1;
            assert!(lines[i - 1].starts_with("  ret "), "line before brace: {}", lines[i - 1]);
        }
    }
    assert_eq!(count, 3);
}

#[test]
fn string_constants_are_numbered_in_order() {
    let ir = compile_source(
        "fn a() { print(\"x\"); } fn b() -> str { return \"y\" + \"x\"; }",
    )
    .unwrap();
    for id in 1..=3 {
        let decl = format!("@.str.{} = private unnamed_addr constant", id);
        assert_eq!(ir.matches(&decl).count(), 1);
    }
    assert!(!ir.contains("@.str.4"));
    assert!(ir.starts_with("@.str.1 = private unnamed_addr constant [2 x i8] c\"\\78\\00\"\n@.str.2"));
}

#[test]
fn a_statement_after_return_changes_nothing() {
    let mut g = CodeGen::new();
    g.gen_stmt(&Stmt::Return(Expr::Number(0)));
    let ir = g.ir.clone();
    let reg = g.reg;
    g.gen_stmt(&Stmt::Expr(Expr::Ident("undefined".to_string())));
    assert_eq!(g.ir, ir);
    assert_eq!(g.reg, reg);
}

#[test]
fn returned_flag_means_returns_on_every_path() {
    let mut g = CodeGen::new();
    g.gen_stmt(&Stmt::If(Expr::Number(1), vec![Stmt::Return(Expr::Number(1))], None));
    assert!(!g.terminated);
    let mut g = CodeGen::new();
    g.gen_stmt(&Stmt::If(
        Expr::Number(1),
        vec![Stmt::Return(Expr::Number(1))],
        Some(vec![Stmt::Expr(Expr::Number(0)), Stmt::Return(Expr::Number(2))]),
    ));
    assert!(g.terminated);
    let mut g = CodeGen::new();
    g.gen_stmt(&Stmt::Let("a".to_string(), lib::ast::Type::Int, Expr::Number(1)));
    assert!(!g.terminated);
}

#[test]
fn expression_values_are_constants_new_strings_or_new_registers() {
    let mut g = CodeGen::new();
    let (v, _) = g.gen_expr(&Expr::Number(-12));
    assert_eq!(v, "-12");
    let (v, _) = g.gen_expr(&Expr::StringLit("a".to_string()));
    assert_eq!(v, "@.str.1");
    let e = Expr::Call(
        "print".to_string(),
        vec![Expr::Binary(
            Box::new(Expr::StringLit("b".to_string())),
            lib::lexer::Token::Plus,
            Box::new(Expr::StringLit("c".to_string())),
        )],
    );
    let (v, _) = g.gen_expr(&e);
    assert_eq!(v, "%t2");
    let ids: Vec<usize> = g.strings.iter().map(|p| p.1).collect();
    assert_eq!(ids, vec![1, 2, 3]);
}
