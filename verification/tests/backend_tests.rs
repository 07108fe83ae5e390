use lib::arm64::{
    generate_arm64_assembly, is_constant, load_operand_to_reg, try_generate_arm64_assembly,
    try_load_operand_to_reg, AsmError,
};
use lib::llvm_ir::{parse_llvm_ir, try_parse_llvm_ir, Function, IRInstruction, IrError};
use lib::pipeline::{translate_ir, TranslateError};

const SAMPLE: &str = "; ModuleID = 'sample'\ndefine i32 @main() {\nentry:\n  %1 = add i32 2, 3\n  %2 = add i32 %1, 4\n  ret i32 %2\n}\n";

#[test]
fn parses_define_add_and_ret() {
    let f = parse_llvm_ir(SAMPLE);
    assert_eq!(f.name, "main");
    assert_eq!(f.instructions.len(), 3);
    match &f.instructions[0] {
        IRInstruction::Add { dest, op1, op2 } => {
            assert_eq!(dest, "%1");
            assert_eq!(op1, "2");
            assert_eq!(op2, "3");
        },
        other => panic!("unexpected {:?}", other),
    }
    match &f.instructions[1] {
        IRInstruction::Add { dest, op1, op2 } => {
            assert_eq!(dest, "%2");
            assert_eq!(op1, "%1");
            assert_eq!(op2, "4");
        },
        other => panic!("unexpected {:?}", other),
    }
    match &f.instructions[2] {
        IRInstruction::Ret { op } => assert_eq!(op, "%2"),
        other => panic!("unexpected {:?}", other),
    }
}

#[test]
fn ignores_blank_comment_and_other_lines() {
    let f = parse_llvm_ir("\n   \n; comment\n  %x = mul i32 1, 2\n  store i32 1, ptr %p\n}\n");
    assert_eq!(f.name, "");
    assert!(f.instructions.is_empty());
}

#[test]
fn handles_crlf_lines() {
    let f = parse_llvm_ir("define i32 @f() {\r\n  ret i32 7\r\n}\r\n");
    assert_eq!(f.name, "f");
    assert!(matches!(&f.instructions[0], IRInstruction::Ret { op } if op == "7"));
}

#[test]
fn later_define_renames_the_function() {
    let f = parse_llvm_ir("define i32 @a() {\ndefine i32 @b() {\n");
    assert_eq!(f.name, "b");
}

#[test]
fn define_errors() {
    assert_eq!(try_parse_llvm_ir("define i32 main() {").unwrap_err(), IrError::MissingAt);
    assert_eq!(try_parse_llvm_ir("define i32 @main").unwrap_err(), IrError::MissingParen);
    assert_eq!(try_parse_llvm_ir("define (i32) @main").unwrap_err(), IrError::NameRangeInverted);
    let f = parse_llvm_ir("define @(");
    assert_eq!(f.name, "");
}

#[test]
fn add_errors() {
    assert_eq!(try_parse_llvm_ir("%1 == add 1, 2").unwrap_err(), IrError::MissingOperand);
    assert_eq!(try_parse_llvm_ir("%1 = add i32 2 3").unwrap_err(), IrError::MissingComma);
}

#[test]
fn generates_arm64_assembly() {
    let f = parse_llvm_ir(SAMPLE);
    let out = generate_arm64_assembly(&f);
    let want = ".text\n.global _main\n.align 2\n_main:\n".to_string()
        + "    mov w8, #2\n"
        + "    mov w9, #3\n"
        + "    add w10, w8, w9\n"
        + "    mov w11, #4\n"
        + "    add w12, w10, w11\n"
        + "    mov w0, w12\n"
        + "    ret\n";
    assert_eq!(out, want);
}

#[test]
fn returns_a_constant() {
    let out = translate_ir("define i32 @seven() {\n  ret i32 -7\n}\n").unwrap();
    assert_eq!(out, ".text\n.global _seven\n.align 2\n_seven:\n    mov w0, #-7\n    ret\n");
}

#[test]
fn undefined_operand_is_an_error() {
    let f = parse_llvm_ir("define i32 @f() {\n  %2 = add i32 %9, 1\n");
    assert_eq!(try_generate_arm64_assembly(&f).unwrap_err(), AsmError::UndefinedVirtualRegister);
}

#[test]
fn undefined_return_value_is_an_error() {
    assert_eq!(
        translate_ir("define i32 @f() {\n  ret i32 %5\n}\n").unwrap_err(),
        TranslateError::Asm(AsmError::MissingReturnRegister)
    );
}

#[test]
fn translate_reports_ir_errors() {
    assert_eq!(translate_ir("define i32 f() {").unwrap_err(), TranslateError::Ir(IrError::MissingAt));
}

#[test]
fn constants_are_i32_literals() {
    for ok in ["0", "42", "-5", "+7", "2147483647", "-2147483648", "007"] {
        assert!(is_constant(ok), "{} should be a constant", ok);
    }
    for bad in ["", "-", "+", "2147483648", "-2147483649", "%1", "1a", " 1", "1.0", "--1"] {
        assert!(!is_constant(bad), "{} should not be a constant", bad);
    }
}

#[test]
fn load_operand_moves_constants_into_fresh_registers() {
    let mut next: u32 = 8;
    let mut text = String::new();
    let map: Vec<(String, String)> = vec![("%1".to_string(), "w10".to_string())];
    assert_eq!(load_operand_to_reg("5", &mut next, &mut text, &map), "w8");
    assert_eq!(next, 9);
    assert_eq!(text, "    mov w8, #5\n");
    assert_eq!(load_operand_to_reg("%1", &mut next, &mut text, &map), "w10");
    assert_eq!(next, 9);
    assert_eq!(text, "    mov w8, #5\n");
    assert_eq!(
        try_load_operand_to_reg("%2", &mut next, &mut text, &map).unwrap_err(),
        AsmError::UndefinedVirtualRegister
    );
}

#[test]
fn latest_mapping_wins() {
    let mut next: u32 = 20;
    let mut text = String::new();
    let map: Vec<(String, String)> =
        vec![("%1".to_string(), "w8".to_string()), ("%1".to_string(), "w9".to_string())];
    assert_eq!(load_operand_to_reg("%1", &mut next, &mut text, &map), "w9");
}

#[test]
fn every_value_gets_its_own_register() {
    let out = translate_ir(
        "define i32 @f() {\n  %a = add i32 1, 2\n  %b = add i32 %a, %a\n  %c = add i32 %b, %a\n  ret i32 %c\n}\n",
    )
    .unwrap();
    let dests: Vec<&str> = out
        .lines()
        .filter(|l| l.trim_start().starts_with("add "))
        .map(|l| l.trim_start()[4..].split(',').next().unwrap())
        .collect();
    assert_eq!(dests, vec!["w10", "w11", "w12"]);
    assert!(out.ends_with("    mov w0, w12\n    ret\n"));
}

#[test]
fn empty_function_has_only_a_header() {
    let f = Function { name: "e".to_string(), instructions: vec![] };
    assert_eq!(generate_arm64_assembly(&f), ".text\n.global _e\n.align 2\n_e:\n");
}

#[test]
fn register_numbers_past_u32_are_refused() {
    let mut next: u32 = u32::MAX;
    let mut text = String::new();
    let map: Vec<(String, String)> = vec![("%1".to_string(), "w9".to_string())];
    assert_eq!(
        try_load_operand_to_reg("3", &mut next, &mut text, &map).unwrap_err(),
        AsmError::RegisterOverflow
    );
    assert_eq!(next, u32::MAX);
    assert!(text.is_empty());
    assert_eq!(try_load_operand_to_reg("%1", &mut next, &mut text, &map).unwrap(), "w9");
}

#[test]
fn try_versions_agree_on_good_input() {
    let f = try_parse_llvm_ir(SAMPLE).unwrap();
    assert_eq!(try_generate_arm64_assembly(&f).unwrap(), generate_arm64_assembly(&parse_llvm_ir(SAMPLE)));
}
