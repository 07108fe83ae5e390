use lib::ast::{Expr, Function, Stmt, Type};
use lib::lexer::{LexError, Lexer, Token};
use lib::parser::{parse_source, ParseError, Parser};

fn parse_ok(src: &str) -> Vec<Function> {
    parse_source(src).expect("parses")
}

fn body_of(src: &str) -> String {
    let prog = parse_ok(src);
    assert_eq!(prog.len(), 1);
    format!("{:?}", prog[0].body)
}

fn parser_for(src: &str) -> Parser {
    Parser::new(Lexer::new(src))
}

#[test]
fn parses_function_header() {
    let prog = parse_ok("fn add(a: int, b: str) -> str { }");
    assert_eq!(prog.len(), 1);
    assert_eq!(prog[0].name, "add");
    assert_eq!(prog[0].args.len(), 2);
    assert_eq!(prog[0].args[0].0, "a");
    assert_eq!(prog[0].args[0].1, Type::Int);
    assert_eq!(prog[0].args[1].0, "b");
    assert_eq!(prog[0].args[1].1, Type::Str);
    assert_eq!(prog[0].ret_type, Type::Str);
    assert!(prog[0].body.is_empty());
}

#[test]
fn return_type_defaults_to_int() {
    let prog = parse_ok("fn main() { }");
    assert_eq!(prog[0].ret_type, Type::Int);
    assert!(prog[0].args.is_empty());
}

#[test]
fn parses_several_functions_in_order() {
    let prog = parse_ok("fn a() {} fn b() {} fn c() {}");
    let names: Vec<&str> = prog.iter().map(|f| f.name.as_str()).collect();
    assert_eq!(names, vec!["a", "b", "c"]);
}

#[test]
fn empty_source_is_an_empty_program() {
    assert!(parse_ok("").is_empty());
    assert!(parse_ok("  // nothing here\n").is_empty());
}

#[test]
fn multiplication_binds_tighter_than_addition() {
    assert_eq!(
        body_of("fn f() { return 1 + 2 * 3; }"),
        "[Return(Binary(Number(1), Plus, Binary(Number(2), Star, Number(3))))]"
    );
}

#[test]
fn operators_associate_to_the_left() {
    assert_eq!(
        body_of("fn f() { return 1 - 2 - 3; }"),
        "[Return(Binary(Binary(Number(1), Minus, Number(2)), Minus, Number(3)))]"
    );
    assert_eq!(
        body_of("fn f() { return 8 / 4 * 2; }"),
        "[Return(Binary(Binary(Number(8), Slash, Number(4)), Star, Number(2)))]"
    );
}

#[test]
fn parentheses_group() {
    assert_eq!(
        body_of("fn f() { return (1 + 2) * 3; }"),
        "[Return(Binary(Binary(Number(1), Plus, Number(2)), Star, Number(3)))]"
    );
}

#[test]
fn parses_calls_with_arguments() {
    assert_eq!(
        body_of("fn f() { print(to_str(1), \"a\", x); g(); }"),
        "[Expr(Call(\"print\", [Call(\"to_str\", [Number(1)]), StringLit(\"a\"), Ident(\"x\")])), Expr(Call(\"g\", []))]"
    );
}

#[test]
fn parses_let_and_assignment() {
    assert_eq!(
        body_of("fn f() { let s: str = \"x\"; s = s + \"y\"; }"),
        "[Let(\"s\", Str, StringLit(\"x\")), Assign(\"s\", Binary(Ident(\"s\"), Plus, StringLit(\"y\")))]"
    );
}

#[test]
fn parses_if_else() {
    assert_eq!(
        body_of("fn f() { if x { return 1; } else { return 2; } }"),
        "[If(Ident(\"x\"), [Return(Number(1))], Some([Return(Number(2))]))]"
    );
    assert_eq!(body_of("fn f() { if x { } }"), "[If(Ident(\"x\"), [], None)]");
}

#[test]
fn else_if_nests_one_statement() {
    assert_eq!(
        body_of("fn f() { if a { } else if b { } else { x = 1; } }"),
        "[If(Ident(\"a\"), [], Some([If(Ident(\"b\"), [], Some([Assign(\"x\", Number(1))]))]))]"
    );
}

#[test]
fn missing_function_name() {
    assert!(matches!(parse_source("fn () {}"), Err(ParseError::MissingFunctionName)));
}

#[test]
fn missing_parameter_name() {
    assert!(matches!(parse_source("fn f(int) {}"), Err(ParseError::MissingParameterName)));
}

#[test]
fn missing_type() {
    assert!(matches!(parse_source("fn f(x: bool) {}"), Err(ParseError::MissingType)));
    assert!(matches!(parse_source("fn f() -> { }"), Err(ParseError::MissingType)));
}

#[test]
fn missing_variable_name() {
    assert!(matches!(parse_source("fn f() { let : int = 1; }"), Err(ParseError::MissingVariableName)));
}

#[test]
fn unexpected_token() {
    match parse_source("fn f(x int) {}") {
        Err(ParseError::Unexpected { expected, found }) => {
            assert!(matches!(expected, Token::Colon));
            assert!(matches!(found, Token::IntType));
        },
        other => panic!("unexpected result: {:?}", other),
    }
    match parse_source("fn f() { return 1 }") {
        Err(ParseError::Unexpected { expected, found }) => {
            assert!(matches!(expected, Token::Semi));
            assert!(matches!(found, Token::RBrace));
        },
        other => panic!("unexpected result: {:?}", other),
    }
    match parse_source("let") {
        Err(ParseError::Unexpected { expected, found }) => {
            assert!(matches!(expected, Token::Fn));
            assert!(matches!(found, Token::Let));
        },
        other => panic!("unexpected result: {:?}", other),
    }
}

#[test]
fn unterminated_block_reports_end_of_input() {
    match parse_source("fn f() { return 1;") {
        Err(ParseError::UnknownStatement(t)) => assert!(matches!(t, Token::EOF)),
        other => panic!("unexpected result: {:?}", other),
    }
}

#[test]
fn invalid_assignment_target() {
    assert!(matches!(parse_source("fn f() { g() = 1; }"), Err(ParseError::InvalidAssignment)));
    assert!(matches!(parse_source("fn f() { a + b = 1; }"), Err(ParseError::InvalidAssignment)));
}

#[test]
fn unknown_statement() {
    match parse_source("fn f() { 1 + 2; }") {
        Err(ParseError::UnknownStatement(t)) => assert!(matches!(t, Token::Number(1))),
        other => panic!("unexpected result: {:?}", other),
    }
}

#[test]
fn expected_expression() {
    match parse_source("fn f() { return ; }") {
        Err(ParseError::ExpectedExpression(t)) => assert!(matches!(t, Token::Semi)),
        other => panic!("unexpected result: {:?}", other),
    }
}

#[test]
fn lexer_errors_surface_through_the_parser() {
    assert!(matches!(
        parse_source("fn f() { @ }"),
        Err(ParseError::Lex(LexError::UnknownChar('@')))
    ));
    assert!(matches!(
        parse_source("fn f() { return 99999999999999999999; }"),
        Err(ParseError::Lex(LexError::NumberTooLarge))
    ));
    assert!(matches!(Parser::try_new(Lexer::new("$")), Err(ParseError::Lex(LexError::UnknownChar('$')))));
}

#[test]
fn parser_methods_step_by_step() {
    let mut p = parser_for("int str x");
    assert_eq!(p.parse_type(), Type::Int);
    assert_eq!(p.parse_type(), Type::Str);
    assert!(matches!(p.try_parse_type(), Err(ParseError::MissingType)));

    let mut p = parser_for("( )");
    p.eat(Token::LParen);
    assert!(matches!(p.current, Token::RParen));
    assert!(p.try_eat(Token::Comma).is_err());

    let mut p = parser_for("a * (b - 1)");
    let e = p.parse_expr();
    assert_eq!(format!("{:?}", e), "Binary(Ident(\"a\"), Star, Binary(Ident(\"b\"), Minus, Number(1)))");
    assert!(matches!(p.current, Token::EOF));

    let mut p = parser_for("1 + 2 * 3");
    let e = p.parse_term();
    assert!(matches!(e, Expr::Binary(_, Token::Plus, _)));

    let mut p = parser_for("2 * 3 + 1");
    let e = p.parse_factor();
    assert_eq!(format!("{:?}", e), "Binary(Number(2), Star, Number(3))");
    assert!(matches!(p.current, Token::Plus));

    let mut p = parser_for("\"s\"");
    assert!(matches!(p.parse_primary(), Expr::StringLit(_)));

    let mut p = parser_for("{ return 1; } rest");
    let b = p.parse_block();
    assert_eq!(b.len(), 1);
    assert!(matches!(b[0], Stmt::Return(Expr::Number(1))));

    let mut p = parser_for("x = 3;");
    assert!(matches!(p.parse_statement(), Stmt::Assign(_, Expr::Number(3))));

    let mut p = parser_for("fn g(n: int) -> int { return n; }");
    let f = p.parse_function();
    assert_eq!(f.name, "g");

    let mut p = parser_for("fn a() {} fn b() {}");
    assert_eq!(p.parse_program().len(), 2);
    assert!(matches!(p.current, Token::EOF));
}

#[test]
fn malformed_statements_are_refused() {
    for src in ["f() = 1;", "x + 1 = 2;", "5;", "(x);", "{ }", "return 1"] {
        let mut p = parser_for(src);
        assert!(p.try_parse_statement().is_err(), "{} should not parse", src);
    }
}

#[test]
fn malformed_primaries_are_refused() {
    for src in ["f(1,)", "f(1", "(1", "+", ")"] {
        let mut p = parser_for(src);
        assert!(p.try_parse_primary().is_err(), "{} should not parse", src);
    }
}

#[test]
fn eat_compares_payloads() {
    let mut p = parser_for("x");
    assert!(p.try_eat(Token::Ident("y".to_string())).is_err());
    p.eat(Token::Ident("x".to_string()));
    assert!(matches!(p.current, Token::EOF));
}

#[test]
fn malformed_functions_and_blocks_are_refused() {
    for src in ["fn f(a: int,) {}", "fn f(a) {}", "fn (x: int) {}"] {
        assert!(parser_for(src).try_parse_function().is_err(), "{}", src);
    }
    assert!(parser_for("{ return 1;").try_parse_block().is_err());
    assert!(parser_for("let x: int = 1;").try_parse_program().is_err());
    assert!(matches!(parser_for("{").try_parse_type(), Err(ParseError::MissingType)));
}

#[test]
fn parse_program_in_steps() {
    let mut p = parser_for("fn a() {} // c\nfn b() -> str { return \"s\"; }");
    let prog = p.parse_program();
    assert_eq!(prog.len(), 2);
    assert_eq!(prog[1].ret_type, Type::Str);
    assert!(matches!(p.current, Token::EOF));
    assert!(parser_for("").parse_program().is_empty());
}
