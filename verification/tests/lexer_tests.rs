use lib::lexer::{LexError, Lexer, Token};

fn tokens(src: &str) -> Vec<String> {
    let mut lx = Lexer::new(src);
    let mut out = Vec::new();
    loop {
        let t = lx.next_token();
        let eof = matches!(t, Token::EOF);
        out.push(format!("{:?}", t));
        if eof {
            break;
        }
    }
    out
}

#[test]
fn lexes_keywords_identifiers_and_symbols() {
    let got = tokens("fn main(a: int, b: str) -> int { let x_1: int = a + 2; }");
    let want = vec![
        "Fn", "Ident(\"main\")", "LParen", "Ident(\"a\")", "Colon", "IntType", "Comma",
        "Ident(\"b\")", "Colon", "StrType", "RParen", "Arrow", "IntType", "LBrace", "Let",
        "Ident(\"x_1\")", "Colon", "IntType", "Assign", "Ident(\"a\")", "Plus", "Number(2)", "Semi",
        "RBrace", "EOF",
    ];
    assert_eq!(got, want);
}

#[test]
fn lexes_all_keywords() {
    let got = tokens("fn let if else return int str _x");
    assert_eq!(
        got,
        vec!["Fn", "Let", "If", "Else", "Return", "IntType", "StrType", "Ident(\"_x\")", "EOF"]
    );
}

#[test]
fn lexes_operators() {
    let got = tokens("+ - * / = -> ( ) { } : ; ,");
    assert_eq!(
        got,
        vec![
            "Plus", "Minus", "Star", "Slash", "Assign", "Arrow", "LParen", "RParen", "LBrace",
            "RBrace", "Colon", "Semi", "Comma", "EOF"
        ]
    );
}

#[test]
fn minus_without_gt_is_minus() {
    assert_eq!(tokens("a-b"), vec!["Ident(\"a\")", "Minus", "Ident(\"b\")", "EOF"]);
    assert_eq!(tokens("-"), vec!["Minus", "EOF"]);
}

#[test]
fn skips_line_comments_and_whitespace() {
    let got = tokens("// a comment\n   42 // another\n\t// last");
    assert_eq!(got, vec!["Number(42)", "EOF"]);
}

#[test]
fn single_slash_is_division() {
    assert_eq!(tokens("6 / 3"), vec!["Number(6)", "Slash", "Number(3)", "EOF"]);
}

#[test]
fn lexes_string_literals() {
    assert_eq!(tokens("\"hello world\""), vec!["StringLit(\"hello world\")", "EOF"]);
    assert_eq!(tokens("\"\""), vec!["StringLit(\"\")", "EOF"]);
}

#[test]
fn unterminated_string_runs_to_end() {
    assert_eq!(tokens("\"abc"), vec!["StringLit(\"abc\")", "EOF"]);
}

#[test]
fn number_at_i64_max_lexes() {
    assert_eq!(tokens("9223372036854775807"), vec!["Number(9223372036854775807)", "EOF"]);
}

#[test]
fn number_past_i64_max_is_an_error() {
    let mut lx = Lexer::new("9223372036854775808");
    assert_eq!(lx.try_next_token().unwrap_err(), LexError::NumberTooLarge);
}

#[test]
fn unknown_character_is_an_error() {
    let mut lx = Lexer::new("  @");
    assert_eq!(lx.try_next_token().unwrap_err(), LexError::UnknownChar('@'));
    let mut lx = Lexer::new("a # b");
    assert!(matches!(lx.next_token(), Token::Ident(_)));
    assert_eq!(lx.try_next_token().unwrap_err(), LexError::UnknownChar('#'));
}

#[test]
fn eof_repeats_without_moving() {
    let mut lx = Lexer::new("x  ");
    assert!(matches!(lx.next_token(), Token::Ident(_)));
    assert!(matches!(lx.next_token(), Token::EOF));
    let pos = lx.pos;
    assert!(matches!(lx.next_token(), Token::EOF));
    assert_eq!(lx.pos, pos);
}

#[test]
fn trivia_does_not_change_the_next_token() {
    let a = tokens("  // note\n\n  total");
    let b = tokens("total");
    assert_eq!(a, b);
}

#[test]
fn unicode_whitespace_is_skipped() {
    assert_eq!(tokens("\u{3000}x\u{A0}"), vec!["Ident(\"x\")", "EOF"]);
}

#[test]
fn identifiers_are_ascii_only() {
    let mut lx = Lexer::new("é");
    assert_eq!(lx.try_next_token().unwrap_err(), LexError::UnknownChar('é'));
}

#[test]
fn token_helpers() {
    assert!(Token::Plus.same(&Token::Plus));
    assert!(!Token::Plus.same(&Token::Minus));
    assert!(Token::Ident("a".to_string()).same(&Token::Ident("a".to_string())));
    assert!(!Token::Ident("a".to_string()).same(&Token::Ident("b".to_string())));
    assert!(Token::EOF.is_eof());
    assert!(!Token::Semi.is_eof());
    let t = Token::StringLit("s".to_string()).duplicate();
    assert_eq!(format!("{:?}", t), "StringLit(\"s\")");
}

#[test]
fn unterminated_string_moves_one_past_the_end() {
    let mut lx = Lexer::new("\"ab");
    assert!(matches!(lx.next_token(), Token::StringLit(ref t) if t == "ab"));
    assert_eq!(lx.pos, 4);
    assert!(matches!(lx.next_token(), Token::EOF));
    assert_eq!(lx.pos, 4);
}
