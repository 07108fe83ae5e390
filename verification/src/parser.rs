//! The `tp0` recursive-descent parser.
//!
//! Grammar (one token of look-ahead):
//! ```text
//! program   := function*
//! function  := "fn" IDENT "(" [IDENT ":" type ("," IDENT ":" type)*] ")" ["->" type] block
//! type      := "int" | "str"
//! block     := "{" statement* "}"
//! statement := "let" IDENT ":" type "=" expr ";"
//!            | "if" expr block ["else" (statement-starting-with-"if" | block)]
//!            | "return" expr ";"
//!            | IDENT-started expr ["=" expr] ";"
//! expr      := term
//! term      := factor (("+" | "-") factor)*
//! factor    := primary (("*" | "/") primary)*
//! primary   := NUMBER | STRING | IDENT ["(" [expr ("," expr)*] ")"] | "(" expr ")"
//! ```
use vstd::prelude::*;

use crate::ast::{
    exprs_view, exprs_wf, expr_wf, lemma_exprs_view_push, lemma_exprs_wf_push, lemma_stmts_view_push,
    lemma_stmts_wf_push, params_view, program_view, stmts_view, stmts_wf, stmt_wf, Expr, ExprV, Function,
    FunctionV, Stmt, StmtV, Type,
};
use crate::lexer::{LexError, Lexer, Token, TokenV, lemma_lex_step_advances, lex_step};

verus! {

/// Why the parser rejects its input.
#[derive(Debug)]
pub enum ParseError {
    /// The lexer rejected the input.
    Lex(LexError),
    /// `eat` found another token than the one the grammar requires here.
    Unexpected { expected: Token, found: Token },
    /// `fn` is not followed by a name.
    MissingFunctionName,
    /// A parameter does not start with a name.
    MissingParameterName,
    /// `let` is not followed by a name.
    MissingVariableName,
    /// A type annotation is neither `int` nor `str`.
    MissingType,
    /// The left side of `=` is not a plain variable.
    InvalidAssignment,
    /// A statement starts with a token that starts no statement.
    UnknownStatement(Token),
    /// An expression starts with a token that starts no expression.
    ExpectedExpression(Token),
}

/// The mathematical value of a parse error.
pub enum ParseErrorV {
    Lex(LexError),
    Unexpected { expected: TokenV, found: TokenV },
    MissingFunctionName,
    MissingParameterName,
    MissingVariableName,
    MissingType,
    InvalidAssignment,
    UnknownStatement(TokenV),
    ExpectedExpression(TokenV),
    /// Never produced: the parser always consumes input before it recurses
    /// (the executable parser proves it), so this only closes the definitions.
    Stalled,
}

impl View for ParseError {
    type V = ParseErrorV;

    open spec fn view(&self) -> ParseErrorV {
        match self {
            ParseError::Lex(e) => ParseErrorV::Lex(*e),
            ParseError::Unexpected { expected, found } => ParseErrorV::Unexpected {
                expected: expected@,
                found: found@,
            },
            ParseError::MissingFunctionName => ParseErrorV::MissingFunctionName,
            ParseError::MissingParameterName => ParseErrorV::MissingParameterName,
            ParseError::MissingVariableName => ParseErrorV::MissingVariableName,
            ParseError::MissingType => ParseErrorV::MissingType,
            ParseError::InvalidAssignment => ParseErrorV::InvalidAssignment,
            ParseError::UnknownStatement(t) => ParseErrorV::UnknownStatement(t@),
            ParseError::ExpectedExpression(t) => ParseErrorV::ExpectedExpression(t@),
        }
    }
}

/// The parser's state: the lexer position after the current token, and that token.
pub struct PState {
    pub pos: int,
    pub cur: TokenV,
}

// ---------------------------------------------------------------------------
// Specification
// ---------------------------------------------------------------------------

/// How much input is left: shrinks with every consumed token.
pub open spec fn measure(c: Seq<char>, st: PState) -> nat {
    if st.pos <= c.len() + 1 {
        (2 * (c.len() + 1 - st.pos) + if st.cur == TokenV::EOF { 0int } else { 1int }) as nat
    } else {
        0
    }
}

/// Moves to the next token.
pub open spec fn spec_advance(c: Seq<char>, st: PState) -> Result<PState, ParseErrorV> {
    match lex_step(c, st.pos) {
        Ok((t, q)) => Ok(PState { pos: q, cur: t }),
        Err(e) => Err(ParseErrorV::Lex(e)),
    }
}

/// Consumes the current token if it is `expected`.
pub open spec fn spec_eat(c: Seq<char>, st: PState, expected: TokenV) -> Result<PState, ParseErrorV> {
    if st.cur == expected {
        spec_advance(c, st)
    } else {
        Err(ParseErrorV::Unexpected { expected, found: st.cur })
    }
}

/// `type`
pub open spec fn spec_parse_type(c: Seq<char>, st: PState) -> Result<(Type, PState), ParseErrorV> {
    if st.cur == TokenV::IntType {
        match spec_eat(c, st, TokenV::IntType) {
            Ok(s1) => Ok((Type::Int, s1)),
            Err(e) => Err(e),
        }
    } else if st.cur == TokenV::StrType {
        match spec_eat(c, st, TokenV::StrType) {
            Ok(s1) => Ok((Type::Str, s1)),
            Err(e) => Err(e),
        }
    } else {
        Err(ParseErrorV::MissingType)
    }
}

/// `primary`
pub open spec fn spec_parse_primary(c: Seq<char>, st: PState) -> Result<(ExprV, PState), ParseErrorV>
    decreases measure(c, st), 0int,
{
    match st.cur {
        TokenV::Number(n) => match spec_eat(c, st, st.cur) {
            Ok(s1) => Ok((ExprV::Number(n), s1)),
            Err(e) => Err(e),
        },
        TokenV::StringLit(s) => match spec_eat(c, st, st.cur) {
            Ok(s1) => Ok((ExprV::StringLit(s), s1)),
            Err(e) => Err(e),
        },
        TokenV::Ident(name) => match spec_eat(c, st, st.cur) {
            Ok(s1) => if s1.cur == TokenV::LParen {
                match spec_eat(c, s1, TokenV::LParen) {
                    Ok(s2) => {
                        let args = if s2.cur != TokenV::RParen {
                            if measure(c, s2) < measure(c, st) {
                                spec_parse_args(c, s2)
                            } else {
                                Err(ParseErrorV::Stalled)
                            }
                        } else {
                            Ok((Seq::<ExprV>::empty(), s2))
                        };
                        match args {
                            Ok((a, s3)) => match spec_eat(c, s3, TokenV::RParen) {
                                Ok(s4) => Ok((ExprV::Call(name, a), s4)),
                                Err(e) => Err(e),
                            },
                            Err(e) => Err(e),
                        }
                    },
                    Err(e) => Err(e),
                }
            } else {
                Ok((ExprV::Ident(name), s1))
            },
            Err(e) => Err(e),
        },
        TokenV::LParen => match spec_eat(c, st, TokenV::LParen) {
            Ok(s1) => if measure(c, s1) < measure(c, st) {
                match spec_parse_expr(c, s1) {
                    Ok((e, s2)) => match spec_eat(c, s2, TokenV::RParen) {
                        Ok(s3) => Ok((e, s3)),
                        Err(err) => Err(err),
                    },
                    Err(err) => Err(err),
                }
            } else {
                Err(ParseErrorV::Stalled)
            },
            Err(e) => Err(e),
        },
        _ => Err(ParseErrorV::ExpectedExpression(st.cur)),
    }
}

/// `expr ("," expr)*`, the arguments of a call.
pub open spec fn spec_parse_args(c: Seq<char>, st: PState) -> Result<(Seq<ExprV>, PState), ParseErrorV>
    decreases measure(c, st), 7int,
{
    match spec_parse_expr(c, st) {
        Ok((e, s1)) => if measure(c, s1) < measure(c, st) {
            spec_args_rest(c, seq![e], s1)
        } else {
            Err(ParseErrorV::Stalled)
        },
        Err(err) => Err(err),
    }
}

/// `("," expr)*` after the arguments `acc` read so far.
pub open spec fn spec_args_rest(c: Seq<char>, acc: Seq<ExprV>, st: PState) -> Result<(Seq<ExprV>, PState), ParseErrorV>
    decreases measure(c, st), 6int,
{
    if st.cur == TokenV::Comma {
        match spec_eat(c, st, TokenV::Comma) {
            Ok(s1) => if measure(c, s1) < measure(c, st) {
                match spec_parse_expr(c, s1) {
                    Ok((e, s2)) => if measure(c, s2) < measure(c, s1) {
                        spec_args_rest(c, acc.push(e), s2)
                    } else {
                        Err(ParseErrorV::Stalled)
                    },
                    Err(err) => Err(err),
                }
            } else {
                Err(ParseErrorV::Stalled)
            },
            Err(err) => Err(err),
        }
    } else {
        Ok((acc, st))
    }
}

/// `factor`
pub open spec fn spec_parse_factor(c: Seq<char>, st: PState) -> Result<(ExprV, PState), ParseErrorV>
    decreases measure(c, st), 2int,
{
    match spec_parse_primary(c, st) {
        Ok((node, s1)) => if measure(c, s1) <= measure(c, st) {
            spec_factor_rest(c, node, s1)
        } else {
            Err(ParseErrorV::Stalled)
        },
        Err(e) => Err(e),
    }
}

/// `(("*" | "/") primary)*` after a left operand `node`, grouping to the left.
pub open spec fn spec_factor_rest(c: Seq<char>, node: ExprV, st: PState) -> Result<(ExprV, PState), ParseErrorV>
    decreases measure(c, st), 1int,
{
    if st.cur == TokenV::Star || st.cur == TokenV::Slash {
        match spec_eat(c, st, st.cur) {
            Ok(s1) => if measure(c, s1) < measure(c, st) {
                match spec_parse_primary(c, s1) {
                    Ok((r, s2)) => if measure(c, s2) <= measure(c, s1) {
                        spec_factor_rest(c, ExprV::Binary(Box::new(node), st.cur, Box::new(r)), s2)
                    } else {
                        Err(ParseErrorV::Stalled)
                    },
                    Err(e) => Err(e),
                }
            } else {
                Err(ParseErrorV::Stalled)
            },
            Err(e) => Err(e),
        }
    } else {
        Ok((node, st))
    }
}

/// `term`
pub open spec fn spec_parse_term(c: Seq<char>, st: PState) -> Result<(ExprV, PState), ParseErrorV>
    decreases measure(c, st), 4int,
{
    match spec_parse_factor(c, st) {
        Ok((node, s1)) => if measure(c, s1) <= measure(c, st) {
            spec_term_rest(c, node, s1)
        } else {
            Err(ParseErrorV::Stalled)
        },
        Err(e) => Err(e),
    }
}

/// `(("+" | "-") factor)*` after a left operand `node`, grouping to the left.
pub open spec fn spec_term_rest(c: Seq<char>, node: ExprV, st: PState) -> Result<(ExprV, PState), ParseErrorV>
    decreases measure(c, st), 3int,
{
    if st.cur == TokenV::Plus || st.cur == TokenV::Minus {
        match spec_eat(c, st, st.cur) {
            Ok(s1) => if measure(c, s1) < measure(c, st) {
                match spec_parse_factor(c, s1) {
                    Ok((r, s2)) => if measure(c, s2) <= measure(c, s1) {
                        spec_term_rest(c, ExprV::Binary(Box::new(node), st.cur, Box::new(r)), s2)
                    } else {
                        Err(ParseErrorV::Stalled)
                    },
                    Err(e) => Err(e),
                }
            } else {
                Err(ParseErrorV::Stalled)
            },
            Err(e) => Err(e),
        }
    } else {
        Ok((node, st))
    }
}

/// `expr`
pub open spec fn spec_parse_expr(c: Seq<char>, st: PState) -> Result<(ExprV, PState), ParseErrorV>
    decreases measure(c, st), 5int,
{
    spec_parse_term(c, st)
}

/// `statement`: dispatches on the first token.
#[verifier::opaque]
pub open spec fn spec_parse_statement(c: Seq<char>, st: PState) -> Result<(StmtV, PState), ParseErrorV>
    decreases measure(c, st), 7int,
{
    match st.cur {
        TokenV::Let => spec_parse_let(c, st),
        TokenV::If => spec_parse_if(c, st),
        TokenV::Return => spec_parse_return(c, st),
        TokenV::Ident(_) => spec_parse_ident_statement(c, st),
        _ => Err(ParseErrorV::UnknownStatement(st.cur)),
    }
}

/// `"let" IDENT ":" type "=" expr ";"`
pub open spec fn spec_parse_let(c: Seq<char>, st: PState) -> Result<(StmtV, PState), ParseErrorV>
    decreases measure(c, st), 6int,
{
    match spec_eat(c, st, TokenV::Let) {
        Ok(s1) => match s1.cur {
            TokenV::Ident(name) => match spec_eat(c, s1, s1.cur) {
                Ok(s2) => match spec_eat(c, s2, TokenV::Colon) {
                    Ok(s3) => match spec_parse_type(c, s3) {
                        Ok((ty, s4)) => match spec_eat(c, s4, TokenV::Assign) {
                            Ok(s5) => if measure(c, s5) < measure(c, st) {
                                match spec_parse_expr(c, s5) {
                                    Ok((e, s6)) => match spec_eat(c, s6, TokenV::Semi) {
                                        Ok(s7) => Ok((StmtV::Let(name, ty, e), s7)),
                                        Err(err) => Err(err),
                                    },
                                    Err(err) => Err(err),
                                }
                            } else {
                                Err(ParseErrorV::Stalled)
                            },
                            Err(err) => Err(err),
                        },
                        Err(err) => Err(err),
                    },
                    Err(err) => Err(err),
                },
                Err(err) => Err(err),
            },
            _ => Err(ParseErrorV::MissingVariableName),
        },
        Err(err) => Err(err),
    }
}

/// `"if" expr block ("else" (if-statement | block))?`
pub open spec fn spec_parse_if(c: Seq<char>, st: PState) -> Result<(StmtV, PState), ParseErrorV>
    decreases measure(c, st), 6int,
{
    match spec_eat(c, st, TokenV::If) {
        Ok(s1) => if measure(c, s1) < measure(c, st) {
            match spec_parse_expr(c, s1) {
                Ok((cond, s2)) => if measure(c, s2) < measure(c, st) {
                    match spec_parse_block(c, s2) {
                        Ok((then_b, s3)) => if s3.cur == TokenV::Else {
                            match spec_eat(c, s3, TokenV::Else) {
                                Ok(s4) => if measure(c, s4) < measure(c, st) {
                                    if s4.cur == TokenV::If {
                                        match spec_parse_statement(c, s4) {
                                            Ok((s, s5)) => Ok((StmtV::If(cond, then_b, Some(seq![s])), s5)),
                                            Err(err) => Err(err),
                                        }
                                    } else {
                                        match spec_parse_block(c, s4) {
                                            Ok((else_b, s5)) => Ok((StmtV::If(cond, then_b, Some(else_b)), s5)),
                                            Err(err) => Err(err),
                                        }
                                    }
                                } else {
                                    Err(ParseErrorV::Stalled)
                                },
                                Err(err) => Err(err),
                            }
                        } else {
                            Ok((StmtV::If(cond, then_b, None), s3))
                        },
                        Err(err) => Err(err),
                    }
                } else {
                    Err(ParseErrorV::Stalled)
                },
                Err(err) => Err(err),
            }
        } else {
            Err(ParseErrorV::Stalled)
        },
        Err(err) => Err(err),
    }
}

/// `"return" expr ";"`
pub open spec fn spec_parse_return(c: Seq<char>, st: PState) -> Result<(StmtV, PState), ParseErrorV>
    decreases measure(c, st), 6int,
{
    match spec_eat(c, st, TokenV::Return) {
        Ok(s1) => if measure(c, s1) < measure(c, st) {
            match spec_parse_expr(c, s1) {
                Ok((e, s2)) => match spec_eat(c, s2, TokenV::Semi) {
                    Ok(s3) => Ok((StmtV::Return(e), s3)),
                    Err(err) => Err(err),
                },
                Err(err) => Err(err),
            }
        } else {
            Err(ParseErrorV::Stalled)
        },
        Err(err) => Err(err),
    }
}

/// A statement that starts with a name: `IDENT "=" expr ";"` or `expr ";"`.
pub open spec fn spec_parse_ident_statement(c: Seq<char>, st: PState) -> Result<(StmtV, PState), ParseErrorV>
    decreases measure(c, st), 6int,
{
    match spec_parse_expr(c, st) {
        Ok((e, s1)) => if s1.cur == TokenV::Assign {
            match e {
                ExprV::Ident(name) => match spec_eat(c, s1, TokenV::Assign) {
                    Ok(s2) => if measure(c, s2) < measure(c, st) {
                        match spec_parse_expr(c, s2) {
                            Ok((v, s3)) => match spec_eat(c, s3, TokenV::Semi) {
                                Ok(s4) => Ok((StmtV::Assign(name, v), s4)),
                                Err(err) => Err(err),
                            },
                            Err(err) => Err(err),
                        }
                    } else {
                        Err(ParseErrorV::Stalled)
                    },
                    Err(err) => Err(err),
                },
                _ => Err(ParseErrorV::InvalidAssignment),
            }
        } else {
            match spec_eat(c, s1, TokenV::Semi) {
                Ok(s2) => Ok((StmtV::Expr(e), s2)),
                Err(err) => Err(err),
            }
        },
        Err(err) => Err(err),
    }
}

/// `statement*` up to a closing `}` (which stays unread), after the statements `acc`.
#[verifier::opaque]
pub open spec fn spec_parse_stmts(c: Seq<char>, acc: Seq<StmtV>, st: PState) -> Result<(Seq<StmtV>, PState), ParseErrorV>
    decreases measure(c, st), 8int,
{
    if st.cur == TokenV::RBrace {
        Ok((acc, st))
    } else {
        match spec_parse_statement(c, st) {
            Ok((s, s1)) => if measure(c, s1) < measure(c, st) {
                spec_parse_stmts(c, acc.push(s), s1)
            } else {
                Err(ParseErrorV::Stalled)
            },
            Err(e) => Err(e),
        }
    }
}

/// The closing `}` of a block after its statements.
pub open spec fn block_finish(c: Seq<char>, r: Result<(Seq<StmtV>, PState), ParseErrorV>) -> Result<(Seq<StmtV>, PState), ParseErrorV> {
    match r {
        Ok((stmts, s2)) => match spec_eat(c, s2, TokenV::RBrace) {
            Ok(s3) => Ok((stmts, s3)),
            Err(e) => Err(e),
        },
        Err(e) => Err(e),
    }
}

/// `block`
pub open spec fn spec_parse_block(c: Seq<char>, st: PState) -> Result<(Seq<StmtV>, PState), ParseErrorV>
    decreases measure(c, st), 9int,
{
    match spec_eat(c, st, TokenV::LBrace) {
        Ok(s1) => if measure(c, s1) < measure(c, st) {
            match spec_parse_stmts(c, Seq::empty(), s1) {
                Ok((stmts, s2)) => match spec_eat(c, s2, TokenV::RBrace) {
                    Ok(s3) => Ok((stmts, s3)),
                    Err(e) => Err(e),
                },
                Err(e) => Err(e),
            }
        } else {
            Err(ParseErrorV::Stalled)
        },
        Err(e) => Err(e),
    }
}

/// `IDENT ":" type ("," IDENT ":" type)*`, the parameters of a function, after
/// the parameters `acc` read so far.
pub open spec fn spec_parse_params(c: Seq<char>, acc: Seq<(Seq<char>, Type)>, st: PState) -> Result<(Seq<(Seq<char>, Type)>, PState), ParseErrorV>
    decreases measure(c, st),
{
    match st.cur {
        TokenV::Ident(name) => match spec_eat(c, st, st.cur) {
            Ok(s1) => match spec_eat(c, s1, TokenV::Colon) {
                Ok(s2) => match spec_parse_type(c, s2) {
                    Ok((ty, s3)) => if s3.cur == TokenV::Comma {
                        match spec_eat(c, s3, TokenV::Comma) {
                            Ok(s4) => if measure(c, s4) < measure(c, st) {
                                spec_parse_params(c, acc.push((name, ty)), s4)
                            } else {
                                Err(ParseErrorV::Stalled)
                            },
                            Err(e) => Err(e),
                        }
                    } else {
                        Ok((acc.push((name, ty)), s3))
                    },
                    Err(e) => Err(e),
                },
                Err(e) => Err(e),
            },
            Err(e) => Err(e),
        },
        _ => Err(ParseErrorV::MissingParameterName),
    }
}

/// The parameter list between the parentheses of a function header.
pub open spec fn spec_parse_param_list(c: Seq<char>, st: PState) -> Result<(Seq<(Seq<char>, Type)>, PState), ParseErrorV> {
    if st.cur != TokenV::RParen {
        spec_parse_params(c, Seq::empty(), st)
    } else {
        Ok((Seq::empty(), st))
    }
}

/// The optional `"->" type` of a function header; `int` when absent.
pub open spec fn spec_parse_ret_type(c: Seq<char>, st: PState) -> Result<(Type, PState), ParseErrorV> {
    if st.cur == TokenV::Arrow {
        match spec_eat(c, st, TokenV::Arrow) {
            Ok(s1) => spec_parse_type(c, s1),
            Err(e) => Err(e),
        }
    } else {
        Ok((Type::Int, st))
    }
}

/// `function`
#[verifier::opaque]
pub open spec fn spec_parse_function(c: Seq<char>, st: PState) -> Result<(FunctionV, PState), ParseErrorV> {
    match spec_eat(c, st, TokenV::Fn) {
        Ok(s1) => match s1.cur {
            TokenV::Ident(name) => match spec_eat(c, s1, s1.cur) {
                Ok(s2) => match spec_eat(c, s2, TokenV::LParen) {
                    Ok(s3) => match spec_parse_param_list(c, s3) {
                        Ok((args, s4)) => match spec_eat(c, s4, TokenV::RParen) {
                            Ok(s5) => match spec_parse_ret_type(c, s5) {
                                Ok((ret_type, s7)) => match spec_parse_block(c, s7) {
                                    Ok((body, s8)) => Ok((FunctionV { name, args, ret_type, body }, s8)),
                                    Err(e) => Err(e),
                                },
                                Err(e) => Err(e),
                            },
                            Err(e) => Err(e),
                        },
                        Err(e) => Err(e),
                    },
                    Err(e) => Err(e),
                },
                Err(e) => Err(e),
            },
            _ => Err(ParseErrorV::MissingFunctionName),
        },
        Err(e) => Err(e),
    }
}

/// `program`: functions up to the end of input, after the functions `acc`.
pub open spec fn spec_parse_program(c: Seq<char>, acc: Seq<FunctionV>, st: PState) -> Result<Seq<FunctionV>, ParseErrorV>
    decreases measure(c, st),
{
    if st.cur == TokenV::EOF {
        Ok(acc)
    } else {
        match spec_parse_function(c, st) {
            Ok((f, s1)) => if measure(c, s1) < measure(c, st) {
                spec_parse_program(c, acc.push(f), s1)
            } else {
                Err(ParseErrorV::Stalled)
            },
            Err(e) => Err(e),
        }
    }
}

/// The whole front half: lex the first token, then parse a program.
pub open spec fn spec_parse_source(c: Seq<char>) -> Result<Seq<FunctionV>, ParseErrorV> {
    match lex_step(c, 0) {
        Ok((t, q)) => spec_parse_program(c, Seq::empty(), PState { pos: q, cur: t }),
        Err(e) => Err(ParseErrorV::Lex(e)),
    }
}


// ---------------------------------------------------------------------------
// Facts about the specification
// ---------------------------------------------------------------------------

/// A state whose position lies within the input.
pub open spec fn state_wf(c: Seq<char>, st: PState) -> bool {
    0 <= st.pos <= c.len() + 1
}

/// Eating a token other than end of input always shrinks the measure.
pub proof fn lemma_eat_shrinks(c: Seq<char>, st: PState, expected: TokenV)
    requires
        state_wf(c, st),
        expected != TokenV::EOF,
    ensures
        spec_eat(c, st, expected) matches Ok(s1) ==> state_wf(c, s1) && measure(c, s1) < measure(c, st),
{
    lemma_lex_step_advances(c, st.pos);
}

/// How a statement is dispatched on its first token.
pub proof fn lemma_statement_dispatch(c: Seq<char>, st: PState)
    ensures
        st.cur == TokenV::Let ==> spec_parse_statement(c, st) == spec_parse_let(c, st),
        st.cur == TokenV::If ==> spec_parse_statement(c, st) == spec_parse_if(c, st),
        st.cur == TokenV::Return ==> spec_parse_statement(c, st) == spec_parse_return(c, st),
        st.cur is Ident ==> spec_parse_statement(c, st) == spec_parse_ident_statement(c, st),
        !(st.cur == TokenV::Let || st.cur == TokenV::If || st.cur == TokenV::Return || st.cur is Ident)
            ==> spec_parse_statement(c, st) == Err::<(StmtV, PState), ParseErrorV>(ParseErrorV::UnknownStatement(st.cur)),
{
    reveal(spec_parse_statement);
    match st.cur {
        TokenV::Let => {},
        TokenV::If => {},
        TokenV::Return => {},
        TokenV::Ident(_) => {},
        _ => {},
    }
}

/// One step of the statement loop of a block.
pub proof fn lemma_stmts_step(c: Seq<char>, acc: Seq<StmtV>, st: PState, s: StmtV, st1: PState)
    requires
        st.cur != TokenV::RBrace,
        spec_parse_statement(c, st) == Ok::<(StmtV, PState), ParseErrorV>((s, st1)),
        measure(c, st1) < measure(c, st),
    ensures
        spec_parse_stmts(c, acc, st) == spec_parse_stmts(c, acc.push(s), st1),
{
    reveal(spec_parse_stmts);
    reveal(spec_parse_statement);
}

/// A failed statement fails the statement loop.
pub proof fn lemma_stmts_fail(c: Seq<char>, acc: Seq<StmtV>, st: PState, e: ParseErrorV)
    requires
        st.cur != TokenV::RBrace,
        spec_parse_statement(c, st) == Err::<(StmtV, PState), ParseErrorV>(e),
    ensures
        spec_parse_stmts(c, acc, st) == Err::<(Seq<StmtV>, PState), ParseErrorV>(e),
{
    reveal(spec_parse_stmts);
    reveal(spec_parse_statement);
}

/// The statement loop ends at `}`.
pub proof fn lemma_stmts_done(c: Seq<char>, acc: Seq<StmtV>, st: PState)
    requires
        st.cur == TokenV::RBrace,
    ensures
        spec_parse_stmts(c, acc, st) == Ok::<(Seq<StmtV>, PState), ParseErrorV>((acc, st)),
{
    reveal(spec_parse_stmts);
}

/// A block after its opening brace.
pub proof fn lemma_block_body(c: Seq<char>, st: PState, s1: PState)
    requires
        spec_eat(c, st, TokenV::LBrace) == Ok::<PState, ParseErrorV>(s1),
        measure(c, s1) < measure(c, st),
    ensures
        spec_parse_block(c, st) == block_finish(c, spec_parse_stmts(c, Seq::empty(), s1)),
{
    reveal(spec_parse_stmts);
}

/// The outcome of parsing an expression, compared with the specification.
pub open spec fn expr_outcome(r: Result<Expr, ParseError>, s: Result<(ExprV, PState), ParseErrorV>, after: PState) -> bool {
    match s {
        Ok((e, st)) => r matches Ok(x) && x@ == e && after == st,
        Err(err) => r matches Err(x) && x@ == err,
    }
}

/// The outcome of parsing a list of expressions.
pub open spec fn exprs_outcome(r: Result<Vec<Expr>, ParseError>, s: Result<(Seq<ExprV>, PState), ParseErrorV>, after: PState) -> bool {
    match s {
        Ok((e, st)) => r matches Ok(x) && exprs_view(x@) == e && after == st,
        Err(err) => r matches Err(x) && x@ == err,
    }
}

/// The outcome of parsing a statement.
pub open spec fn stmt_outcome(r: Result<Stmt, ParseError>, s: Result<(StmtV, PState), ParseErrorV>, after: PState) -> bool {
    match s {
        Ok((e, st)) => r matches Ok(x) && x@ == e && after == st,
        Err(err) => r matches Err(x) && x@ == err,
    }
}

/// The outcome of parsing a block.
pub open spec fn stmts_outcome(r: Result<Vec<Stmt>, ParseError>, s: Result<(Seq<StmtV>, PState), ParseErrorV>, after: PState) -> bool {
    match s {
        Ok((e, st)) => r matches Ok(x) && stmts_view(x@) == e && after == st,
        Err(err) => r matches Err(x) && x@ == err,
    }
}

/// The outcome of parsing a type annotation.
pub open spec fn type_outcome(r: Result<Type, ParseError>, s: Result<(Type, PState), ParseErrorV>, after: PState) -> bool {
    match s {
        Ok((e, st)) => r matches Ok(x) && x == e && after == st,
        Err(err) => r matches Err(x) && x@ == err,
    }
}

/// The outcome of parsing a function.
pub open spec fn function_outcome(r: Result<Function, ParseError>, s: Result<(FunctionV, PState), ParseErrorV>, after: PState) -> bool {
    match s {
        Ok((e, st)) => r matches Ok(x) && x@ == e && after == st,
        Err(err) => r matches Err(x) && x@ == err,
    }
}

// ---------------------------------------------------------------------------
// The parser
// ---------------------------------------------------------------------------

/// The parser: a lexer and the current (look-ahead) token.
pub struct Parser {
    pub lexer: Lexer,
    pub current: Token,
}

impl Parser {
    /// The parser's invariant.
    pub open spec fn wf(&self) -> bool {
        self.lexer.wf()
    }

    /// The source characters.
    pub open spec fn chars(&self) -> Seq<char> {
        self.lexer.chars@
    }

    /// The parser's state.
    pub open spec fn state(&self) -> PState {
        PState { pos: self.lexer.pos as int, cur: self.current@ }
    }

    /// A parser whose current token is the lexer's first token.
    /// Returns the error that rejects the input instead of aborting.
    pub fn try_new(lexer: Lexer) -> (r: Result<Parser, ParseError>)
        requires
            lexer.wf(),
        ensures
            match lex_step(lexer.chars@, lexer.pos as int) {
                Ok((t, q)) => r matches Ok(p) && p.wf() && p.chars() == lexer.chars@ && p.state() == (PState { pos: q, cur: t }),
                Err(e) => r matches Err(x) && x@ == ParseErrorV::Lex(e),
            },
    {
        let mut lexer = lexer;
        match lexer.try_next_token() {
            Ok(current) => Ok(Parser { lexer, current }),
            Err(e) => Err(ParseError::Lex(e)),
        }
    }

    /// Consumes the current token, which must be `expected`.
    /// Returns the error that rejects the input instead of aborting.
    pub fn try_eat(&mut self, expected: Token) -> (r: Result<(), ParseError>)
        requires
            old(self).wf(),
        ensures
            final(self).wf(),
            final(self).chars() == old(self).chars(),
            match spec_eat(old(self).chars(), old(self).state(), expected@) {
                Ok(st) => r is Ok && final(self).state() == st,
                Err(e) => r matches Err(x) && x@ == e,
            },
            r is Ok && expected@ != TokenV::EOF ==> measure(old(self).chars(), final(self).state()) < measure(old(self).chars(), old(self).state()),
    {
        proof {
            if expected@ != TokenV::EOF {
                lemma_eat_shrinks(self.chars(), self.state(), expected@);
            }
        }
        if self.current.same(&expected) {
            match self.lexer.try_next_token() {
                Ok(t) => {
                    self.current = t;
                    Ok(())
                },
                Err(e) => Err(ParseError::Lex(e)),
            }
        } else {
            Err(ParseError::Unexpected { expected, found: self.current.duplicate() })
        }
    }

    fn current_is(&self, t: &Token) -> (r: bool)
        ensures
            r == (self.current@ == t@),
    {
        self.current.same(t)
    }

    /// `program := function*` up to the end of input.
    /// Returns the error that rejects the input instead of aborting.
    pub fn try_parse_program(&mut self) -> (r: Result<Vec<Function>, ParseError>)
        requires
            old(self).wf(),
        ensures
            final(self).wf(),
            final(self).chars() == old(self).chars(),
            r is Ok ==> final(self).current@ == TokenV::EOF,
            r matches Ok(x) ==> forall|i: int| 0 <= i < x@.len() ==> stmts_wf(#[trigger] x@[i]@.body),
            match spec_parse_program(old(self).chars(), Seq::empty(), old(self).state()) {
                Ok(fs) => r matches Ok(x) && program_view(x@) == fs,
                Err(e) => r matches Err(x) && x@ == e,
            },
    {
        let ghost c = self.chars();
        let ghost st0 = self.state();
        let mut funcs: Vec<Function> = Vec::new();
        assert(program_view(funcs@) =~= Seq::<FunctionV>::empty());
        while !self.current.is_eof()
            invariant
                self.wf(),
                self.chars() == c,
                c == old(self).chars(),
                st0 == old(self).state(),
                spec_parse_program(c, Seq::empty(), st0) == spec_parse_program(c, program_view(funcs@), self.state()),
                forall|i: int| 0 <= i < funcs@.len() ==> stmts_wf(#[trigger] funcs@[i]@.body),
            decreases measure(c, self.state()),
        {
            let ghost before = self.state();
            let f = match self.try_parse_function() {
                Ok(f) => f,
                Err(e) => return Err(e),
            };
            let ghost prev = funcs@;
            funcs.push(f);
            assert(funcs@ =~= prev.push(f));
            assert(program_view(funcs@) =~= program_view(prev).push(f@));
        }
        Ok(funcs)
    }

    /// `function := "fn" IDENT "(" params? ")" ("->" type)? block`
    /// Returns the error that rejects the input instead of aborting.
    pub fn try_parse_function(&mut self) -> (r: Result<Function, ParseError>)
        requires
            old(self).wf(),
        ensures
            r matches Ok(x) ==> stmts_wf(x@.body),
            final(self).wf(),
            final(self).chars() == old(self).chars(),
            function_outcome(r, spec_parse_function(old(self).chars(), old(self).state()), final(self).state()),
            r is Ok ==> measure(old(self).chars(), final(self).state()) < measure(old(self).chars(), old(self).state()),
    {
        reveal(spec_parse_function);
        if let Err(e) = self.try_eat(Token::Fn) {
            return Err(e);
        }
        let name = match self.current.duplicate() {
            Token::Ident(n) => {
                if let Err(e) = self.try_eat(Token::Ident(n.clone())) {
                    return Err(e);
                }
                n
            },
            _ => return Err(ParseError::MissingFunctionName),
        };
        if let Err(e) = self.try_eat(Token::LParen) {
            return Err(e);
        }
        let args = match self.parse_param_list() {
            Ok(a) => a,
            Err(e) => return Err(e),
        };
        if let Err(e) = self.try_eat(Token::RParen) {
            return Err(e);
        }
        let ret_type = match self.parse_ret_type() {
            Ok(t) => t,
            Err(e) => return Err(e),
        };
        let body = match self.try_parse_block() {
            Ok(b) => b,
            Err(e) => return Err(e),
        };
        Ok(Function { name, args, ret_type, body })
    }

    /// The optional `"->" type` of a function header.
    fn parse_ret_type(&mut self) -> (r: Result<Type, ParseError>)
        requires
            old(self).wf(),
        ensures
            final(self).wf(),
            final(self).chars() == old(self).chars(),
            type_outcome(r, spec_parse_ret_type(old(self).chars(), old(self).state()), final(self).state()),
            r is Ok ==> measure(old(self).chars(), final(self).state()) <= measure(old(self).chars(), old(self).state()),
    {
        if self.current_is(&Token::Arrow) {
            if let Err(e) = self.try_eat(Token::Arrow) {
                return Err(e);
            }
            self.try_parse_type()
        } else {
            Ok(Type::Int)
        }
    }

    /// The parameters between the parentheses of a function header.
    fn parse_param_list(&mut self) -> (r: Result<Vec<(String, Type)>, ParseError>)
        requires
            old(self).wf(),
        ensures
            final(self).wf(),
            final(self).chars() == old(self).chars(),
            match spec_parse_param_list(old(self).chars(), old(self).state()) {
                Ok((ps, st)) => r matches Ok(x) && params_view(x@) == ps && final(self).state() == st,
                Err(e) => r matches Err(x) && x@ == e,
            },
            r is Ok ==> measure(old(self).chars(), final(self).state()) <= measure(old(self).chars(), old(self).state()),
    {
        let ghost c = self.chars();
        let ghost st0 = self.state();
        let mut args: Vec<(String, Type)> = Vec::new();
        assert(params_view(args@) =~= Seq::<(Seq<char>, Type)>::empty());
        if self.current_is(&Token::RParen) {
            return Ok(args);
        }
        let mut more = true;
        while more
            invariant
                self.wf(),
                self.chars() == c,
                c == old(self).chars(),
                st0 == old(self).state(),
                st0.cur != TokenV::RParen,
                measure(c, self.state()) <= measure(c, st0),
                more ==> spec_parse_params(c, Seq::empty(), st0) == spec_parse_params(c, params_view(args@), self.state()),
                !more ==> spec_parse_params(c, Seq::empty(), st0) == Ok::<(Seq<(Seq<char>, Type)>, PState), ParseErrorV>((params_view(args@), self.state())),
            decreases measure(c, self.state()), if more { 1int } else { 0int },
        {
            let arg_name = match self.current.duplicate() {
                Token::Ident(n) => {
                    if let Err(e) = self.try_eat(Token::Ident(n.clone())) {
                        return Err(e);
                    }
                    n
                },
                _ => return Err(ParseError::MissingParameterName),
            };
            if let Err(e) = self.try_eat(Token::Colon) {
                return Err(e);
            }
            let arg_ty = match self.try_parse_type() {
                Ok(t) => t,
                Err(e) => return Err(e),
            };
            let ghost prev = args@;
            args.push((arg_name, arg_ty));
            assert(params_view(args@) =~= params_view(prev).push((arg_name@, arg_ty)));
            if self.current_is(&Token::Comma) {
                if let Err(e) = self.try_eat(Token::Comma) {
                    return Err(e);
                }
            } else {
                more = false;
            }
        }
        Ok(args)
    }

    /// `type := "int" | "str"`
    /// Returns the error that rejects the input instead of aborting.
    pub fn try_parse_type(&mut self) -> (r: Result<Type, ParseError>)
        requires
            old(self).wf(),
        ensures
            final(self).wf(),
            final(self).chars() == old(self).chars(),
            type_outcome(r, spec_parse_type(old(self).chars(), old(self).state()), final(self).state()),
            r is Ok ==> measure(old(self).chars(), final(self).state()) < measure(old(self).chars(), old(self).state()),
    {
        if self.current_is(&Token::IntType) {
            match self.try_eat(Token::IntType) {
                Ok(()) => Ok(Type::Int),
                Err(e) => Err(e),
            }
        } else if self.current_is(&Token::StrType) {
            match self.try_eat(Token::StrType) {
                Ok(()) => Ok(Type::Str),
                Err(e) => Err(e),
            }
        } else {
            Err(ParseError::MissingType)
        }
    }

    /// `block := "{" statement* "}"`
    /// Returns the error that rejects the input instead of aborting.
    pub fn try_parse_block(&mut self) -> (r: Result<Vec<Stmt>, ParseError>)
        requires
            old(self).wf(),
        ensures
            r matches Ok(x) ==> stmts_wf(stmts_view(x@)),
            final(self).wf(),
            final(self).chars() == old(self).chars(),
            stmts_outcome(r, spec_parse_block(old(self).chars(), old(self).state()), final(self).state()),
            r is Ok ==> measure(old(self).chars(), final(self).state()) < measure(old(self).chars(), old(self).state()),
        decreases measure(old(self).chars(), old(self).state()), 9int,
    {
        let ghost c = self.chars();
        let ghost st0 = self.state();
        if let Err(e) = self.try_eat(Token::LBrace) {
            return Err(e);
        }
        let ghost s1 = self.state();
        proof {
            lemma_block_body(c, st0, s1);
        }
        let mut stmts: Vec<Stmt> = Vec::new();
        assert(stmts_view(stmts@) =~= Seq::<StmtV>::empty());
        proof {
            lemma_stmts_wf_push(Seq::<StmtV>::empty(), StmtV::Return(ExprV::Number(0)));
        }
        while !self.current_is(&Token::RBrace)
            invariant
                self.wf(),
                self.chars() == c,
                c == old(self).chars(),
                st0 == old(self).state(),
                measure(c, s1) < measure(c, st0),
                measure(c, self.state()) <= measure(c, s1),
                spec_parse_block(c, st0) == block_finish(c, spec_parse_stmts(c, Seq::empty(), s1)),
                spec_parse_stmts(c, Seq::empty(), s1) == spec_parse_stmts(c, stmts_view(stmts@), self.state()),
                stmts_wf(stmts_view(stmts@)),
            decreases measure(c, self.state()),
        {
            let ghost sb = self.state();
            let r = self.try_parse_statement();
            let s = match r {
                Ok(s) => s,
                Err(e) => {
                    proof {
                        lemma_stmts_fail(c, stmts_view(stmts@), sb, e@);
                    }
                    return Err(e);
                },
            };
            let ghost prev = stmts@;
            proof {
                lemma_stmts_step(c, stmts_view(prev), sb, s@, self.state());
                lemma_stmts_view_push(prev, s);
                lemma_stmts_wf_push(stmts_view(prev), s@);
            }
            stmts.push(s);
        }
        proof {
            lemma_stmts_done(c, stmts_view(stmts@), self.state());
        }
        if let Err(e) = self.try_eat(Token::RBrace) {
            return Err(e);
        }
        Ok(stmts)
    }

    /// `statement`
    /// Returns the error that rejects the input instead of aborting.
    pub fn try_parse_statement(&mut self) -> (r: Result<Stmt, ParseError>)
        requires
            old(self).wf(),
        ensures
            r matches Ok(x) ==> stmt_wf(x@),
            final(self).wf(),
            final(self).chars() == old(self).chars(),
            stmt_outcome(r, spec_parse_statement(old(self).chars(), old(self).state()), final(self).state()),
            r is Ok ==> measure(old(self).chars(), final(self).state()) < measure(old(self).chars(), old(self).state()),
        decreases measure(old(self).chars(), old(self).state()), 7int,
    {
        proof {
            lemma_statement_dispatch(self.chars(), self.state());
        }
        if self.current_is(&Token::Let) {
            self.parse_let()
        } else if self.current_is(&Token::If) {
            self.parse_if()
        } else if self.current_is(&Token::Return) {
            self.parse_return()
        } else if self.current_is_ident() {
            self.parse_ident_statement()
        } else {
            Err(ParseError::UnknownStatement(self.current.duplicate()))
        }
    }

    fn current_is_ident(&self) -> (r: bool)
        ensures
            r == (self.current@ is Ident),
    {
        match self.current {
            Token::Ident(_) => true,
            _ => false,
        }
    }

    fn parse_let(&mut self) -> (r: Result<Stmt, ParseError>)
        requires
            old(self).wf(),
            old(self).current@ == TokenV::Let,
        ensures
            r matches Ok(x) ==> stmt_wf(x@),
            final(self).wf(),
            final(self).chars() == old(self).chars(),
            stmt_outcome(r, spec_parse_let(old(self).chars(), old(self).state()), final(self).state()),
            r is Ok ==> measure(old(self).chars(), final(self).state()) < measure(old(self).chars(), old(self).state()),
        decreases measure(old(self).chars(), old(self).state()), 6int,
    {
        if let Err(e) = self.try_eat(Token::Let) {
            return Err(e);
        }
        let name = match self.current.duplicate() {
            Token::Ident(n) => {
                if let Err(e) = self.try_eat(Token::Ident(n.clone())) {
                    return Err(e);
                }
                n
            },
            _ => return Err(ParseError::MissingVariableName),
        };
        if let Err(e) = self.try_eat(Token::Colon) {
            return Err(e);
        }
        let ty = match self.try_parse_type() {
            Ok(t) => t,
            Err(e) => return Err(e),
        };
        if let Err(e) = self.try_eat(Token::Assign) {
            return Err(e);
        }
        let expr = match self.try_parse_expr() {
            Ok(e) => e,
            Err(e) => return Err(e),
        };
        if let Err(e) = self.try_eat(Token::Semi) {
            return Err(e);
        }
        Ok(Stmt::Let(name, ty, expr))
    }

    fn parse_if(&mut self) -> (r: Result<Stmt, ParseError>)
        requires
            old(self).wf(),
            old(self).current@ == TokenV::If,
        ensures
            r matches Ok(x) ==> stmt_wf(x@),
            final(self).wf(),
            final(self).chars() == old(self).chars(),
            stmt_outcome(r, spec_parse_if(old(self).chars(), old(self).state()), final(self).state()),
            r is Ok ==> measure(old(self).chars(), final(self).state()) < measure(old(self).chars(), old(self).state()),
        decreases measure(old(self).chars(), old(self).state()), 6int,
    {
        reveal(spec_parse_statement);
        if let Err(e) = self.try_eat(Token::If) {
            return Err(e);
        }
        let cond = match self.try_parse_expr() {
            Ok(e) => e,
            Err(e) => return Err(e),
        };
        let then_block = match self.try_parse_block() {
            Ok(b) => b,
            Err(e) => return Err(e),
        };
        if !self.current_is(&Token::Else) {
            return Ok(Stmt::If(cond, then_block, None));
        }
        if let Err(e) = self.try_eat(Token::Else) {
            return Err(e);
        }
        if self.current_is(&Token::If) {
            let s = match self.try_parse_statement() {
                Ok(s) => s,
                Err(e) => return Err(e),
            };
            let v = vec![s];
            proof {
                assert(Seq::<Stmt>::empty().push(s) =~= v@);
                lemma_stmts_view_push(Seq::<Stmt>::empty(), s);
                assert(stmts_view(Seq::<Stmt>::empty()) =~= Seq::<StmtV>::empty());
                assert(Seq::<StmtV>::empty().push(s@) =~= seq![s@]);
                lemma_stmts_wf_push(Seq::<StmtV>::empty(), s@);
            }
            Ok(Stmt::If(cond, then_block, Some(v)))
        } else {
            let b = match self.try_parse_block() {
                Ok(b) => b,
                Err(e) => return Err(e),
            };
            Ok(Stmt::If(cond, then_block, Some(b)))
        }
    }

    fn parse_return(&mut self) -> (r: Result<Stmt, ParseError>)
        requires
            old(self).wf(),
            old(self).current@ == TokenV::Return,
        ensures
            r matches Ok(x) ==> stmt_wf(x@),
            final(self).wf(),
            final(self).chars() == old(self).chars(),
            stmt_outcome(r, spec_parse_return(old(self).chars(), old(self).state()), final(self).state()),
            r is Ok ==> measure(old(self).chars(), final(self).state()) < measure(old(self).chars(), old(self).state()),
        decreases measure(old(self).chars(), old(self).state()), 6int,
    {
        if let Err(e) = self.try_eat(Token::Return) {
            return Err(e);
        }
        let expr = match self.try_parse_expr() {
            Ok(e) => e,
            Err(e) => return Err(e),
        };
        if let Err(e) = self.try_eat(Token::Semi) {
            return Err(e);
        }
        Ok(Stmt::Return(expr))
    }

    fn parse_ident_statement(&mut self) -> (r: Result<Stmt, ParseError>)
        requires
            old(self).wf(),
        ensures
            r matches Ok(x) ==> stmt_wf(x@),
            final(self).wf(),
            final(self).chars() == old(self).chars(),
            stmt_outcome(r, spec_parse_ident_statement(old(self).chars(), old(self).state()), final(self).state()),
            r is Ok ==> measure(old(self).chars(), final(self).state()) < measure(old(self).chars(), old(self).state()),
        decreases measure(old(self).chars(), old(self).state()), 6int,
    {
        let expr = match self.try_parse_expr() {
            Ok(e) => e,
            Err(e) => return Err(e),
        };
        if self.current_is(&Token::Assign) {
            match expr {
                Expr::Ident(name) => {
                    if let Err(e) = self.try_eat(Token::Assign) {
                        return Err(e);
                    }
                    let val = match self.try_parse_expr() {
                        Ok(e) => e,
                        Err(e) => return Err(e),
                    };
                    if let Err(e) = self.try_eat(Token::Semi) {
                        return Err(e);
                    }
                    return Ok(Stmt::Assign(name, val));
                },
                _ => return Err(ParseError::InvalidAssignment),
            }
        }
        if let Err(e) = self.try_eat(Token::Semi) {
            return Err(e);
        }
        Ok(Stmt::Expr(expr))
    }

    /// `expr := term`
    /// Returns the error that rejects the input instead of aborting.
    pub fn try_parse_expr(&mut self) -> (r: Result<Expr, ParseError>)
        requires
            old(self).wf(),
        ensures
            r matches Ok(x) ==> expr_wf(x@),
            final(self).wf(),
            final(self).chars() == old(self).chars(),
            expr_outcome(r, spec_parse_expr(old(self).chars(), old(self).state()), final(self).state()),
            r is Ok ==> measure(old(self).chars(), final(self).state()) < measure(old(self).chars(), old(self).state()),
        decreases measure(old(self).chars(), old(self).state()), 5int,
    {
        self.try_parse_term()
    }

    fn current_is_additive(&self) -> (r: bool)
        ensures
            r == (self.current@ == TokenV::Plus || self.current@ == TokenV::Minus),
    {
        match self.current {
            Token::Plus => true,
            Token::Minus => true,
            _ => false,
        }
    }

    fn current_is_multiplicative(&self) -> (r: bool)
        ensures
            r == (self.current@ == TokenV::Star || self.current@ == TokenV::Slash),
    {
        match self.current {
            Token::Star => true,
            Token::Slash => true,
            _ => false,
        }
    }

    /// `term := factor (("+" | "-") factor)*`, grouping to the left.
    /// Returns the error that rejects the input instead of aborting.
    pub fn try_parse_term(&mut self) -> (r: Result<Expr, ParseError>)
        requires
            old(self).wf(),
        ensures
            r matches Ok(x) ==> expr_wf(x@),
            final(self).wf(),
            final(self).chars() == old(self).chars(),
            expr_outcome(r, spec_parse_term(old(self).chars(), old(self).state()), final(self).state()),
            r is Ok ==> measure(old(self).chars(), final(self).state()) < measure(old(self).chars(), old(self).state()),
        decreases measure(old(self).chars(), old(self).state()), 4int,
    {
        let ghost c = self.chars();
        let ghost st0 = self.state();
        let mut node = match self.try_parse_factor() {
            Ok(n) => n,
            Err(e) => return Err(e),
        };
        while self.current_is_additive()
            invariant
                self.wf(),
                self.chars() == c,
                c == old(self).chars(),
                st0 == old(self).state(),
                measure(c, self.state()) < measure(c, st0),
                spec_parse_term(c, st0) == spec_term_rest(c, node@, self.state()),
                expr_wf(node@),
            decreases measure(c, self.state()),
        {
            let op = self.current.duplicate();
            if let Err(e) = self.try_eat(op.duplicate()) {
                return Err(e);
            }
            let right = match self.try_parse_factor() {
                Ok(n) => n,
                Err(e) => return Err(e),
            };
            node = Expr::Binary(Box::new(node), op, Box::new(right));
        }
        Ok(node)
    }

    /// `factor := primary (("*" | "/") primary)*`, grouping to the left.
    /// Returns the error that rejects the input instead of aborting.
    pub fn try_parse_factor(&mut self) -> (r: Result<Expr, ParseError>)
        requires
            old(self).wf(),
        ensures
            r matches Ok(x) ==> expr_wf(x@),
            final(self).wf(),
            final(self).chars() == old(self).chars(),
            expr_outcome(r, spec_parse_factor(old(self).chars(), old(self).state()), final(self).state()),
            r is Ok ==> measure(old(self).chars(), final(self).state()) < measure(old(self).chars(), old(self).state()),
        decreases measure(old(self).chars(), old(self).state()), 2int,
    {
        let ghost c = self.chars();
        let ghost st0 = self.state();
        let mut node = match self.try_parse_primary() {
            Ok(n) => n,
            Err(e) => return Err(e),
        };
        while self.current_is_multiplicative()
            invariant
                self.wf(),
                self.chars() == c,
                c == old(self).chars(),
                st0 == old(self).state(),
                measure(c, self.state()) < measure(c, st0),
                spec_parse_factor(c, st0) == spec_factor_rest(c, node@, self.state()),
                expr_wf(node@),
            decreases measure(c, self.state()),
        {
            let op = self.current.duplicate();
            if let Err(e) = self.try_eat(op.duplicate()) {
                return Err(e);
            }
            let right = match self.try_parse_primary() {
                Ok(n) => n,
                Err(e) => return Err(e),
            };
            node = Expr::Binary(Box::new(node), op, Box::new(right));
        }
        Ok(node)
    }

    /// `primary := NUMBER | STRING | IDENT ("(" args? ")")? | "(" expr ")"`
    /// Returns the error that rejects the input instead of aborting.
    pub fn try_parse_primary(&mut self) -> (r: Result<Expr, ParseError>)
        requires
            old(self).wf(),
        ensures
            r matches Ok(x) ==> expr_wf(x@),
            final(self).wf(),
            final(self).chars() == old(self).chars(),
            expr_outcome(r, spec_parse_primary(old(self).chars(), old(self).state()), final(self).state()),
            r is Ok ==> measure(old(self).chars(), final(self).state()) < measure(old(self).chars(), old(self).state()),
        decreases measure(old(self).chars(), old(self).state()), 0int,
    {
        let ghost c = self.chars();
        let ghost st0 = self.state();
        match self.current.duplicate() {
            Token::Number(n) => match self.try_eat(Token::Number(n)) {
                Ok(()) => Ok(Expr::Number(n)),
                Err(e) => Err(e),
            },
            Token::StringLit(s) => {
                let lit = s.clone();
                match self.try_eat(Token::StringLit(s)) {
                    Ok(()) => Ok(Expr::StringLit(lit)),
                    Err(e) => Err(e),
                }
            },
            Token::Ident(name) => {
                if let Err(e) = self.try_eat(Token::Ident(name.clone())) {
                    return Err(e);
                }
                if self.current_is(&Token::LParen) {
                    if let Err(e) = self.try_eat(Token::LParen) {
                        return Err(e);
                    }
                    let mut args: Vec<Expr> = Vec::new();
                    proof {
                        assert(exprs_view(args@) =~= Seq::<ExprV>::empty());
                        lemma_exprs_wf_push(Seq::<ExprV>::empty(), ExprV::Number(0));
                    }
                    if !self.current_is(&Token::RParen) {
                        args = match self.parse_call_args() {
                            Ok(a) => a,
                            Err(e) => return Err(e),
                        };
                    }
                    if let Err(e) = self.try_eat(Token::RParen) {
                        return Err(e);
                    }
                    Ok(Expr::Call(name, args))
                } else {
                    Ok(Expr::Ident(name))
                }
            },
            Token::LParen => {
                if let Err(e) = self.try_eat(Token::LParen) {
                    return Err(e);
                }
                let expr = match self.try_parse_expr() {
                    Ok(e) => e,
                    Err(e) => return Err(e),
                };
                if let Err(e) = self.try_eat(Token::RParen) {
                    return Err(e);
                }
                Ok(expr)
            },
            other => Err(ParseError::ExpectedExpression(other)),
        }
    }

    /// `expr ("," expr)*`, the arguments of a call.
    fn parse_call_args(&mut self) -> (r: Result<Vec<Expr>, ParseError>)
        requires
            old(self).wf(),
        ensures
            r matches Ok(x) ==> exprs_wf(exprs_view(x@)),
            final(self).wf(),
            final(self).chars() == old(self).chars(),
            exprs_outcome(r, spec_parse_args(old(self).chars(), old(self).state()), final(self).state()),
            r is Ok ==> measure(old(self).chars(), final(self).state()) < measure(old(self).chars(), old(self).state()),
        decreases measure(old(self).chars(), old(self).state()), 7int,
    {
        let ghost c = self.chars();
        let ghost st0 = self.state();
        let first = match self.try_parse_expr() {
            Ok(e) => e,
            Err(e) => return Err(e),
        };
        let mut args: Vec<Expr> = Vec::new();
        args.push(first);
        proof {
            assert(Seq::<Expr>::empty().push(first) =~= args@);
            lemma_exprs_view_push(Seq::<Expr>::empty(), first);
            assert(exprs_view(Seq::<Expr>::empty()) =~= Seq::<ExprV>::empty());
            assert(Seq::<ExprV>::empty().push(first@) =~= seq![first@]);
            lemma_exprs_wf_push(Seq::<ExprV>::empty(), first@);
        }
        while self.current_is(&Token::Comma)
            invariant
                self.wf(),
                self.chars() == c,
                c == old(self).chars(),
                st0 == old(self).state(),
                measure(c, self.state()) < measure(c, st0),
                spec_parse_args(c, st0) == spec_args_rest(c, exprs_view(args@), self.state()),
                exprs_wf(exprs_view(args@)),
            decreases measure(c, self.state()),
        {
            if let Err(e) = self.try_eat(Token::Comma) {
                return Err(e);
            }
            let e = match self.try_parse_expr() {
                Ok(e) => e,
                Err(e) => return Err(e),
            };
            let ghost prev = args@;
            args.push(e);
            proof {
                lemma_exprs_view_push(prev, e);
                lemma_exprs_wf_push(exprs_view(prev), e@);
            }
        }
        Ok(args)
    }
}

impl Parser {
    /// A parser whose current token is the lexer's first token.  That token
    /// must lex: the parser aborts otherwise, and `try_new` reports why.
    pub fn new(lexer: Lexer) -> (p: Parser)
        requires
            lexer.wf(),
            lex_step(lexer.chars@, lexer.pos as int) is Ok,
        ensures
            p.wf(),
            p.chars() == lexer.chars@,
            p.state() == (PState {
                pos: lex_step(lexer.chars@, lexer.pos as int)->Ok_0.1,
                cur: lex_step(lexer.chars@, lexer.pos as int)->Ok_0.0,
            }),
    {
        Parser::try_new(lexer).unwrap()
    }

    /// Consumes the current token, which must be `expected` and be followed by
    /// a token that lexes: the parser aborts otherwise, and `try_eat` reports why.
    pub fn eat(&mut self, expected: Token)
        requires
            old(self).wf(),
            spec_eat(old(self).chars(), old(self).state(), expected@) is Ok,
        ensures
            final(self).wf(),
            final(self).chars() == old(self).chars(),
            final(self).state() == spec_eat(old(self).chars(), old(self).state(), expected@)->Ok_0,
    {
        self.try_eat(expected).unwrap()
    }

    /// `program := function*` up to the end of input.  The input must parse:
    /// the parser aborts otherwise, and `try_parse_program` reports why.
    pub fn parse_program(&mut self) -> (r: Vec<Function>)
        requires
            old(self).wf(),
            spec_parse_program(old(self).chars(), Seq::empty(), old(self).state()) is Ok,
        ensures
            final(self).wf(),
            final(self).chars() == old(self).chars(),
            final(self).current@ == TokenV::EOF,
            forall|i: int| 0 <= i < r@.len() ==> stmts_wf(#[trigger] r@[i]@.body),
            program_view(r@) == spec_parse_program(old(self).chars(), Seq::empty(), old(self).state())->Ok_0,
    {
        self.try_parse_program().unwrap()
    }

    /// `function := "fn" IDENT "(" params? ")" ("->" type)? block`. The input must parse here: the parser aborts otherwise, and
    /// `try_parse_function` reports why.
    pub fn parse_function(&mut self) -> (r: Function)
        requires
            old(self).wf(),
            spec_parse_function(old(self).chars(), old(self).state()) is Ok,
        ensures
            final(self).wf(),
            final(self).chars() == old(self).chars(),
            stmts_wf(r@.body),
            (r@, final(self).state()) == spec_parse_function(old(self).chars(), old(self).state())->Ok_0,
    {
        self.try_parse_function().unwrap()
    }

    /// `type := "int" | "str"`. The input must parse here: the parser aborts otherwise, and
    /// `try_parse_type` reports why.
    pub fn parse_type(&mut self) -> (r: Type)
        requires
            old(self).wf(),
            spec_parse_type(old(self).chars(), old(self).state()) is Ok,
        ensures
            final(self).wf(),
            final(self).chars() == old(self).chars(),
            
            (r, final(self).state()) == spec_parse_type(old(self).chars(), old(self).state())->Ok_0,
    {
        self.try_parse_type().unwrap()
    }

    /// `block := "{" statement* "}"`. The input must parse here: the parser aborts otherwise, and
    /// `try_parse_block` reports why.
    pub fn parse_block(&mut self) -> (r: Vec<Stmt>)
        requires
            old(self).wf(),
            spec_parse_block(old(self).chars(), old(self).state()) is Ok,
        ensures
            final(self).wf(),
            final(self).chars() == old(self).chars(),
            stmts_wf(stmts_view(r@)),
            (stmts_view(r@), final(self).state()) == spec_parse_block(old(self).chars(), old(self).state())->Ok_0,
    {
        self.try_parse_block().unwrap()
    }

    /// One statement. The input must parse here: the parser aborts otherwise, and
    /// `try_parse_statement` reports why.
    pub fn parse_statement(&mut self) -> (r: Stmt)
        requires
            old(self).wf(),
            spec_parse_statement(old(self).chars(), old(self).state()) is Ok,
        ensures
            final(self).wf(),
            final(self).chars() == old(self).chars(),
            stmt_wf(r@),
            (r@, final(self).state()) == spec_parse_statement(old(self).chars(), old(self).state())->Ok_0,
    {
        self.try_parse_statement().unwrap()
    }

    /// `expr := term`. The input must parse here: the parser aborts otherwise, and
    /// `try_parse_expr` reports why.
    pub fn parse_expr(&mut self) -> (r: Expr)
        requires
            old(self).wf(),
            spec_parse_expr(old(self).chars(), old(self).state()) is Ok,
        ensures
            final(self).wf(),
            final(self).chars() == old(self).chars(),
            expr_wf(r@),
            (r@, final(self).state()) == spec_parse_expr(old(self).chars(), old(self).state())->Ok_0,
    {
        self.try_parse_expr().unwrap()
    }

    /// `term := factor (("+" | "-") factor)*`, left associative. The input must parse here: the parser aborts otherwise, and
    /// `try_parse_term` reports why.
    pub fn parse_term(&mut self) -> (r: Expr)
        requires
            old(self).wf(),
            spec_parse_term(old(self).chars(), old(self).state()) is Ok,
        ensures
            final(self).wf(),
            final(self).chars() == old(self).chars(),
            expr_wf(r@),
            (r@, final(self).state()) == spec_parse_term(old(self).chars(), old(self).state())->Ok_0,
    {
        self.try_parse_term().unwrap()
    }

    /// `factor := primary (("*" | "/") primary)*`, left associative. The input must parse here: the parser aborts otherwise, and
    /// `try_parse_factor` reports why.
    pub fn parse_factor(&mut self) -> (r: Expr)
        requires
            old(self).wf(),
            spec_parse_factor(old(self).chars(), old(self).state()) is Ok,
        ensures
            final(self).wf(),
            final(self).chars() == old(self).chars(),
            expr_wf(r@),
            (r@, final(self).state()) == spec_parse_factor(old(self).chars(), old(self).state())->Ok_0,
    {
        self.try_parse_factor().unwrap()
    }

    /// A number, a string, a variable, a call or a parenthesised expression. The input must parse here: the parser aborts otherwise, and
    /// `try_parse_primary` reports why.
    pub fn parse_primary(&mut self) -> (r: Expr)
        requires
            old(self).wf(),
            spec_parse_primary(old(self).chars(), old(self).state()) is Ok,
        ensures
            final(self).wf(),
            final(self).chars() == old(self).chars(),
            expr_wf(r@),
            (r@, final(self).state()) == spec_parse_primary(old(self).chars(), old(self).state())->Ok_0,
    {
        self.try_parse_primary().unwrap()
    }

}

/// Parses a whole source text into functions.
pub fn parse_source(input: &str) -> (r: Result<Vec<Function>, ParseError>)
    requires
        input@.len() < usize::MAX,
    ensures
        r matches Ok(x) ==> forall|i: int| 0 <= i < x@.len() ==> stmts_wf(#[trigger] x@[i]@.body),
        match spec_parse_source(input@) {
            Ok(fs) => r matches Ok(x) && program_view(x@) == fs,
            Err(e) => r matches Err(x) && x@ == e,
        },
{
    let lexer = Lexer::new(input);
    let mut parser = match Parser::try_new(lexer) {
        Ok(p) => p,
        Err(e) => return Err(e),
    };
    parser.try_parse_program()
}

} // verus!
