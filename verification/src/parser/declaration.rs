//! The declaration and statement grammar: `var` and `fun` declarations,
//! `print`, blocks, `if`, `while`, the desugared `for`, `return`, and
//! expression statements.  Each executable parser is proved equal to its
//! specification mirror `sp_*`.

use vstd::prelude::*;

use crate::error::LoxError;
use crate::error::SpecLoxError;
use crate::grammar::Declaration;
use crate::grammar::Expression;
use crate::grammar::SpecDecl;
use crate::grammar::SpecExpr;
use crate::grammar::names_view;
use crate::grammar::sdecls;
use crate::grammar::lemma_sdecls_push;
use crate::parser::SpecParsed;
use crate::parser::cl;
use crate::parser::cls;
use crate::parser::matches_decl;
use crate::parser::sp_consume_err;
use crate::parser::expression::lemma_mid_token;
use crate::parser::expression::parse_expression;
use crate::parser::expression::sp_expression;
use crate::token::SpecToken;
use crate::token::SpecTokenType;
use crate::token::TokenType;
use crate::token::Tokens;
use crate::token::tokens_wf;

verus! {

/// The `Expected identifier, got LEX.` message.
pub open spec fn sp_ident_err(toks: Seq<SpecToken>, p: int) -> SpecLoxError {
    if 0 <= p < toks.len() {
        SpecLoxError {
            line: toks[p].line,
            message: "Expected identifier, got "@ + toks[p].lexeme + "."@,
        }
    } else {
        SpecLoxError { line: 0, message: Seq::<char>::empty() }
    }
}

/// The `Expected identifier, got LEX instead.` message of a `var`
/// declaration.
pub open spec fn sp_var_ident_err(toks: Seq<SpecToken>, p: int) -> SpecLoxError {
    if 0 <= p < toks.len() {
        SpecLoxError {
            line: toks[p].line,
            message: "Expected identifier, got "@ + toks[p].lexeme + " instead."@,
        }
    } else {
        SpecLoxError { line: 0, message: Seq::<char>::empty() }
    }
}

#[verifier::opaque]
pub open spec fn sp_declaration(toks: Seq<SpecToken>, pos: int) -> SpecParsed<Option<SpecDecl>>
    decreases toks.len() - pos, 30int,
    when 0 <= pos <= toks.len()
{
    let len = toks.len() as int;
    if pos >= len {
        SpecParsed { pos, out: Err(SpecLoxError { line: 0, message: Seq::<char>::empty() }) }
    } else if toks[pos].token_type == SpecTokenType::Eof {
        SpecParsed { pos: pos + 1, out: Ok(None) }
    } else if toks[pos].token_type == SpecTokenType::Var {
        let r = sp_var_declaration(toks, pos);
        SpecParsed {
            pos: r.pos,
            out: match r.out {
                Ok(d) => Ok(Some(d)),
                Err(e) => Err(e),
            },
        }
    } else if toks[pos].token_type == SpecTokenType::Fun {
        let r = sp_fun_declaration(toks, pos);
        SpecParsed {
            pos: r.pos,
            out: match r.out {
                Ok(d) => Ok(Some(d)),
                Err(e) => Err(e),
            },
        }
    } else {
        let r = sp_statement(toks, pos);
        SpecParsed {
            pos: r.pos,
            out: match r.out {
                Ok(d) => Ok(Some(d)),
                Err(e) => Err(e),
            },
        }
    }
}

#[verifier::opaque]
pub open spec fn sp_var_declaration(toks: Seq<SpecToken>, pos: int) -> SpecParsed<SpecDecl>
    decreases toks.len() - pos, 28int,
    when 0 <= pos <= toks.len()
{
    let len = toks.len() as int;
    if pos < len && toks[pos].token_type == SpecTokenType::Var {
        let p1 = pos + 1;
        if p1 < len && toks[p1].token_type is Identifier {
            let id = toks[p1].token_type->Identifier_0;
            let p2 = p1 + 1;
            if p2 < len && toks[p2].token_type == SpecTokenType::Equal {
                let r = sp_expression(toks, p2 + 1);
                let p3 = cl(len, p2 + 1, r.pos);
                match r.out {
                    Err(e) => SpecParsed { pos: p3, out: Err(e) },
                    Ok(e) => {
                        if p3 < len && toks[p3].token_type == SpecTokenType::Semicolon {
                            SpecParsed {
                                pos: p3 + 1,
                                out: Ok(SpecDecl::Var(id, Some(e))),
                            }
                        } else {
                            SpecParsed {
                                pos: p3,
                                out: Err(sp_consume_err(toks, p3, SpecTokenType::Semicolon)),
                            }
                        }
                    },
                }
            } else {
                if p2 < len && toks[p2].token_type == SpecTokenType::Semicolon {
                    SpecParsed { pos: p2 + 1, out: Ok(SpecDecl::Var(id, None)) }
                } else {
                    SpecParsed {
                        pos: p2,
                        out: Err(sp_consume_err(toks, p2, SpecTokenType::Semicolon)),
                    }
                }
            }
        } else {
            SpecParsed { pos: p1, out: Err(sp_var_ident_err(toks, p1)) }
        }
    } else {
        SpecParsed { pos, out: Err(sp_consume_err(toks, pos, SpecTokenType::Var)) }
    }
}

#[verifier::opaque]
pub open spec fn sp_fun_declaration(toks: Seq<SpecToken>, pos: int) -> SpecParsed<SpecDecl>
    decreases toks.len() - pos, 28int,
    when 0 <= pos <= toks.len()
{
    let len = toks.len() as int;
    if pos < len && toks[pos].token_type == SpecTokenType::Fun {
        sp_function(toks, pos + 1)
    } else {
        SpecParsed { pos, out: Err(sp_consume_err(toks, pos, SpecTokenType::Fun)) }
    }
}

#[verifier::opaque]
pub open spec fn sp_function(toks: Seq<SpecToken>, pos: int) -> SpecParsed<SpecDecl>
    decreases toks.len() - pos, 27int,
    when 0 <= pos <= toks.len()
{
    let len = toks.len() as int;
    if pos < len && toks[pos].token_type is Identifier {
        let name = toks[pos].token_type->Identifier_0;
        let p1 = pos + 1;
        if p1 < len && toks[p1].token_type == SpecTokenType::LeftParen {
            let r = sp_parameters(toks, p1 + 1);
            let p2 = cl(len, p1 + 1, r.pos);
            let params = match r.out {
                Ok(ps) => ps,
                Err(_) => Seq::<Seq<char>>::empty(),
            };
            if p2 < len && toks[p2].token_type == SpecTokenType::RightParen {
                let rb = sp_block(toks, p2 + 1);
                let p3 = cl(len, p2 + 1, rb.pos);
                match rb.out {
                    Err(e) => SpecParsed { pos: p3, out: Err(e) },
                    Ok(body) => SpecParsed {
                        pos: p3,
                        out: Ok(SpecDecl::Function(name, params, Box::new(body))),
                    },
                }
            } else {
                SpecParsed {
                    pos: p2,
                    out: Err(sp_consume_err(toks, p2, SpecTokenType::RightParen)),
                }
            }
        } else {
            SpecParsed { pos: p1, out: Err(sp_consume_err(toks, p1, SpecTokenType::LeftParen)) }
        }
    } else {
        SpecParsed { pos, out: Err(sp_ident_err(toks, pos)) }
    }
}

#[verifier::opaque]
pub open spec fn sp_parameters(toks: Seq<SpecToken>, pos: int) -> SpecParsed<Seq<Seq<char>>>
    decreases toks.len() - pos, 26int,
    when 0 <= pos <= toks.len()
{
    let len = toks.len() as int;
    if pos < len && toks[pos].token_type is Identifier {
        sp_parameters_rest(toks, pos + 1, seq![toks[pos].token_type->Identifier_0])
    } else {
        SpecParsed { pos, out: Err(sp_ident_err(toks, pos)) }
    }
}

#[verifier::opaque]
pub open spec fn sp_parameters_rest(toks: Seq<SpecToken>, pos: int, acc: Seq<Seq<char>>) -> SpecParsed<
    Seq<Seq<char>>,
>
    decreases toks.len() - pos, 25int,
    when 0 <= pos <= toks.len()
{
    let len = toks.len() as int;
    if pos < len && toks[pos].token_type != SpecTokenType::RightParen && toks[pos].token_type
        != SpecTokenType::Eof {
        if toks[pos].token_type == SpecTokenType::Comma {
            let p1 = pos + 1;
            if p1 < len && toks[p1].token_type is Identifier {
                sp_parameters_rest(toks, p1 + 1, acc.push(toks[p1].token_type->Identifier_0))
            } else {
                SpecParsed { pos: p1, out: Err(sp_ident_err(toks, p1)) }
            }
        } else {
            SpecParsed { pos, out: Err(sp_consume_err(toks, pos, SpecTokenType::Comma)) }
        }
    } else {
        SpecParsed { pos, out: Ok(acc) }
    }
}

#[verifier::opaque]
pub open spec fn sp_statement(toks: Seq<SpecToken>, pos: int) -> SpecParsed<SpecDecl>
    decreases toks.len() - pos, 29int,
    when 0 <= pos <= toks.len()
{
    let len = toks.len() as int;
    if pos >= len {
        SpecParsed { pos, out: Err(SpecLoxError { line: 0, message: Seq::<char>::empty() }) }
    } else if toks[pos].token_type == SpecTokenType::Print {
        sp_print(toks, pos)
    } else if toks[pos].token_type == SpecTokenType::LeftBrace {
        sp_block(toks, pos)
    } else if toks[pos].token_type == SpecTokenType::If {
        sp_if(toks, pos)
    } else if toks[pos].token_type == SpecTokenType::While {
        sp_while(toks, pos)
    } else if toks[pos].token_type == SpecTokenType::For {
        sp_for(toks, pos)
    } else if toks[pos].token_type == SpecTokenType::Return {
        sp_return(toks, pos)
    } else {
        sp_expression_statement(toks, pos)
    }
}

#[verifier::opaque]
pub open spec fn sp_print(toks: Seq<SpecToken>, pos: int) -> SpecParsed<SpecDecl>
    decreases toks.len() - pos, 28int,
    when 0 <= pos <= toks.len()
{
    let len = toks.len() as int;
    if pos < len && toks[pos].token_type == SpecTokenType::Print {
        let r = sp_expression(toks, pos + 1);
        let p1 = cl(len, pos + 1, r.pos);
        match r.out {
            Err(e) => SpecParsed { pos: p1, out: Err(e) },
            Ok(e) => {
                if p1 < len && toks[p1].token_type == SpecTokenType::Semicolon {
                    SpecParsed { pos: p1 + 1, out: Ok(SpecDecl::Print(e)) }
                } else {
                    SpecParsed {
                        pos: p1,
                        out: Err(sp_consume_err(toks, p1, SpecTokenType::Semicolon)),
                    }
                }
            },
        }
    } else {
        SpecParsed { pos, out: Err(sp_consume_err(toks, pos, SpecTokenType::Print)) }
    }
}

#[verifier::opaque]
pub open spec fn sp_expression_statement(toks: Seq<SpecToken>, pos: int) -> SpecParsed<SpecDecl>
    decreases toks.len() - pos, 28int,
    when 0 <= pos <= toks.len()
{
    let len = toks.len() as int;
    let r = sp_expression(toks, pos);
    let p1 = cl(len, pos, r.pos);
    match r.out {
        Err(e) => SpecParsed { pos: p1, out: Err(e) },
        Ok(e) => {
            if p1 < len && toks[p1].token_type == SpecTokenType::Semicolon {
                SpecParsed { pos: p1 + 1, out: Ok(SpecDecl::Expression(e)) }
            } else {
                SpecParsed {
                    pos: p1,
                    out: Err(sp_consume_err(toks, p1, SpecTokenType::Semicolon)),
                }
            }
        },
    }
}

#[verifier::opaque]
pub open spec fn sp_block(toks: Seq<SpecToken>, pos: int) -> SpecParsed<SpecDecl>
    decreases toks.len() - pos, 28int,
    when 0 <= pos <= toks.len()
{
    let len = toks.len() as int;
    if pos < len && toks[pos].token_type == SpecTokenType::LeftBrace {
        let r = sp_block_items(toks, pos + 1, Seq::<SpecDecl>::empty());
        let p1 = cl(len, pos + 1, r.pos);
        match r.out {
            Err(e) => SpecParsed { pos: p1, out: Err(e) },
            Ok(ds) => {
                if p1 < len && toks[p1].token_type == SpecTokenType::RightBrace {
                    SpecParsed { pos: p1 + 1, out: Ok(SpecDecl::Block(ds)) }
                } else {
                    SpecParsed {
                        pos: p1,
                        out: Err(sp_consume_err(toks, p1, SpecTokenType::RightBrace)),
                    }
                }
            },
        }
    } else {
        SpecParsed { pos, out: Err(sp_consume_err(toks, pos, SpecTokenType::LeftBrace)) }
    }
}

#[verifier::opaque]
pub open spec fn sp_block_items(toks: Seq<SpecToken>, pos: int, acc: Seq<SpecDecl>) -> SpecParsed<
    Seq<SpecDecl>,
>
    decreases toks.len() - pos, 31int,
    when 0 <= pos <= toks.len()
{
    let len = toks.len() as int;
    if pos < len && toks[pos].token_type != SpecTokenType::RightBrace && toks[pos].token_type
        != SpecTokenType::Eof {
        let r = sp_declaration(toks, pos);
        match r.out {
            Err(e) => SpecParsed { pos: cl(len, pos, r.pos), out: Err(e) },
            Ok(od) => {
                let p1 = cls(len, pos, r.pos);
                match od {
                    Some(d) => sp_block_items(toks, p1, acc.push(d)),
                    None => sp_block_items(toks, p1, acc),
                }
            },
        }
    } else {
        SpecParsed { pos, out: Ok(acc) }
    }
}

#[verifier::opaque]
pub open spec fn sp_if(toks: Seq<SpecToken>, pos: int) -> SpecParsed<SpecDecl>
    decreases toks.len() - pos, 28int,
    when 0 <= pos <= toks.len()
{
    let len = toks.len() as int;
    if pos < len && toks[pos].token_type == SpecTokenType::If {
        let p1 = pos + 1;
        if p1 < len && toks[p1].token_type == SpecTokenType::LeftParen {
            let rc = sp_expression(toks, p1 + 1);
            let p2 = cl(len, p1 + 1, rc.pos);
            match rc.out {
                Err(e) => SpecParsed { pos: p2, out: Err(e) },
                Ok(cond) => {
                    if p2 < len && toks[p2].token_type == SpecTokenType::RightParen {
                        let rt = sp_statement(toks, p2 + 1);
                        let p3 = cl(len, p2 + 1, rt.pos);
                        match rt.out {
                            Err(e) => SpecParsed { pos: p3, out: Err(e) },
                            Ok(then) => {
                                if p3 < len && toks[p3].token_type == SpecTokenType::Else {
                                    let re = sp_statement(toks, p3 + 1);
                                    let p4 = cl(len, p3 + 1, re.pos);
                                    match re.out {
                                        Err(e) => SpecParsed { pos: p4, out: Err(e) },
                                        Ok(els) => SpecParsed {
                                            pos: p4,
                                            out: Ok(
                                                SpecDecl::If(
                                                    cond,
                                                    Box::new(then),
                                                    Some(Box::new(els)),
                                                ),
                                            ),
                                        },
                                    }
                                } else {
                                    SpecParsed {
                                        pos: p3,
                                        out: Ok(SpecDecl::If(cond, Box::new(then), None)),
                                    }
                                }
                            },
                        }
                    } else {
                        SpecParsed {
                            pos: p2,
                            out: Err(sp_consume_err(toks, p2, SpecTokenType::RightParen)),
                        }
                    }
                },
            }
        } else {
            SpecParsed { pos: p1, out: Err(sp_consume_err(toks, p1, SpecTokenType::LeftParen)) }
        }
    } else {
        SpecParsed { pos, out: Err(sp_consume_err(toks, pos, SpecTokenType::If)) }
    }
}

#[verifier::opaque]
pub open spec fn sp_while(toks: Seq<SpecToken>, pos: int) -> SpecParsed<SpecDecl>
    decreases toks.len() - pos, 28int,
    when 0 <= pos <= toks.len()
{
    let len = toks.len() as int;
    if pos < len && toks[pos].token_type == SpecTokenType::While {
        let p1 = pos + 1;
        if p1 < len && toks[p1].token_type == SpecTokenType::LeftParen {
            let rc = sp_expression(toks, p1 + 1);
            let p2 = cl(len, p1 + 1, rc.pos);
            match rc.out {
                Err(e) => SpecParsed { pos: p2, out: Err(e) },
                Ok(cond) => {
                    if p2 < len && toks[p2].token_type == SpecTokenType::RightParen {
                        let rb = sp_statement(toks, p2 + 1);
                        let p3 = cl(len, p2 + 1, rb.pos);
                        match rb.out {
                            Err(e) => SpecParsed { pos: p3, out: Err(e) },
                            Ok(body) => SpecParsed {
                                pos: p3,
                                out: Ok(SpecDecl::While(cond, Box::new(body))),
                            },
                        }
                    } else {
                        SpecParsed {
                            pos: p2,
                            out: Err(sp_consume_err(toks, p2, SpecTokenType::RightParen)),
                        }
                    }
                },
            }
        } else {
            SpecParsed { pos: p1, out: Err(sp_consume_err(toks, p1, SpecTokenType::LeftParen)) }
        }
    } else {
        SpecParsed { pos, out: Err(sp_consume_err(toks, pos, SpecTokenType::While)) }
    }
}

#[verifier::opaque]
pub open spec fn sp_return(toks: Seq<SpecToken>, pos: int) -> SpecParsed<SpecDecl>
    decreases toks.len() - pos, 28int,
    when 0 <= pos <= toks.len()
{
    let len = toks.len() as int;
    if pos < len && toks[pos].token_type == SpecTokenType::Return {
        let p1 = pos + 1;
        if p1 < len && toks[p1].token_type == SpecTokenType::Semicolon {
            SpecParsed { pos: p1 + 1, out: Ok(SpecDecl::Return(SpecExpr::Nil)) }
        } else {
            let r = sp_expression(toks, p1);
            let p2 = cl(len, p1, r.pos);
            match r.out {
                Err(e) => SpecParsed { pos: p2, out: Err(e) },
                Ok(e) => {
                    if p2 < len && toks[p2].token_type == SpecTokenType::Semicolon {
                        SpecParsed { pos: p2 + 1, out: Ok(SpecDecl::Return(e)) }
                    } else {
                        SpecParsed {
                            pos: p2,
                            out: Err(sp_consume_err(toks, p2, SpecTokenType::Semicolon)),
                        }
                    }
                },
            }
        }
    } else {
        SpecParsed { pos, out: Err(sp_consume_err(toks, pos, SpecTokenType::Return)) }
    }
}

/// The desugared `for` statement: `{ init; while (cond) { body; incr; } }`,
/// with an omitted condition standing for `true`.
pub open spec fn sp_for_desugar(
    init: Option<SpecDecl>,
    cond: Option<SpecExpr>,
    incr: Option<SpecExpr>,
    body: SpecDecl,
) -> SpecDecl {
    let body1 = match incr {
        Some(e) => SpecDecl::Block(seq![body, SpecDecl::Expression(e)]),
        None => body,
    };
    let body2 = match cond {
        Some(c) => SpecDecl::While(c, Box::new(body1)),
        None => SpecDecl::While(SpecExpr::True, Box::new(body1)),
    };
    match init {
        Some(i) => SpecDecl::Block(seq![i, body2]),
        None => body2,
    }
}

#[verifier::opaque]
pub open spec fn sp_for(toks: Seq<SpecToken>, pos: int) -> SpecParsed<SpecDecl>
    decreases toks.len() - pos, 28int,
    when 0 <= pos <= toks.len()
{
    let len = toks.len() as int;
    if pos < len && toks[pos].token_type == SpecTokenType::For {
        let p1 = pos + 1;
        if p1 < len && toks[p1].token_type == SpecTokenType::LeftParen {
            let p2 = p1 + 1;
            // the initializer clause
            let ri: SpecParsed<Option<SpecDecl>> = if p2 < len && toks[p2].token_type
                == SpecTokenType::Semicolon {
                SpecParsed { pos: p2 + 1, out: Ok(None) }
            } else if p2 < len && toks[p2].token_type == SpecTokenType::Var {
                let r = sp_var_declaration(toks, p2);
                SpecParsed {
                    pos: cl(len, p2, r.pos),
                    out: match r.out {
                        Ok(d) => Ok(Some(d)),
                        Err(e) => Err(e),
                    },
                }
            } else {
                let r = sp_expression_statement(toks, p2);
                SpecParsed {
                    pos: cl(len, p2, r.pos),
                    out: match r.out {
                        Ok(d) => Ok(Some(d)),
                        Err(e) => Err(e),
                    },
                }
            };
            match ri.out {
                Err(e) => SpecParsed { pos: ri.pos, out: Err(e) },
                Ok(init) => {
                    let p3 = ri.pos;
                    // the condition clause
                    let rc: SpecParsed<Option<SpecExpr>> = if p3 < len && toks[p3].token_type
                        == SpecTokenType::Semicolon {
                        SpecParsed { pos: p3 + 1, out: Ok(None) }
                    } else {
                        let r = sp_expression(toks, cl(len, p2, p3));
                        let p4 = cl(len, p3, r.pos);
                        match r.out {
                            Err(e) => SpecParsed { pos: p4, out: Err(e) },
                            Ok(e) => {
                                if p4 < len && toks[p4].token_type == SpecTokenType::Semicolon {
                                    SpecParsed { pos: p4 + 1, out: Ok(Some(e)) }
                                } else {
                                    SpecParsed {
                                        pos: p4,
                                        out: Err(
                                            sp_consume_err(toks, p4, SpecTokenType::Semicolon),
                                        ),
                                    }
                                }
                            },
                        }
                    };
                    match rc.out {
                        Err(e) => SpecParsed { pos: rc.pos, out: Err(e) },
                        Ok(cond) => {
                            let p5 = rc.pos;
                            // the increment clause
                            let rn: SpecParsed<Option<SpecExpr>> = if p5 < len
                                && toks[p5].token_type == SpecTokenType::RightParen {
                                SpecParsed { pos: p5, out: Ok(None) }
                            } else {
                                let r = sp_expression(toks, cl(len, p2, p5));
                                SpecParsed {
                                    pos: cl(len, p5, r.pos),
                                    out: match r.out {
                                        Ok(e) => Ok(Some(e)),
                                        Err(e) => Err(e),
                                    },
                                }
                            };
                            match rn.out {
                                Err(e) => SpecParsed { pos: rn.pos, out: Err(e) },
                                Ok(incr) => {
                                    let p6 = rn.pos;
                                    if p6 < len && toks[p6].token_type
                                        == SpecTokenType::RightParen {
                                        let rb = sp_statement(toks, p6 + 1);
                                        let p7 = cl(len, p6 + 1, rb.pos);
                                        match rb.out {
                                            Err(e) => SpecParsed { pos: p7, out: Err(e) },
                                            Ok(body) => SpecParsed {
                                                pos: p7,
                                                out: Ok(sp_for_desugar(init, cond, incr, body)),
                                            },
                                        }
                                    } else {
                                        SpecParsed {
                                            pos: p6,
                                            out: Err(
                                                sp_consume_err(
                                                    toks,
                                                    p6,
                                                    SpecTokenType::RightParen,
                                                ),
                                            ),
                                        }
                                    }
                                },
                            }
                        },
                    }
                },
            }
        } else {
            SpecParsed { pos: p1, out: Err(sp_consume_err(toks, p1, SpecTokenType::LeftParen)) }
        }
    } else {
        SpecParsed { pos, out: Err(sp_consume_err(toks, pos, SpecTokenType::For)) }
    }
}

#[verifier::rlimit(100)]
#[verifier::spinoff_prover]
pub fn parse_declaration(tokens: &mut Tokens) -> (r: Result<Option<Declaration>, LoxError>)
    requires
        old(tokens).wf(),
        tokens_wf(old(tokens)@.toks),
        old(tokens)@.pos < old(tokens)@.toks.len(),
    ensures
        final(tokens).wf(),
        final(tokens)@.toks == old(tokens)@.toks,
        old(tokens)@.pos <= final(tokens)@.pos <= old(tokens)@.toks.len(),
        r matches Ok(d) ==> old(tokens)@.pos < final(tokens)@.pos,
        r matches Ok(d) && d is Some ==> final(tokens)@.pos < old(tokens)@.toks.len(),
        final(tokens)@.pos == sp_declaration(old(tokens)@.toks, old(tokens)@.pos).pos,
        ({
            let out = sp_declaration(old(tokens)@.toks, old(tokens)@.pos).out;
            match (r, out) {
                (Ok(Some(d)), Ok(Some(sd))) => d@ == sd,
                (Ok(None), Ok(None)) => true,
                (Err(a), Err(b)) => a@ == b,
                _ => false,
            }
        }),
    decreases old(tokens)@.toks.len() - old(tokens)@.pos, 30int,
{
    proof {
        reveal_with_fuel(sp_declaration, 1);
        reveal_with_fuel(sp_var_declaration, 1);
        reveal_with_fuel(sp_fun_declaration, 1);
        reveal_with_fuel(sp_statement, 1);
    }
    let ghost toks = old(tokens)@.toks;
    if matches!(tokens.peek_type(), TokenType::Eof) {
        tokens.next();
        Ok(None)
    } else if matches!(tokens.peek_type(), TokenType::Var) {
        match parse_var_declaration(tokens) {
            Ok(d) => Ok(Some(d)),
            Err(e) => Err(e),
        }
    } else if matches!(tokens.peek_type(), TokenType::Fun) {
        match parse_fun_declaration(tokens) {
            Ok(d) => Ok(Some(d)),
            Err(e) => Err(e),
        }
    } else {
        match parse_statement(tokens) {
            Ok(d) => Ok(Some(d)),
            Err(e) => Err(e),
        }
    }
}

#[verifier::rlimit(100)]
#[verifier::spinoff_prover]
fn parse_var_declaration(tokens: &mut Tokens) -> (r: Result<Declaration, LoxError>)
    requires
        old(tokens).wf(),
        tokens_wf(old(tokens)@.toks),
        old(tokens)@.pos < old(tokens)@.toks.len(),
    ensures
        final(tokens).wf(),
        final(tokens)@.toks == old(tokens)@.toks,
        old(tokens)@.pos <= final(tokens)@.pos <= old(tokens)@.toks.len(),
        r is Ok ==> old(tokens)@.pos < final(tokens)@.pos < old(tokens)@.toks.len(),
        final(tokens)@.pos == sp_var_declaration(old(tokens)@.toks, old(tokens)@.pos).pos,
        matches_decl(r, sp_var_declaration(old(tokens)@.toks, old(tokens)@.pos).out),
    decreases old(tokens)@.toks.len() - old(tokens)@.pos, 28int,
{
    proof {
        reveal_with_fuel(sp_var_declaration, 1);
        reveal_with_fuel(sp_expression, 1);
    }
    let ghost toks = old(tokens)@.toks;
    match tokens.consume(TokenType::Var) {
        Err(e) => {
            return Err(e);
        },
        Ok(_) => {},
    }
    proof {
        lemma_mid_token(toks, tokens@.pos - 1);
    }
    let name_opt = match tokens.peek_type() {
        TokenType::Identifier(s) => Some(s.clone()),
        _ => None,
    };
    match name_opt {
        Some(id) => {
            tokens.next();
            proof {
                lemma_mid_token(toks, tokens@.pos - 1);
            }
            if tokens.consume(TokenType::Equal).is_ok() {
                proof {
                    lemma_mid_token(toks, tokens@.pos - 1);
                }
                let e = match parse_expression(tokens) {
                    Ok(e) => e,
                    Err(e) => {
                        return Err(e);
                    },
                };
                match tokens.consume(TokenType::Semicolon) {
                    Ok(_) => {
                        proof {
                            lemma_mid_token(toks, tokens@.pos - 1);
                        }
                        Ok(Declaration::Var(id, Some(e)))
                    },
                    Err(e) => Err(e),
                }
            } else {
                match tokens.consume(TokenType::Semicolon) {
                    Ok(_) => {
                        proof {
                            lemma_mid_token(toks, tokens@.pos - 1);
                        }
                        Ok(Declaration::Var(id, None))
                    },
                    Err(e) => Err(e),
                }
            }
        },
        None => {
            let token = tokens.peek();
            let mut message = String::from_str("Expected identifier, got ");
            message.append(token.lexeme.as_str());
            message.append(" instead.");
            proof {
                assert(message@ =~= "Expected identifier, got "@ + token@.lexeme + " instead."@);
            }
            Err(LoxError { line: token.line, message })
        },
    }
}

#[verifier::rlimit(100)]
#[verifier::spinoff_prover]
fn parse_fun_declaration(tokens: &mut Tokens) -> (r: Result<Declaration, LoxError>)
    requires
        old(tokens).wf(),
        tokens_wf(old(tokens)@.toks),
        old(tokens)@.pos < old(tokens)@.toks.len(),
    ensures
        final(tokens).wf(),
        final(tokens)@.toks == old(tokens)@.toks,
        old(tokens)@.pos <= final(tokens)@.pos <= old(tokens)@.toks.len(),
        r is Ok ==> old(tokens)@.pos < final(tokens)@.pos < old(tokens)@.toks.len(),
        final(tokens)@.pos == sp_fun_declaration(old(tokens)@.toks, old(tokens)@.pos).pos,
        matches_decl(r, sp_fun_declaration(old(tokens)@.toks, old(tokens)@.pos).out),
    decreases old(tokens)@.toks.len() - old(tokens)@.pos, 28int,
{
    proof {
        reveal_with_fuel(sp_fun_declaration, 1);
        reveal_with_fuel(sp_function, 1);
    }
    let ghost toks = old(tokens)@.toks;
    match tokens.consume(TokenType::Fun) {
        Err(e) => {
            return Err(e);
        },
        Ok(_) => {},
    }
    proof {
        lemma_mid_token(toks, tokens@.pos - 1);
    }
    parse_function(tokens)
}

#[verifier::rlimit(100)]
#[verifier::spinoff_prover]
fn parse_function(tokens: &mut Tokens) -> (r: Result<Declaration, LoxError>)
    requires
        old(tokens).wf(),
        tokens_wf(old(tokens)@.toks),
        old(tokens)@.pos < old(tokens)@.toks.len(),
    ensures
        final(tokens).wf(),
        final(tokens)@.toks == old(tokens)@.toks,
        old(tokens)@.pos <= final(tokens)@.pos <= old(tokens)@.toks.len(),
        r is Ok ==> old(tokens)@.pos < final(tokens)@.pos < old(tokens)@.toks.len(),
        final(tokens)@.pos == sp_function(old(tokens)@.toks, old(tokens)@.pos).pos,
        matches_decl(r, sp_function(old(tokens)@.toks, old(tokens)@.pos).out),
    decreases old(tokens)@.toks.len() - old(tokens)@.pos, 27int,
{
    proof {
        reveal_with_fuel(sp_function, 1);
        reveal_with_fuel(sp_parameters, 1);
        reveal_with_fuel(sp_block, 1);
    }
    let ghost toks = old(tokens)@.toks;
    let name_opt = match tokens.peek_type() {
        TokenType::Identifier(s) => Some(s.clone()),
        _ => None,
    };
    match name_opt {
        Some(name) => {
            tokens.next();
            proof {
                lemma_mid_token(toks, tokens@.pos - 1);
            }
            match tokens.consume(TokenType::LeftParen) {
                Err(e) => {
                    return Err(e);
                },
                Ok(_) => {},
            }
            proof {
                lemma_mid_token(toks, tokens@.pos - 1);
            }
            let parameters = match parse_parameters(tokens) {
                Ok(ps) => ps,
                Err(_) => {
                    let none: Vec<String> = Vec::new();
                    proof {
                        assert(names_view(none@) =~= Seq::<Seq<char>>::empty());
                    }
                    none
                },
            };
            match tokens.consume(TokenType::RightParen) {
                Err(e) => {
                    return Err(e);
                },
                Ok(_) => {},
            }
            proof {
                lemma_mid_token(toks, tokens@.pos - 1);
            }
            let body = match parse_block(tokens) {
                Ok(b) => b,
                Err(e) => {
                    return Err(e);
                },
            };
            Ok(Declaration::Function(name, parameters, Box::new(body)))
        },
        None => {
            let token = tokens.peek();
            let mut message = String::from_str("Expected identifier, got ");
            message.append(token.lexeme.as_str());
            message.append(".");
            proof {
                assert(message@ =~= "Expected identifier, got "@ + token@.lexeme + "."@);
            }
            Err(LoxError { line: token.line, message })
        },
    }
}

#[verifier::rlimit(100)]
#[verifier::spinoff_prover]
fn parse_parameters(tokens: &mut Tokens) -> (r: Result<Vec<String>, LoxError>)
    requires
        old(tokens).wf(),
        tokens_wf(old(tokens)@.toks),
        old(tokens)@.pos < old(tokens)@.toks.len(),
    ensures
        final(tokens).wf(),
        final(tokens)@.toks == old(tokens)@.toks,
        old(tokens)@.pos <= final(tokens)@.pos <= old(tokens)@.toks.len(),
        final(tokens)@.pos < old(tokens)@.toks.len(),
        r is Ok ==> old(tokens)@.pos < final(tokens)@.pos,
        final(tokens)@.pos == sp_parameters(old(tokens)@.toks, old(tokens)@.pos).pos,
        ({
            let out = sp_parameters(old(tokens)@.toks, old(tokens)@.pos).out;
            match (r, out) {
                (Ok(v), Ok(sv)) => names_view(v@) == sv,
                (Err(a), Err(b)) => a@ == b,
                _ => false,
            }
        }),
    decreases old(tokens)@.toks.len() - old(tokens)@.pos, 26int,
{
    proof {
        reveal_with_fuel(sp_parameters, 1);
        reveal_with_fuel(sp_parameters_rest, 1);
    }
    let ghost toks = old(tokens)@.toks;
    let first_opt = match tokens.peek_type() {
        TokenType::Identifier(s) => Some(s.clone()),
        _ => None,
    };
    match first_opt {
        Some(p0) => {
            tokens.next();
            proof {
                lemma_mid_token(toks, tokens@.pos - 1);
            }
            let mut parameters: Vec<String> = Vec::new();
            proof {
                assert(names_view(parameters@.push(p0)) =~= seq![p0@]);
            }
            parameters.push(p0);
            match parse_parameters_rest(tokens, &mut parameters) {
                Ok(_) => Ok(parameters),
                Err(e) => Err(e),
            }
        },
        None => {
            let token = tokens.peek();
            let mut message = String::from_str("Expected identifier, got ");
            message.append(token.lexeme.as_str());
            message.append(".");
            proof {
                assert(message@ =~= "Expected identifier, got "@ + token@.lexeme + "."@);
            }
            Err(LoxError { line: token.line, message })
        },
    }
}

#[verifier::rlimit(100)]
#[verifier::spinoff_prover]
fn parse_parameters_rest(tokens: &mut Tokens, parameters: &mut Vec<String>) -> (r: Result<
    (),
    LoxError,
>)
    requires
        old(tokens).wf(),
        tokens_wf(old(tokens)@.toks),
        old(tokens)@.pos < old(tokens)@.toks.len(),
    ensures
        final(tokens).wf(),
        final(tokens)@.toks == old(tokens)@.toks,
        old(tokens)@.pos <= final(tokens)@.pos <= old(tokens)@.toks.len(),
        final(tokens)@.pos < old(tokens)@.toks.len(),
        final(tokens)@.pos == sp_parameters_rest(
            old(tokens)@.toks,
            old(tokens)@.pos,
            names_view(old(parameters)@),
        ).pos,
        ({
            let out = sp_parameters_rest(
                old(tokens)@.toks,
                old(tokens)@.pos,
                names_view(old(parameters)@),
            ).out;
            match (r, out) {
                (Ok(_), Ok(sv)) => names_view(final(parameters)@) == sv,
                (Err(a), Err(b)) => a@ == b,
                _ => false,
            }
        }),
    decreases old(tokens)@.toks.len() - old(tokens)@.pos, 25int,
{
    proof {
        reveal_with_fuel(sp_parameters_rest, 1);
    }
    let ghost toks = old(tokens)@.toks;
    let stop = matches!(tokens.peek_type(), TokenType::RightParen) || matches!(
        tokens.peek_type(),
        TokenType::Eof,
    );
    if !stop {
        match tokens.consume(TokenType::Comma) {
            Err(e) => {
                return Err(e);
            },
            Ok(_) => {},
        }
        proof {
            lemma_mid_token(toks, tokens@.pos - 1);
        }
        let p_opt = match tokens.peek_type() {
            TokenType::Identifier(s) => Some(s.clone()),
            _ => None,
        };
        match p_opt {
            Some(p) => {
                tokens.next();
                proof {
                    lemma_mid_token(toks, tokens@.pos - 1);
                    assert(names_view(parameters@.push(p)) =~= names_view(parameters@).push(p@));
                }
                parameters.push(p);
                parse_parameters_rest(tokens, parameters)
            },
            None => {
                let token = tokens.peek();
                let mut message = String::from_str("Expected identifier, got ");
                message.append(token.lexeme.as_str());
                message.append(".");
                proof {
                    assert(message@ =~= "Expected identifier, got "@ + token@.lexeme + "."@);
                }
                Err(LoxError { line: token.line, message })
            },
        }
    } else {
        Ok(())
    }
}

#[verifier::rlimit(100)]
#[verifier::spinoff_prover]
fn parse_statement(tokens: &mut Tokens) -> (r: Result<Declaration, LoxError>)
    requires
        old(tokens).wf(),
        tokens_wf(old(tokens)@.toks),
        old(tokens)@.pos < old(tokens)@.toks.len(),
    ensures
        final(tokens).wf(),
        final(tokens)@.toks == old(tokens)@.toks,
        old(tokens)@.pos <= final(tokens)@.pos <= old(tokens)@.toks.len(),
        r is Ok ==> old(tokens)@.pos < final(tokens)@.pos < old(tokens)@.toks.len(),
        final(tokens)@.pos == sp_statement(old(tokens)@.toks, old(tokens)@.pos).pos,
        matches_decl(r, sp_statement(old(tokens)@.toks, old(tokens)@.pos).out),
    decreases old(tokens)@.toks.len() - old(tokens)@.pos, 29int,
{
    proof {
        reveal_with_fuel(sp_statement, 1);
        reveal_with_fuel(sp_print, 1);
        reveal_with_fuel(sp_block, 1);
        reveal_with_fuel(sp_if, 1);
        reveal_with_fuel(sp_while, 1);
        reveal_with_fuel(sp_for, 1);
        reveal_with_fuel(sp_return, 1);
        reveal_with_fuel(sp_expression_statement, 1);
    }
    if matches!(tokens.peek_type(), TokenType::Print) {
        parse_print(tokens)
    } else if matches!(tokens.peek_type(), TokenType::LeftBrace) {
        parse_block(tokens)
    } else if matches!(tokens.peek_type(), TokenType::If) {
        parse_if(tokens)
    } else if matches!(tokens.peek_type(), TokenType::While) {
        parse_while(tokens)
    } else if matches!(tokens.peek_type(), TokenType::For) {
        parse_for(tokens)
    } else if matches!(tokens.peek_type(), TokenType::Return) {
        parse_return(tokens)
    } else {
        parse_expression_statement(tokens)
    }
}

#[verifier::rlimit(100)]
#[verifier::spinoff_prover]
fn parse_print(tokens: &mut Tokens) -> (r: Result<Declaration, LoxError>)
    requires
        old(tokens).wf(),
        tokens_wf(old(tokens)@.toks),
        old(tokens)@.pos < old(tokens)@.toks.len(),
    ensures
        final(tokens).wf(),
        final(tokens)@.toks == old(tokens)@.toks,
        old(tokens)@.pos <= final(tokens)@.pos <= old(tokens)@.toks.len(),
        r is Ok ==> old(tokens)@.pos < final(tokens)@.pos < old(tokens)@.toks.len(),
        final(tokens)@.pos == sp_print(old(tokens)@.toks, old(tokens)@.pos).pos,
        matches_decl(r, sp_print(old(tokens)@.toks, old(tokens)@.pos).out),
    decreases old(tokens)@.toks.len() - old(tokens)@.pos, 28int,
{
    proof {
        reveal_with_fuel(sp_print, 1);
        reveal_with_fuel(sp_expression, 1);
    }
    let ghost toks = old(tokens)@.toks;
    match tokens.consume(TokenType::Print) {
        Err(e) => {
            return Err(e);
        },
        Ok(_) => {},
    }
    proof {
        lemma_mid_token(toks, tokens@.pos - 1);
    }
    let e = match parse_expression(tokens) {
        Ok(e) => e,
        Err(e) => {
            return Err(e);
        },
    };
    match tokens.consume(TokenType::Semicolon) {
        Ok(_) => {
            proof {
                lemma_mid_token(toks, tokens@.pos - 1);
            }
            Ok(Declaration::Print(e))
        },
        Err(er) => Err(er),
    }
}

#[verifier::rlimit(100)]
#[verifier::spinoff_prover]
fn parse_expression_statement(tokens: &mut Tokens) -> (r: Result<Declaration, LoxError>)
    requires
        old(tokens).wf(),
        tokens_wf(old(tokens)@.toks),
        old(tokens)@.pos < old(tokens)@.toks.len(),
    ensures
        final(tokens).wf(),
        final(tokens)@.toks == old(tokens)@.toks,
        old(tokens)@.pos <= final(tokens)@.pos <= old(tokens)@.toks.len(),
        r is Ok ==> old(tokens)@.pos < final(tokens)@.pos < old(tokens)@.toks.len(),
        final(tokens)@.pos == sp_expression_statement(old(tokens)@.toks, old(tokens)@.pos).pos,
        matches_decl(r, sp_expression_statement(old(tokens)@.toks, old(tokens)@.pos).out),
    decreases old(tokens)@.toks.len() - old(tokens)@.pos, 28int,
{
    proof {
        reveal_with_fuel(sp_expression_statement, 1);
        reveal_with_fuel(sp_expression, 1);
    }
    let ghost toks = old(tokens)@.toks;
    let e = match parse_expression(tokens) {
        Ok(e) => e,
        Err(e) => {
            return Err(e);
        },
    };
    match tokens.consume(TokenType::Semicolon) {
        Ok(_) => {
            proof {
                lemma_mid_token(toks, tokens@.pos - 1);
            }
            Ok(Declaration::Expression(e))
        },
        Err(er) => Err(er),
    }
}

#[verifier::rlimit(100)]
#[verifier::spinoff_prover]
fn parse_block(tokens: &mut Tokens) -> (r: Result<Declaration, LoxError>)
    requires
        old(tokens).wf(),
        tokens_wf(old(tokens)@.toks),
        old(tokens)@.pos < old(tokens)@.toks.len(),
    ensures
        final(tokens).wf(),
        final(tokens)@.toks == old(tokens)@.toks,
        old(tokens)@.pos <= final(tokens)@.pos <= old(tokens)@.toks.len(),
        r is Ok ==> old(tokens)@.pos < final(tokens)@.pos < old(tokens)@.toks.len(),
        final(tokens)@.pos == sp_block(old(tokens)@.toks, old(tokens)@.pos).pos,
        matches_decl(r, sp_block(old(tokens)@.toks, old(tokens)@.pos).out),
    decreases old(tokens)@.toks.len() - old(tokens)@.pos, 28int,
{
    proof {
        reveal_with_fuel(sp_block, 1);
        reveal_with_fuel(sp_block_items, 1);
    }
    let ghost toks = old(tokens)@.toks;
    match tokens.consume(TokenType::LeftBrace) {
        Err(e) => {
            return Err(e);
        },
        Ok(_) => {},
    }
    proof {
        lemma_mid_token(toks, tokens@.pos - 1);
    }
    let mut declarations: Vec<Declaration> = Vec::new();
    proof {
        assert(sdecls(declarations@) =~= Seq::<SpecDecl>::empty());
    }
    match parse_block_items(tokens, &mut declarations) {
        Err(e) => {
            return Err(e);
        },
        Ok(_) => {},
    }
    match tokens.consume(TokenType::RightBrace) {
        Ok(_) => {
            proof {
                lemma_mid_token(toks, tokens@.pos - 1);
            }
            Ok(Declaration::Block(declarations))
        },
        Err(e) => Err(e),
    }
}

#[verifier::rlimit(100)]
#[verifier::spinoff_prover]
fn parse_block_items(tokens: &mut Tokens, declarations: &mut Vec<Declaration>) -> (r: Result<
    (),
    LoxError,
>)
    requires
        old(tokens).wf(),
        tokens_wf(old(tokens)@.toks),
        old(tokens)@.pos < old(tokens)@.toks.len(),
    ensures
        final(tokens).wf(),
        final(tokens)@.toks == old(tokens)@.toks,
        old(tokens)@.pos <= final(tokens)@.pos <= old(tokens)@.toks.len(),
        r is Ok ==> final(tokens)@.pos < old(tokens)@.toks.len(),
        final(tokens)@.pos == sp_block_items(
            old(tokens)@.toks,
            old(tokens)@.pos,
            sdecls(old(declarations)@),
        ).pos,
        ({
            let out = sp_block_items(
                old(tokens)@.toks,
                old(tokens)@.pos,
                sdecls(old(declarations)@),
            ).out;
            match (r, out) {
                (Ok(_), Ok(sv)) => sdecls(final(declarations)@) == sv,
                (Err(a), Err(b)) => a@ == b,
                _ => false,
            }
        }),
    decreases old(tokens)@.toks.len() - old(tokens)@.pos, 31int,
{
    proof {
        reveal_with_fuel(sp_block_items, 1);
        reveal_with_fuel(sp_declaration, 1);
    }
    let ghost toks = old(tokens)@.toks;
    let stop = matches!(tokens.peek_type(), TokenType::RightBrace) || matches!(
        tokens.peek_type(),
        TokenType::Eof,
    );
    if !stop {
        match parse_declaration(tokens) {
            Err(e) => Err(e),
            Ok(Some(d)) => {
                proof {
                    lemma_sdecls_push(declarations@, d);
                }
                declarations.push(d);
                parse_block_items(tokens, declarations)
            },
            Ok(None) => {
                proof {
                    assert(false);
                }
                Ok(())
            },
        }
    } else {
        Ok(())
    }
}

#[verifier::rlimit(100)]
#[verifier::spinoff_prover]
fn parse_if(tokens: &mut Tokens) -> (r: Result<Declaration, LoxError>)
    requires
        old(tokens).wf(),
        tokens_wf(old(tokens)@.toks),
        old(tokens)@.pos < old(tokens)@.toks.len(),
    ensures
        final(tokens).wf(),
        final(tokens)@.toks == old(tokens)@.toks,
        old(tokens)@.pos <= final(tokens)@.pos <= old(tokens)@.toks.len(),
        r is Ok ==> old(tokens)@.pos < final(tokens)@.pos < old(tokens)@.toks.len(),
        final(tokens)@.pos == sp_if(old(tokens)@.toks, old(tokens)@.pos).pos,
        matches_decl(r, sp_if(old(tokens)@.toks, old(tokens)@.pos).out),
    decreases old(tokens)@.toks.len() - old(tokens)@.pos, 28int,
{
    proof {
        reveal_with_fuel(sp_if, 1);
        reveal_with_fuel(sp_expression, 1);
        reveal_with_fuel(sp_statement, 1);
    }
    let ghost toks = old(tokens)@.toks;
    match tokens.consume(TokenType::If) {
        Err(e) => {
            return Err(e);
        },
        Ok(_) => {},
    }
    proof {
        lemma_mid_token(toks, tokens@.pos - 1);
    }
    match tokens.consume(TokenType::LeftParen) {
        Err(e) => {
            return Err(e);
        },
        Ok(_) => {},
    }
    proof {
        lemma_mid_token(toks, tokens@.pos - 1);
    }
    let condition = match parse_expression(tokens) {
        Ok(e) => e,
        Err(e) => {
            return Err(e);
        },
    };
    match tokens.consume(TokenType::RightParen) {
        Err(e) => {
            return Err(e);
        },
        Ok(_) => {},
    }
    proof {
        lemma_mid_token(toks, tokens@.pos - 1);
    }
    let if_statement = match parse_statement(tokens) {
        Ok(s) => s,
        Err(e) => {
            return Err(e);
        },
    };
    if tokens.consume(TokenType::Else).is_ok() {
        proof {
            lemma_mid_token(toks, tokens@.pos - 1);
        }
        let else_statement = match parse_statement(tokens) {
            Ok(s) => s,
            Err(e) => {
                return Err(e);
            },
        };
        Ok(
            Declaration::If(
                condition,
                Box::new(if_statement),
                Some(Box::new(else_statement)),
            ),
        )
    } else {
        Ok(Declaration::If(condition, Box::new(if_statement), None))
    }
}

#[verifier::rlimit(100)]
#[verifier::spinoff_prover]
fn parse_while(tokens: &mut Tokens) -> (r: Result<Declaration, LoxError>)
    requires
        old(tokens).wf(),
        tokens_wf(old(tokens)@.toks),
        old(tokens)@.pos < old(tokens)@.toks.len(),
    ensures
        final(tokens).wf(),
        final(tokens)@.toks == old(tokens)@.toks,
        old(tokens)@.pos <= final(tokens)@.pos <= old(tokens)@.toks.len(),
        r is Ok ==> old(tokens)@.pos < final(tokens)@.pos < old(tokens)@.toks.len(),
        final(tokens)@.pos == sp_while(old(tokens)@.toks, old(tokens)@.pos).pos,
        matches_decl(r, sp_while(old(tokens)@.toks, old(tokens)@.pos).out),
    decreases old(tokens)@.toks.len() - old(tokens)@.pos, 28int,
{
    proof {
        reveal_with_fuel(sp_while, 1);
        reveal_with_fuel(sp_expression, 1);
        reveal_with_fuel(sp_statement, 1);
    }
    let ghost toks = old(tokens)@.toks;
    match tokens.consume(TokenType::While) {
        Err(e) => {
            return Err(e);
        },
        Ok(_) => {},
    }
    proof {
        lemma_mid_token(toks, tokens@.pos - 1);
    }
    match tokens.consume(TokenType::LeftParen) {
        Err(e) => {
            return Err(e);
        },
        Ok(_) => {},
    }
    proof {
        lemma_mid_token(toks, tokens@.pos - 1);
    }
    let condition = match parse_expression(tokens) {
        Ok(e) => e,
        Err(e) => {
            return Err(e);
        },
    };
    match tokens.consume(TokenType::RightParen) {
        Err(e) => {
            return Err(e);
        },
        Ok(_) => {},
    }
    proof {
        lemma_mid_token(toks, tokens@.pos - 1);
    }
    let while_statement = match parse_statement(tokens) {
        Ok(s) => s,
        Err(e) => {
            return Err(e);
        },
    };
    Ok(Declaration::While(condition, Box::new(while_statement)))
}

#[verifier::rlimit(100)]
#[verifier::spinoff_prover]
fn parse_return(tokens: &mut Tokens) -> (r: Result<Declaration, LoxError>)
    requires
        old(tokens).wf(),
        tokens_wf(old(tokens)@.toks),
        old(tokens)@.pos < old(tokens)@.toks.len(),
    ensures
        final(tokens).wf(),
        final(tokens)@.toks == old(tokens)@.toks,
        old(tokens)@.pos <= final(tokens)@.pos <= old(tokens)@.toks.len(),
        r is Ok ==> old(tokens)@.pos < final(tokens)@.pos < old(tokens)@.toks.len(),
        final(tokens)@.pos == sp_return(old(tokens)@.toks, old(tokens)@.pos).pos,
        matches_decl(r, sp_return(old(tokens)@.toks, old(tokens)@.pos).out),
    decreases old(tokens)@.toks.len() - old(tokens)@.pos, 28int,
{
    proof {
        reveal_with_fuel(sp_return, 1);
        reveal_with_fuel(sp_expression, 1);
    }
    let ghost toks = old(tokens)@.toks;
    match tokens.consume(TokenType::Return) {
        Err(e) => {
            return Err(e);
        },
        Ok(_) => {},
    }
    proof {
        lemma_mid_token(toks, tokens@.pos - 1);
    }
    if tokens.consume(TokenType::Semicolon).is_ok() {
        proof {
            lemma_mid_token(toks, tokens@.pos - 1);
        }
        let nil_expr = Expression::Nil;
        proof {
            assert(nil_expr@ == SpecExpr::Nil);
        }
        Ok(Declaration::Return(nil_expr))
    } else {
        let e = match parse_expression(tokens) {
            Ok(e) => e,
            Err(e) => {
                return Err(e);
            },
        };
        match tokens.consume(TokenType::Semicolon) {
            Ok(_) => {
                proof {
                    lemma_mid_token(toks, tokens@.pos - 1);
                }
                Ok(Declaration::Return(e))
            },
            Err(er) => Err(er),
        }
    }
}

#[verifier::rlimit(100)]
#[verifier::spinoff_prover]
fn parse_for(tokens: &mut Tokens) -> (r: Result<Declaration, LoxError>)
    requires
        old(tokens).wf(),
        tokens_wf(old(tokens)@.toks),
        old(tokens)@.pos < old(tokens)@.toks.len(),
    ensures
        final(tokens).wf(),
        final(tokens)@.toks == old(tokens)@.toks,
        old(tokens)@.pos <= final(tokens)@.pos <= old(tokens)@.toks.len(),
        r is Ok ==> old(tokens)@.pos < final(tokens)@.pos < old(tokens)@.toks.len(),
        final(tokens)@.pos == sp_for(old(tokens)@.toks, old(tokens)@.pos).pos,
        matches_decl(r, sp_for(old(tokens)@.toks, old(tokens)@.pos).out),
    decreases old(tokens)@.toks.len() - old(tokens)@.pos, 28int,
{
    proof {
        reveal_with_fuel(sp_for, 1);
        reveal_with_fuel(sp_var_declaration, 1);
        reveal_with_fuel(sp_expression_statement, 1);
        reveal_with_fuel(sp_expression, 1);
        reveal_with_fuel(sp_statement, 1);
    }
    let ghost toks = old(tokens)@.toks;
    match tokens.consume(TokenType::For) {
        Err(e) => {
            return Err(e);
        },
        Ok(_) => {},
    }
    proof {
        lemma_mid_token(toks, tokens@.pos - 1);
    }
    match tokens.consume(TokenType::LeftParen) {
        Err(e) => {
            return Err(e);
        },
        Ok(_) => {},
    }
    proof {
        lemma_mid_token(toks, tokens@.pos - 1);
    }
    let initializer: Option<Declaration> = if tokens.consume(TokenType::Semicolon).is_ok() {
        proof {
            lemma_mid_token(toks, tokens@.pos - 1);
        }
        None
    } else if matches!(tokens.peek_type(), TokenType::Var) {
        match parse_var_declaration(tokens) {
            Ok(d) => Some(d),
            Err(e) => {
                return Err(e);
            },
        }
    } else {
        match parse_expression_statement(tokens) {
            Ok(d) => Some(d),
            Err(e) => {
                return Err(e);
            },
        }
    };
    let condition: Option<Expression> = if tokens.consume(TokenType::Semicolon).is_ok() {
        proof {
            lemma_mid_token(toks, tokens@.pos - 1);
        }
        None
    } else {
        let e = match parse_expression(tokens) {
            Ok(e) => e,
            Err(e) => {
                return Err(e);
            },
        };
        match tokens.consume(TokenType::Semicolon) {
            Err(e) => {
                return Err(e);
            },
            Ok(_) => {},
        }
        proof {
            lemma_mid_token(toks, tokens@.pos - 1);
        }
        Some(e)
    };
    let increment: Option<Expression> = if matches!(tokens.peek_type(), TokenType::RightParen) {
        None
    } else {
        match parse_expression(tokens) {
            Ok(e) => Some(e),
            Err(e) => {
                return Err(e);
            },
        }
    };
    match tokens.consume(TokenType::RightParen) {
        Err(e) => {
            return Err(e);
        },
        Ok(_) => {},
    }
    proof {
        lemma_mid_token(toks, tokens@.pos - 1);
    }
    let mut body = match parse_statement(tokens) {
        Ok(s) => s,
        Err(e) => {
            return Err(e);
        },
    };
    if let Some(inc) = increment {
        let incd = Declaration::Expression(inc);
        let ghost gbody = body;
        let ghost gincd = incd;
        proof {
            assert(gincd@ == SpecDecl::Expression(inc@));
            crate::grammar::lemma_sdecls_two(gbody, gincd);
        }
        let mut block: Vec<Declaration> = Vec::new();
        block.push(body);
        block.push(incd);
        proof {
            assert(block@ =~= seq![gbody, gincd]);
        }
        body = Declaration::Block(block);
        proof {
            assert(body@ == SpecDecl::Block(sdecls(seq![gbody, gincd])));
        }
    }
    body = match condition {
        Some(c) => Declaration::While(c, Box::new(body)),
        None => {
            let true_expr = Expression::True;
            proof {
                assert(true_expr@ == SpecExpr::True);
            }
            Declaration::While(true_expr, Box::new(body))
        },
    };
    if let Some(init) = initializer {
        let ghost ginit = init;
        let ghost gbody2 = body;
        proof {
            crate::grammar::lemma_sdecls_two(ginit, gbody2);
        }
        let mut block: Vec<Declaration> = Vec::new();
        block.push(init);
        block.push(body);
        proof {
            assert(block@ =~= seq![ginit, gbody2]);
        }
        body = Declaration::Block(block);
        proof {
            assert(body@ == SpecDecl::Block(sdecls(seq![ginit, gbody2])));
        }
    }
    Ok(body)
}

} // verus!
