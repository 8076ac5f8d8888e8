//! The expression grammar, lowest precedence first: assignment, `or`, `and`,
//! equality, comparison, term, factor, unary, call, primary.  Every binary
//! rule is right-recursive.  Each executable parser is proved equal to its
//! specification mirror `sp_*`.

use vstd::prelude::*;

use crate::error::LoxError;
use crate::error::SpecLoxError;
use crate::grammar::Expression;
use crate::grammar::SpecExpr;
use crate::grammar::sexprs;
use crate::grammar::lemma_sexprs_push;
use crate::grammar::lemma_sexprs_len;
use crate::parser::SpecParsed;
use crate::parser::cl;
use crate::parser::matches_expr;
use crate::parser::sp_consume_err;
use crate::token::SpecToken;
use crate::token::SpecTokenType;
use crate::token::TokenType;
use crate::token::Tokens;
use crate::token::tokens_wf;

verus! {

#[verifier::opaque]
pub open spec fn sp_expression(toks: Seq<SpecToken>, pos: int) -> SpecParsed<SpecExpr>
    decreases toks.len() - pos, 12int,
    when 0 <= pos <= toks.len()
{
    sp_assignment(toks, pos)
}

#[verifier::opaque]
pub open spec fn sp_assignment(toks: Seq<SpecToken>, pos: int) -> SpecParsed<SpecExpr>
    decreases toks.len() - pos, 9int,
    when 0 <= pos <= toks.len()
{
    let len = toks.len() as int;
    let r1 = sp_or(toks, pos);
    match r1.out {
        Err(e) => SpecParsed { pos: cl(len, pos, r1.pos), out: Err(e) },
        Ok(left) => {
            let p1 = cl(len, pos, r1.pos);
            if p1 < len && toks[p1].token_type == SpecTokenType::Equal {
                match left {
                    SpecExpr::Variable(name) => {
                        let r2 = sp_assignment(toks, p1 + 1);
                        SpecParsed {
                            pos: cl(len, p1 + 1, r2.pos),
                            out: match r2.out {
                                Ok(a) => Ok(SpecExpr::Assignment(name, Box::new(a))),
                                Err(e) => Err(e),
                            },
                        }
                    },
                    _ => SpecParsed {
                        pos: p1 + 1,
                        out: Err(
                            SpecLoxError {
                                line: if p1 + 1 < len {
                                    toks[p1 + 1].line
                                } else {
                                    0
                                },
                                message: "Invalid assignment target."@,
                            },
                        ),
                    },
                }
            } else {
                SpecParsed { pos: p1, out: Ok(left) }
            }
        },
    }
}

#[verifier::opaque]
pub open spec fn sp_or(toks: Seq<SpecToken>, pos: int) -> SpecParsed<SpecExpr>
    decreases toks.len() - pos, 8int,
    when 0 <= pos <= toks.len()
{
    let len = toks.len() as int;
    let r1 = sp_and(toks, pos);
    match r1.out {
        Err(e) => SpecParsed { pos: cl(len, pos, r1.pos), out: Err(e) },
        Ok(left) => {
            let p1 = cl(len, pos, r1.pos);
            if p1 < len && toks[p1].token_type == SpecTokenType::Or {
                let r2 = sp_or(toks, p1 + 1);
                SpecParsed {
                    pos: cl(len, p1 + 1, r2.pos),
                    out: match r2.out {
                        Ok(rr) => Ok(SpecExpr::Or(Box::new(left), Box::new(rr))),
                        Err(e) => Err(e),
                    },
                }
            } else {
                SpecParsed { pos: p1, out: Ok(left) }
            }
        },
    }
}

#[verifier::opaque]
pub open spec fn sp_and(toks: Seq<SpecToken>, pos: int) -> SpecParsed<SpecExpr>
    decreases toks.len() - pos, 7int,
    when 0 <= pos <= toks.len()
{
    let len = toks.len() as int;
    let r1 = sp_equality(toks, pos);
    match r1.out {
        Err(e) => SpecParsed { pos: cl(len, pos, r1.pos), out: Err(e) },
        Ok(left) => {
            let p1 = cl(len, pos, r1.pos);
            if p1 < len && toks[p1].token_type == SpecTokenType::And {
                let r2 = sp_and(toks, p1 + 1);
                SpecParsed {
                    pos: cl(len, p1 + 1, r2.pos),
                    out: match r2.out {
                        Ok(rr) => Ok(SpecExpr::And(Box::new(left), Box::new(rr))),
                        Err(e) => Err(e),
                    },
                }
            } else {
                SpecParsed { pos: p1, out: Ok(left) }
            }
        },
    }
}

#[verifier::opaque]
pub open spec fn sp_equality(toks: Seq<SpecToken>, pos: int) -> SpecParsed<SpecExpr>
    decreases toks.len() - pos, 6int,
    when 0 <= pos <= toks.len()
{
    let len = toks.len() as int;
    let r1 = sp_comparison(toks, pos);
    match r1.out {
        Err(e) => SpecParsed { pos: cl(len, pos, r1.pos), out: Err(e) },
        Ok(left) => {
            let p1 = cl(len, pos, r1.pos);
            if p1 < len && toks[p1].token_type == SpecTokenType::BangEqual {
                let r2 = sp_equality(toks, p1 + 1);
                SpecParsed {
                    pos: cl(len, p1 + 1, r2.pos),
                    out: match r2.out {
                        Ok(rr) => Ok(SpecExpr::NotEqual(Box::new(left), Box::new(rr))),
                        Err(e) => Err(e),
                    },
                }
            } else if p1 < len && toks[p1].token_type == SpecTokenType::EqualEqual {
                let r2 = sp_equality(toks, p1 + 1);
                SpecParsed {
                    pos: cl(len, p1 + 1, r2.pos),
                    out: match r2.out {
                        Ok(rr) => Ok(SpecExpr::Equal(Box::new(left), Box::new(rr))),
                        Err(e) => Err(e),
                    },
                }
            } else {
                SpecParsed { pos: p1, out: Ok(left) }
            }
        },
    }
}

#[verifier::opaque]
pub open spec fn sp_comparison(toks: Seq<SpecToken>, pos: int) -> SpecParsed<SpecExpr>
    decreases toks.len() - pos, 5int,
    when 0 <= pos <= toks.len()
{
    let len = toks.len() as int;
    let r1 = sp_term(toks, pos);
    match r1.out {
        Err(e) => SpecParsed { pos: cl(len, pos, r1.pos), out: Err(e) },
        Ok(left) => {
            let p1 = cl(len, pos, r1.pos);
            if p1 < len && toks[p1].token_type == SpecTokenType::LessEqual {
                let r2 = sp_comparison(toks, p1 + 1);
                SpecParsed {
                    pos: cl(len, p1 + 1, r2.pos),
                    out: match r2.out {
                        Ok(rr) => Ok(SpecExpr::LessEqual(Box::new(left), Box::new(rr))),
                        Err(e) => Err(e),
                    },
                }
            } else if p1 < len && toks[p1].token_type == SpecTokenType::Less {
                let r2 = sp_comparison(toks, p1 + 1);
                SpecParsed {
                    pos: cl(len, p1 + 1, r2.pos),
                    out: match r2.out {
                        Ok(rr) => Ok(SpecExpr::Less(Box::new(left), Box::new(rr))),
                        Err(e) => Err(e),
                    },
                }
            } else if p1 < len && toks[p1].token_type == SpecTokenType::GreaterEqual {
                let r2 = sp_comparison(toks, p1 + 1);
                SpecParsed {
                    pos: cl(len, p1 + 1, r2.pos),
                    out: match r2.out {
                        Ok(rr) => Ok(SpecExpr::GreaterEqual(Box::new(left), Box::new(rr))),
                        Err(e) => Err(e),
                    },
                }
            } else if p1 < len && toks[p1].token_type == SpecTokenType::Greater {
                let r2 = sp_comparison(toks, p1 + 1);
                SpecParsed {
                    pos: cl(len, p1 + 1, r2.pos),
                    out: match r2.out {
                        Ok(rr) => Ok(SpecExpr::Greater(Box::new(left), Box::new(rr))),
                        Err(e) => Err(e),
                    },
                }
            } else {
                SpecParsed { pos: p1, out: Ok(left) }
            }
        },
    }
}

#[verifier::opaque]
pub open spec fn sp_term(toks: Seq<SpecToken>, pos: int) -> SpecParsed<SpecExpr>
    decreases toks.len() - pos, 4int,
    when 0 <= pos <= toks.len()
{
    let len = toks.len() as int;
    let r1 = sp_factor(toks, pos);
    match r1.out {
        Err(e) => SpecParsed { pos: cl(len, pos, r1.pos), out: Err(e) },
        Ok(left) => {
            let p1 = cl(len, pos, r1.pos);
            if p1 < len && toks[p1].token_type == SpecTokenType::Minus {
                let r2 = sp_term(toks, p1 + 1);
                SpecParsed {
                    pos: cl(len, p1 + 1, r2.pos),
                    out: match r2.out {
                        Ok(rr) => Ok(SpecExpr::Minus(Box::new(left), Box::new(rr))),
                        Err(e) => Err(e),
                    },
                }
            } else if p1 < len && toks[p1].token_type == SpecTokenType::Plus {
                let r2 = sp_term(toks, p1 + 1);
                SpecParsed {
                    pos: cl(len, p1 + 1, r2.pos),
                    out: match r2.out {
                        Ok(rr) => Ok(SpecExpr::Plus(Box::new(left), Box::new(rr))),
                        Err(e) => Err(e),
                    },
                }
            } else {
                SpecParsed { pos: p1, out: Ok(left) }
            }
        },
    }
}

#[verifier::opaque]
pub open spec fn sp_factor(toks: Seq<SpecToken>, pos: int) -> SpecParsed<SpecExpr>
    decreases toks.len() - pos, 3int,
    when 0 <= pos <= toks.len()
{
    let len = toks.len() as int;
    let r1 = sp_unary(toks, pos);
    match r1.out {
        Err(e) => SpecParsed { pos: cl(len, pos, r1.pos), out: Err(e) },
        Ok(left) => {
            let p1 = cl(len, pos, r1.pos);
            if p1 < len && toks[p1].token_type == SpecTokenType::Slash {
                let r2 = sp_factor(toks, p1 + 1);
                SpecParsed {
                    pos: cl(len, p1 + 1, r2.pos),
                    out: match r2.out {
                        Ok(rr) => Ok(SpecExpr::Divide(Box::new(left), Box::new(rr))),
                        Err(e) => Err(e),
                    },
                }
            } else if p1 < len && toks[p1].token_type == SpecTokenType::Star {
                let r2 = sp_factor(toks, p1 + 1);
                SpecParsed {
                    pos: cl(len, p1 + 1, r2.pos),
                    out: match r2.out {
                        Ok(rr) => Ok(SpecExpr::Multiply(Box::new(left), Box::new(rr))),
                        Err(e) => Err(e),
                    },
                }
            } else {
                SpecParsed { pos: p1, out: Ok(left) }
            }
        },
    }
}

#[verifier::opaque]
pub open spec fn sp_unary(toks: Seq<SpecToken>, pos: int) -> SpecParsed<SpecExpr>
    decreases toks.len() - pos, 2int,
    when 0 <= pos <= toks.len()
{
    let len = toks.len() as int;
    if pos < len && toks[pos].token_type == SpecTokenType::Bang {
        let r = sp_unary(toks, pos + 1);
        SpecParsed {
            pos: cl(len, pos + 1, r.pos),
            out: match r.out {
                Ok(e) => Ok(SpecExpr::Not(Box::new(e))),
                Err(e) => Err(e),
            },
        }
    } else if pos < len && toks[pos].token_type == SpecTokenType::Minus {
        let r = sp_unary(toks, pos + 1);
        SpecParsed {
            pos: cl(len, pos + 1, r.pos),
            out: match r.out {
                Ok(e) => Ok(
                    SpecExpr::Minus(Box::new(SpecExpr::Number(0)), Box::new(e)),
                ),
                Err(e) => Err(e),
            },
        }
    } else {
        sp_call(toks, pos)
    }
}

#[verifier::opaque]
pub open spec fn sp_call(toks: Seq<SpecToken>, pos: int) -> SpecParsed<SpecExpr>
    decreases toks.len() - pos, 1int,
    when 0 <= pos <= toks.len()
{
    let len = toks.len() as int;
    let r1 = sp_primary(toks, pos);
    match r1.out {
        Err(e) => SpecParsed { pos: cl(len, pos, r1.pos), out: Err(e) },
        Ok(callee) => sp_call_chain(toks, cl(len, pos, r1.pos), callee),
    }
}

#[verifier::opaque]
pub open spec fn sp_call_chain(toks: Seq<SpecToken>, pos: int, callee: SpecExpr) -> SpecParsed<
    SpecExpr,
>
    decreases toks.len() - pos, 0int,
    when 0 <= pos <= toks.len()
{
    let len = toks.len() as int;
    if pos < len && toks[pos].token_type == SpecTokenType::LeftParen {
        if pos + 1 < len && toks[pos + 1].token_type == SpecTokenType::RightParen {
            sp_call_chain(toks, pos + 2, SpecExpr::Call(Box::new(callee), Seq::empty()))
        } else {
            let r = sp_args(toks, pos + 1);
            let p1 = cl(len, pos + 1, r.pos);
            match r.out {
                Err(e) => SpecParsed { pos: p1, out: Err(e) },
                Ok(args) => {
                    if p1 < len && toks[p1].token_type == SpecTokenType::RightParen {
                        sp_call_chain(toks, p1 + 1, SpecExpr::Call(Box::new(callee), args))
                    } else {
                        SpecParsed {
                            pos: p1,
                            out: Err(sp_consume_err(toks, p1, SpecTokenType::RightParen)),
                        }
                    }
                },
            }
        }
    } else {
        SpecParsed { pos, out: Ok(callee) }
    }
}

#[verifier::opaque]
pub open spec fn sp_args(toks: Seq<SpecToken>, pos: int) -> SpecParsed<Seq<SpecExpr>>
    decreases toks.len() - pos, 13int,
    when 0 <= pos <= toks.len()
{
    let len = toks.len() as int;
    let r1 = sp_expression(toks, pos);
    match r1.out {
        Err(e) => SpecParsed { pos: cl(len, pos, r1.pos), out: Err(e) },
        Ok(first) => {
            let r2 = sp_args_rest(toks, cl(len, pos, r1.pos), seq![first]);
            match r2.out {
                Err(e) => SpecParsed { pos: r2.pos, out: Err(e) },
                Ok(args) => {
                    if args.len() >= 255 {
                        SpecParsed {
                            pos: r2.pos,
                            out: Err(
                                SpecLoxError {
                                    line: if 0 <= r2.pos < len {
                                        toks[r2.pos].line
                                    } else {
                                        0
                                    },
                                    message: "Can't have more than 255 arguments."@,
                                },
                            ),
                        }
                    } else {
                        SpecParsed { pos: r2.pos, out: Ok(args) }
                    }
                },
            }
        },
    }
}

#[verifier::opaque]
pub open spec fn sp_args_rest(toks: Seq<SpecToken>, pos: int, acc: Seq<SpecExpr>) -> SpecParsed<
    Seq<SpecExpr>,
>
    decreases toks.len() - pos, 11int,
    when 0 <= pos <= toks.len()
{
    let len = toks.len() as int;
    if pos < len && toks[pos].token_type == SpecTokenType::Comma {
        let r = sp_expression(toks, pos + 1);
        match r.out {
            Err(e) => SpecParsed { pos: cl(len, pos + 1, r.pos), out: Err(e) },
            Ok(e) => sp_args_rest(toks, cl(len, pos + 1, r.pos), acc.push(e)),
        }
    } else {
        SpecParsed { pos, out: Ok(acc) }
    }
}

#[verifier::opaque]
pub open spec fn sp_primary(toks: Seq<SpecToken>, pos: int) -> SpecParsed<SpecExpr>
    decreases toks.len() - pos, 0int,
    when 0 <= pos <= toks.len()
{
    let len = toks.len() as int;
    if pos >= len {
        SpecParsed { pos, out: Err(SpecLoxError { line: 0, message: Seq::<char>::empty() }) }
    } else {
        match toks[pos].token_type {
            SpecTokenType::Number(b) => SpecParsed { pos: pos + 1, out: Ok(SpecExpr::Number(b)) },
            SpecTokenType::StrLit(s) => SpecParsed { pos: pos + 1, out: Ok(SpecExpr::StrLit(s)) },
            SpecTokenType::True => SpecParsed { pos: pos + 1, out: Ok(SpecExpr::True) },
            SpecTokenType::False => SpecParsed { pos: pos + 1, out: Ok(SpecExpr::False) },
            SpecTokenType::Nil => SpecParsed { pos: pos + 1, out: Ok(SpecExpr::Nil) },
            SpecTokenType::LeftParen => {
                let r = sp_expression(toks, pos + 1);
                let p1 = cl(len, pos + 1, r.pos);
                match r.out {
                    Err(e) => SpecParsed { pos: p1, out: Err(e) },
                    Ok(e) => {
                        if p1 < len && toks[p1].token_type == SpecTokenType::RightParen {
                            SpecParsed { pos: p1 + 1, out: Ok(SpecExpr::Paren(Box::new(e))) }
                        } else {
                            SpecParsed {
                                pos: p1,
                                out: Err(sp_consume_err(toks, p1, SpecTokenType::RightParen)),
                            }
                        }
                    },
                }
            },
            SpecTokenType::Identifier(id) => SpecParsed {
                pos: pos + 1,
                out: Ok(SpecExpr::Variable(id)),
            },
            _ => SpecParsed {
                pos,
                out: Err(
                    SpecLoxError {
                        line: toks[pos].line,
                        message: "Expected expression, got "@ + toks[pos].lexeme,
                    },
                ),
            },
        }
    }
}

/// A token that is not `Eof` never stands last, so one more token follows.
pub proof fn lemma_mid_token(toks: Seq<SpecToken>, p: int)
    requires
        tokens_wf(toks),
        0 <= p < toks.len(),
        toks[p].token_type != SpecTokenType::Eof,
    ensures
        p + 1 < toks.len(),
{
}

pub fn parse_expression(tokens: &mut Tokens) -> (r: Result<Expression, LoxError>)
    requires
        old(tokens).wf(),
        tokens_wf(old(tokens)@.toks),
        old(tokens)@.pos < old(tokens)@.toks.len(),
    ensures
        final(tokens).wf(),
        final(tokens)@.toks == old(tokens)@.toks,
        old(tokens)@.pos <= final(tokens)@.pos <= old(tokens)@.toks.len(),
        r is Ok ==> old(tokens)@.pos < final(tokens)@.pos < old(tokens)@.toks.len(),
        final(tokens)@.pos == sp_expression(old(tokens)@.toks, old(tokens)@.pos).pos,
        matches_expr(r, sp_expression(old(tokens)@.toks, old(tokens)@.pos).out),
    decreases old(tokens)@.toks.len() - old(tokens)@.pos, 12int,
{
    proof {
        reveal_with_fuel(sp_expression, 1);
        reveal_with_fuel(sp_assignment, 1);
    }
    parse_assignment(tokens)
}

fn parse_assignment(tokens: &mut Tokens) -> (r: Result<Expression, LoxError>)
    requires
        old(tokens).wf(),
        tokens_wf(old(tokens)@.toks),
        old(tokens)@.pos < old(tokens)@.toks.len(),
    ensures
        final(tokens).wf(),
        final(tokens)@.toks == old(tokens)@.toks,
        old(tokens)@.pos <= final(tokens)@.pos <= old(tokens)@.toks.len(),
        r is Ok ==> old(tokens)@.pos < final(tokens)@.pos < old(tokens)@.toks.len(),
        final(tokens)@.pos == sp_assignment(old(tokens)@.toks, old(tokens)@.pos).pos,
        matches_expr(r, sp_assignment(old(tokens)@.toks, old(tokens)@.pos).out),
    decreases old(tokens)@.toks.len() - old(tokens)@.pos, 9int,
{
    proof {
        reveal_with_fuel(sp_assignment, 2);
        reveal_with_fuel(sp_or, 1);
    }
    let ghost toks = old(tokens)@.toks;
    let left = match parse_or(tokens) {
        Ok(e) => e,
        Err(e) => {
            return Err(e);
        },
    };
    if tokens.consume(TokenType::Equal).is_ok() {
        proof {
            lemma_mid_token(toks, tokens@.pos - 1);
        }
        match left {
            Expression::Variable(name) => {
                let assignment = match parse_assignment(tokens) {
                    Ok(e) => e,
                    Err(e) => {
                        return Err(e);
                    },
                };
                Ok(Expression::Assignment(name, Box::new(assignment)))
            },
            _ => {
                let token = tokens.peek();
                Err(
                    LoxError {
                        line: token.line,
                        message: String::from_str("Invalid assignment target."),
                    },
                )
            },
        }
    } else {
        Ok(left)
    }
}

fn parse_or(tokens: &mut Tokens) -> (r: Result<Expression, LoxError>)
    requires
        old(tokens).wf(),
        tokens_wf(old(tokens)@.toks),
        old(tokens)@.pos < old(tokens)@.toks.len(),
    ensures
        final(tokens).wf(),
        final(tokens)@.toks == old(tokens)@.toks,
        old(tokens)@.pos <= final(tokens)@.pos <= old(tokens)@.toks.len(),
        r is Ok ==> old(tokens)@.pos < final(tokens)@.pos < old(tokens)@.toks.len(),
        final(tokens)@.pos == sp_or(old(tokens)@.toks, old(tokens)@.pos).pos,
        matches_expr(r, sp_or(old(tokens)@.toks, old(tokens)@.pos).out),
    decreases old(tokens)@.toks.len() - old(tokens)@.pos, 8int,
{
    proof {
        reveal_with_fuel(sp_or, 2);
        reveal_with_fuel(sp_and, 1);
    }
    let ghost toks = old(tokens)@.toks;
    let left = match parse_and(tokens) {
        Ok(e) => e,
        Err(e) => {
            return Err(e);
        },
    };
    if tokens.consume(TokenType::Or).is_ok() {
        proof {
            lemma_mid_token(toks, tokens@.pos - 1);
        }
        let right = match parse_or(tokens) {
            Ok(e) => e,
            Err(e) => {
                return Err(e);
            },
        };
        Ok(Expression::Or(Box::new(left), Box::new(right)))
    } else {
        Ok(left)
    }
}

fn parse_and(tokens: &mut Tokens) -> (r: Result<Expression, LoxError>)
    requires
        old(tokens).wf(),
        tokens_wf(old(tokens)@.toks),
        old(tokens)@.pos < old(tokens)@.toks.len(),
    ensures
        final(tokens).wf(),
        final(tokens)@.toks == old(tokens)@.toks,
        old(tokens)@.pos <= final(tokens)@.pos <= old(tokens)@.toks.len(),
        r is Ok ==> old(tokens)@.pos < final(tokens)@.pos < old(tokens)@.toks.len(),
        final(tokens)@.pos == sp_and(old(tokens)@.toks, old(tokens)@.pos).pos,
        matches_expr(r, sp_and(old(tokens)@.toks, old(tokens)@.pos).out),
    decreases old(tokens)@.toks.len() - old(tokens)@.pos, 7int,
{
    proof {
        reveal_with_fuel(sp_and, 2);
        reveal_with_fuel(sp_equality, 1);
    }
    let ghost toks = old(tokens)@.toks;
    let left = match parse_equality(tokens) {
        Ok(e) => e,
        Err(e) => {
            return Err(e);
        },
    };
    if tokens.consume(TokenType::And).is_ok() {
        proof {
            lemma_mid_token(toks, tokens@.pos - 1);
        }
        let right = match parse_and(tokens) {
            Ok(e) => e,
            Err(e) => {
                return Err(e);
            },
        };
        Ok(Expression::And(Box::new(left), Box::new(right)))
    } else {
        Ok(left)
    }
}

fn parse_equality(tokens: &mut Tokens) -> (r: Result<Expression, LoxError>)
    requires
        old(tokens).wf(),
        tokens_wf(old(tokens)@.toks),
        old(tokens)@.pos < old(tokens)@.toks.len(),
    ensures
        final(tokens).wf(),
        final(tokens)@.toks == old(tokens)@.toks,
        old(tokens)@.pos <= final(tokens)@.pos <= old(tokens)@.toks.len(),
        r is Ok ==> old(tokens)@.pos < final(tokens)@.pos < old(tokens)@.toks.len(),
        final(tokens)@.pos == sp_equality(old(tokens)@.toks, old(tokens)@.pos).pos,
        matches_expr(r, sp_equality(old(tokens)@.toks, old(tokens)@.pos).out),
    decreases old(tokens)@.toks.len() - old(tokens)@.pos, 6int,
{
    proof {
        reveal_with_fuel(sp_equality, 2);
        reveal_with_fuel(sp_comparison, 1);
    }
    let ghost toks = old(tokens)@.toks;
    let left = match parse_comparison(tokens) {
        Ok(e) => e,
        Err(e) => {
            return Err(e);
        },
    };
    if tokens.consume(TokenType::BangEqual).is_ok() {
        proof {
            lemma_mid_token(toks, tokens@.pos - 1);
        }
        let right = match parse_equality(tokens) {
            Ok(e) => e,
            Err(e) => {
                return Err(e);
            },
        };
        Ok(Expression::NotEqual(Box::new(left), Box::new(right)))
    } else if tokens.consume(TokenType::EqualEqual).is_ok() {
        proof {
            lemma_mid_token(toks, tokens@.pos - 1);
        }
        let right = match parse_equality(tokens) {
            Ok(e) => e,
            Err(e) => {
                return Err(e);
            },
        };
        Ok(Expression::Equal(Box::new(left), Box::new(right)))
    } else {
        Ok(left)
    }
}

fn parse_comparison(tokens: &mut Tokens) -> (r: Result<Expression, LoxError>)
    requires
        old(tokens).wf(),
        tokens_wf(old(tokens)@.toks),
        old(tokens)@.pos < old(tokens)@.toks.len(),
    ensures
        final(tokens).wf(),
        final(tokens)@.toks == old(tokens)@.toks,
        old(tokens)@.pos <= final(tokens)@.pos <= old(tokens)@.toks.len(),
        r is Ok ==> old(tokens)@.pos < final(tokens)@.pos < old(tokens)@.toks.len(),
        final(tokens)@.pos == sp_comparison(old(tokens)@.toks, old(tokens)@.pos).pos,
        matches_expr(r, sp_comparison(old(tokens)@.toks, old(tokens)@.pos).out),
    decreases old(tokens)@.toks.len() - old(tokens)@.pos, 5int,
{
    proof {
        reveal_with_fuel(sp_comparison, 2);
        reveal_with_fuel(sp_term, 1);
    }
    let ghost toks = old(tokens)@.toks;
    let left = match parse_term(tokens) {
        Ok(e) => e,
        Err(e) => {
            return Err(e);
        },
    };
    if tokens.consume(TokenType::LessEqual).is_ok() {
        proof {
            lemma_mid_token(toks, tokens@.pos - 1);
        }
        let right = match parse_comparison(tokens) {
            Ok(e) => e,
            Err(e) => {
                return Err(e);
            },
        };
        Ok(Expression::LessEqual(Box::new(left), Box::new(right)))
    } else if tokens.consume(TokenType::Less).is_ok() {
        proof {
            lemma_mid_token(toks, tokens@.pos - 1);
        }
        let right = match parse_comparison(tokens) {
            Ok(e) => e,
            Err(e) => {
                return Err(e);
            },
        };
        Ok(Expression::Less(Box::new(left), Box::new(right)))
    } else if tokens.consume(TokenType::GreaterEqual).is_ok() {
        proof {
            lemma_mid_token(toks, tokens@.pos - 1);
        }
        let right = match parse_comparison(tokens) {
            Ok(e) => e,
            Err(e) => {
                return Err(e);
            },
        };
        Ok(Expression::GreaterEqual(Box::new(left), Box::new(right)))
    } else if tokens.consume(TokenType::Greater).is_ok() {
        proof {
            lemma_mid_token(toks, tokens@.pos - 1);
        }
        let right = match parse_comparison(tokens) {
            Ok(e) => e,
            Err(e) => {
                return Err(e);
            },
        };
        Ok(Expression::Greater(Box::new(left), Box::new(right)))
    } else {
        Ok(left)
    }
}

fn parse_term(tokens: &mut Tokens) -> (r: Result<Expression, LoxError>)
    requires
        old(tokens).wf(),
        tokens_wf(old(tokens)@.toks),
        old(tokens)@.pos < old(tokens)@.toks.len(),
    ensures
        final(tokens).wf(),
        final(tokens)@.toks == old(tokens)@.toks,
        old(tokens)@.pos <= final(tokens)@.pos <= old(tokens)@.toks.len(),
        r is Ok ==> old(tokens)@.pos < final(tokens)@.pos < old(tokens)@.toks.len(),
        final(tokens)@.pos == sp_term(old(tokens)@.toks, old(tokens)@.pos).pos,
        matches_expr(r, sp_term(old(tokens)@.toks, old(tokens)@.pos).out),
    decreases old(tokens)@.toks.len() - old(tokens)@.pos, 4int,
{
    proof {
        reveal_with_fuel(sp_term, 2);
        reveal_with_fuel(sp_factor, 1);
    }
    let ghost toks = old(tokens)@.toks;
    let left = match parse_factor(tokens) {
        Ok(e) => e,
        Err(e) => {
            return Err(e);
        },
    };
    if tokens.consume(TokenType::Minus).is_ok() {
        proof {
            lemma_mid_token(toks, tokens@.pos - 1);
        }
        let right = match parse_term(tokens) {
            Ok(e) => e,
            Err(e) => {
                return Err(e);
            },
        };
        Ok(Expression::Minus(Box::new(left), Box::new(right)))
    } else if tokens.consume(TokenType::Plus).is_ok() {
        proof {
            lemma_mid_token(toks, tokens@.pos - 1);
        }
        let right = match parse_term(tokens) {
            Ok(e) => e,
            Err(e) => {
                return Err(e);
            },
        };
        Ok(Expression::Plus(Box::new(left), Box::new(right)))
    } else {
        Ok(left)
    }
}

fn parse_factor(tokens: &mut Tokens) -> (r: Result<Expression, LoxError>)
    requires
        old(tokens).wf(),
        tokens_wf(old(tokens)@.toks),
        old(tokens)@.pos < old(tokens)@.toks.len(),
    ensures
        final(tokens).wf(),
        final(tokens)@.toks == old(tokens)@.toks,
        old(tokens)@.pos <= final(tokens)@.pos <= old(tokens)@.toks.len(),
        r is Ok ==> old(tokens)@.pos < final(tokens)@.pos < old(tokens)@.toks.len(),
        final(tokens)@.pos == sp_factor(old(tokens)@.toks, old(tokens)@.pos).pos,
        matches_expr(r, sp_factor(old(tokens)@.toks, old(tokens)@.pos).out),
    decreases old(tokens)@.toks.len() - old(tokens)@.pos, 3int,
{
    proof {
        reveal_with_fuel(sp_factor, 2);
        reveal_with_fuel(sp_unary, 1);
    }
    let ghost toks = old(tokens)@.toks;
    let left = match parse_unary(tokens) {
        Ok(e) => e,
        Err(e) => {
            return Err(e);
        },
    };
    if tokens.consume(TokenType::Slash).is_ok() {
        proof {
            lemma_mid_token(toks, tokens@.pos - 1);
        }
        let right = match parse_factor(tokens) {
            Ok(e) => e,
            Err(e) => {
                return Err(e);
            },
        };
        Ok(Expression::Divide(Box::new(left), Box::new(right)))
    } else if tokens.consume(TokenType::Star).is_ok() {
        proof {
            lemma_mid_token(toks, tokens@.pos - 1);
        }
        let right = match parse_factor(tokens) {
            Ok(e) => e,
            Err(e) => {
                return Err(e);
            },
        };
        Ok(Expression::Multiply(Box::new(left), Box::new(right)))
    } else {
        Ok(left)
    }
}

#[verifier::rlimit(100)]
#[verifier::spinoff_prover]
fn parse_unary(tokens: &mut Tokens) -> (r: Result<Expression, LoxError>)
    requires
        old(tokens).wf(),
        tokens_wf(old(tokens)@.toks),
        old(tokens)@.pos < old(tokens)@.toks.len(),
    ensures
        final(tokens).wf(),
        final(tokens)@.toks == old(tokens)@.toks,
        old(tokens)@.pos <= final(tokens)@.pos <= old(tokens)@.toks.len(),
        r is Ok ==> old(tokens)@.pos < final(tokens)@.pos < old(tokens)@.toks.len(),
        final(tokens)@.pos == sp_unary(old(tokens)@.toks, old(tokens)@.pos).pos,
        matches_expr(r, sp_unary(old(tokens)@.toks, old(tokens)@.pos).out),
    decreases old(tokens)@.toks.len() - old(tokens)@.pos, 2int,
{
    proof {
        reveal_with_fuel(sp_unary, 2);
        reveal_with_fuel(sp_call, 1);
    }
    let ghost toks = old(tokens)@.toks;
    if tokens.consume(TokenType::Bang).is_ok() {
        proof {
            lemma_mid_token(toks, tokens@.pos - 1);
        }
        let expression = match parse_unary(tokens) {
            Ok(e) => e,
            Err(e) => {
                return Err(e);
            },
        };
        Ok(Expression::Not(Box::new(expression)))
    } else if tokens.consume(TokenType::Minus).is_ok() {
        proof {
            lemma_mid_token(toks, tokens@.pos - 1);
        }
        let expression = match parse_unary(tokens) {
            Ok(e) => e,
            Err(e) => {
                return Err(e);
            },
        };
        let zero = Expression::Number(0);
        proof {
            assert(zero@ == SpecExpr::Number(0));
        }
        Ok(Expression::Minus(Box::new(zero), Box::new(expression)))
    } else {
        parse_call(tokens)
    }
}

fn parse_call(tokens: &mut Tokens) -> (r: Result<Expression, LoxError>)
    requires
        old(tokens).wf(),
        tokens_wf(old(tokens)@.toks),
        old(tokens)@.pos < old(tokens)@.toks.len(),
    ensures
        final(tokens).wf(),
        final(tokens)@.toks == old(tokens)@.toks,
        old(tokens)@.pos <= final(tokens)@.pos <= old(tokens)@.toks.len(),
        r is Ok ==> old(tokens)@.pos < final(tokens)@.pos < old(tokens)@.toks.len(),
        final(tokens)@.pos == sp_call(old(tokens)@.toks, old(tokens)@.pos).pos,
        matches_expr(r, sp_call(old(tokens)@.toks, old(tokens)@.pos).out),
    decreases old(tokens)@.toks.len() - old(tokens)@.pos, 1int,
{
    proof {
        reveal_with_fuel(sp_call, 1);
        reveal_with_fuel(sp_primary, 1);
        reveal_with_fuel(sp_call_chain, 1);
    }
    let callee = match parse_primary(tokens) {
        Ok(e) => e,
        Err(e) => {
            return Err(e);
        },
    };
    parse_call_chain(tokens, callee)
}

#[verifier::rlimit(100)]
#[verifier::spinoff_prover]
fn parse_call_chain(tokens: &mut Tokens, callee: Expression) -> (r: Result<Expression, LoxError>)
    requires
        old(tokens).wf(),
        tokens_wf(old(tokens)@.toks),
        old(tokens)@.pos < old(tokens)@.toks.len(),
    ensures
        final(tokens).wf(),
        final(tokens)@.toks == old(tokens)@.toks,
        old(tokens)@.pos <= final(tokens)@.pos <= old(tokens)@.toks.len(),
        r is Ok ==> final(tokens)@.pos < old(tokens)@.toks.len(),
        final(tokens)@.pos == sp_call_chain(old(tokens)@.toks, old(tokens)@.pos, callee@).pos,
        matches_expr(r, sp_call_chain(old(tokens)@.toks, old(tokens)@.pos, callee@).out),
    decreases old(tokens)@.toks.len() - old(tokens)@.pos, 0int,
{
    proof {
        reveal_with_fuel(sp_call_chain, 2);
        reveal_with_fuel(sp_args, 1);
    }
    let ghost toks = old(tokens)@.toks;
    if tokens.consume(TokenType::LeftParen).is_ok() {
        proof {
            lemma_mid_token(toks, tokens@.pos - 1);
        }
        if tokens.consume(TokenType::RightParen).is_ok() {
            proof {
                lemma_mid_token(toks, tokens@.pos - 1);
            }
            let no_args: Vec<Expression> = Vec::new();
            let next_callee = Expression::Call(Box::new(callee), no_args);
            proof {
                assert(sexprs(next_callee->Call_1@) =~= Seq::<SpecExpr>::empty());
                assert(next_callee@ == SpecExpr::Call(
                    Box::new(next_callee->Call_0@),
                    Seq::<SpecExpr>::empty(),
                ));
            }
            parse_call_chain(tokens, next_callee)
        } else {
            let args = match parse_args(tokens) {
                Ok(a) => a,
                Err(e) => {
                    return Err(e);
                },
            };
            match tokens.consume(TokenType::RightParen) {
                Ok(_) => {
                    proof {
                        lemma_mid_token(toks, tokens@.pos - 1);
                    }
                    let next_callee = Expression::Call(Box::new(callee), args);
                    proof {
                        assert(next_callee@ == SpecExpr::Call(
                            Box::new(next_callee->Call_0@),
                            sexprs(next_callee->Call_1@),
                        ));
                    }
                    parse_call_chain(tokens, next_callee)
                },
                Err(e) => Err(e),
            }
        }
    } else {
        Ok(callee)
    }
}

#[verifier::rlimit(100)]
#[verifier::spinoff_prover]
fn parse_args(tokens: &mut Tokens) -> (r: Result<Vec<Expression>, LoxError>)
    requires
        old(tokens).wf(),
        tokens_wf(old(tokens)@.toks),
        old(tokens)@.pos < old(tokens)@.toks.len(),
    ensures
        final(tokens).wf(),
        final(tokens)@.toks == old(tokens)@.toks,
        old(tokens)@.pos <= final(tokens)@.pos <= old(tokens)@.toks.len(),
        r is Ok ==> old(tokens)@.pos < final(tokens)@.pos < old(tokens)@.toks.len(),
        final(tokens)@.pos == sp_args(old(tokens)@.toks, old(tokens)@.pos).pos,
        ({
            let out = sp_args(old(tokens)@.toks, old(tokens)@.pos).out;
            match (r, out) {
                (Ok(v), Ok(sv)) => sexprs(v@) == sv,
                (Err(a), Err(b)) => a@ == b,
                _ => false,
            }
        }),
    decreases old(tokens)@.toks.len() - old(tokens)@.pos, 13int,
{
    proof {
        reveal_with_fuel(sp_args, 1);
        reveal_with_fuel(sp_expression, 1);
        reveal_with_fuel(sp_args_rest, 1);
    }
    let expression = match parse_expression(tokens) {
        Ok(e) => e,
        Err(e) => {
            return Err(e);
        },
    };
    let mut args: Vec<Expression> = Vec::new();
    proof {
        lemma_sexprs_push(args@, expression);
        assert(sexprs(Seq::<Expression>::empty()) =~= Seq::<SpecExpr>::empty());
        assert(Seq::<SpecExpr>::empty().push(expression@) =~= seq![expression@]);
    }
    args.push(expression);
    match parse_args_rest(tokens, &mut args) {
        Ok(_) => {},
        Err(e) => {
            return Err(e);
        },
    }
    proof {
        lemma_sexprs_len(args@);
    }
    if args.len() >= 255 {
        let token = tokens.peek();
        Err(
            LoxError {
                line: token.line,
                message: String::from_str("Can't have more than 255 arguments."),
            },
        )
    } else {
        Ok(args)
    }
}

fn parse_args_rest(tokens: &mut Tokens, args: &mut Vec<Expression>) -> (r: Result<(), LoxError>)
    requires
        old(tokens).wf(),
        tokens_wf(old(tokens)@.toks),
        old(tokens)@.pos < old(tokens)@.toks.len(),
    ensures
        final(tokens).wf(),
        final(tokens)@.toks == old(tokens)@.toks,
        old(tokens)@.pos <= final(tokens)@.pos <= old(tokens)@.toks.len(),
        r is Ok ==> final(tokens)@.pos < old(tokens)@.toks.len(),
        final(tokens)@.pos == sp_args_rest(
            old(tokens)@.toks,
            old(tokens)@.pos,
            sexprs(old(args)@),
        ).pos,
        ({
            let out = sp_args_rest(old(tokens)@.toks, old(tokens)@.pos, sexprs(old(args)@)).out;
            match (r, out) {
                (Ok(_), Ok(sv)) => sexprs(final(args)@) == sv,
                (Err(a), Err(b)) => a@ == b,
                _ => false,
            }
        }),
    decreases old(tokens)@.toks.len() - old(tokens)@.pos, 11int,
{
    proof {
        reveal_with_fuel(sp_args_rest, 2);
        reveal_with_fuel(sp_expression, 1);
    }
    let ghost toks = old(tokens)@.toks;
    if tokens.consume(TokenType::Comma).is_ok() {
        proof {
            lemma_mid_token(toks, tokens@.pos - 1);
        }
        let expression = match parse_expression(tokens) {
            Ok(e) => e,
            Err(e) => {
                return Err(e);
            },
        };
        proof {
            lemma_sexprs_push(args@, expression);
        }
        args.push(expression);
        parse_args_rest(tokens, args)
    } else {
        Ok(())
    }
}

#[verifier::rlimit(100)]
#[verifier::spinoff_prover]
fn parse_primary(tokens: &mut Tokens) -> (r: Result<Expression, LoxError>)
    requires
        old(tokens).wf(),
        tokens_wf(old(tokens)@.toks),
        old(tokens)@.pos < old(tokens)@.toks.len(),
    ensures
        final(tokens).wf(),
        final(tokens)@.toks == old(tokens)@.toks,
        old(tokens)@.pos <= final(tokens)@.pos <= old(tokens)@.toks.len(),
        r is Ok ==> old(tokens)@.pos < final(tokens)@.pos < old(tokens)@.toks.len(),
        final(tokens)@.pos == sp_primary(old(tokens)@.toks, old(tokens)@.pos).pos,
        matches_expr(r, sp_primary(old(tokens)@.toks, old(tokens)@.pos).out),
    decreases old(tokens)@.toks.len() - old(tokens)@.pos, 0int,
{
    proof {
        reveal_with_fuel(sp_primary, 1);
        reveal_with_fuel(sp_expression, 1);
    }
    let ghost toks = old(tokens)@.toks;
    match tokens.peek_type() {
        TokenType::Number(b) => {
            let bits: u64 = *b;
            proof {
                lemma_mid_token(toks, old(tokens)@.pos);
            }
            tokens.next();
            Ok(Expression::Number(bits))
        },
        TokenType::StrLit(s) => {
            let text = s.clone();
            proof {
                lemma_mid_token(toks, old(tokens)@.pos);
            }
            tokens.next();
            Ok(Expression::StrLit(text))
        },
        TokenType::True => {
            proof {
                lemma_mid_token(toks, old(tokens)@.pos);
            }
            tokens.next();
            Ok(Expression::True)
        },
        TokenType::False => {
            proof {
                lemma_mid_token(toks, old(tokens)@.pos);
            }
            tokens.next();
            Ok(Expression::False)
        },
        TokenType::Nil => {
            proof {
                lemma_mid_token(toks, old(tokens)@.pos);
            }
            tokens.next();
            Ok(Expression::Nil)
        },
        TokenType::LeftParen => {
            proof {
                lemma_mid_token(toks, old(tokens)@.pos);
            }
            tokens.next();
            let expression = match parse_expression(tokens) {
                Ok(e) => e,
                Err(e) => {
                    return Err(e);
                },
            };
            match tokens.consume(TokenType::RightParen) {
                Ok(_) => {
                    proof {
                        lemma_mid_token(toks, tokens@.pos - 1);
                    }
                    Ok(Expression::Paren(Box::new(expression)))
                },
                Err(e) => Err(e),
            }
        },
        TokenType::Identifier(id) => {
            let name = id.clone();
            proof {
                lemma_mid_token(toks, old(tokens)@.pos);
            }
            tokens.next();
            Ok(Expression::Variable(name))
        },
        _ => {
            let token = tokens.peek();
            let mut message = String::from_str("Expected expression, got ");
            message.append(token.lexeme.as_str());
            Err(LoxError { line: token.line, message })
        },
    }
}

} // verus!
