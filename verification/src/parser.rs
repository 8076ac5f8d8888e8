//! Recursive-descent parsing: one function per grammar production, with
//! panic-mode recovery at declaration boundaries.  Each executable parser is
//! proved equal to a specification-level parser over the token sequence.

pub mod declaration;
pub mod expression;

use vstd::prelude::*;

use crate::error::Report;
use crate::error::SpecLoxError;
use crate::grammar::Declaration;
use crate::grammar::SpecDecl;
use crate::grammar::sdecls;
use crate::grammar::lemma_sdecls_push;
use crate::token::SpecToken;
use crate::token::SpecTokenType;
use crate::token::Tokens;
use crate::token::after_semicolon;
use crate::token::has_semicolon;
use crate::token::lemma_after_semicolon_bounds;
use crate::token::tokens_wf;
use self::declaration::parse_declaration;
use self::declaration::sp_declaration;

verus! {

/// What a specification-level parser returns: where the stream stands
/// afterwards, and the parsed value or the error.
pub struct SpecParsed<T> {
    pub pos: int,
    pub out: Result<T, SpecLoxError>,
}

/// A position clamped into `[lo, len]`.  The executable parsers never leave
/// that range, so the clamp only makes the specification's recursion measures
/// evident.
pub open spec fn cl(len: int, lo: int, p: int) -> int {
    if p < lo {
        lo
    } else if p > len {
        len
    } else {
        p
    }
}

/// The error a failed `consume(tt)` reports at position `p`.
pub open spec fn sp_consume_err(toks: Seq<SpecToken>, p: int, tt: SpecTokenType) -> SpecLoxError {
    if 0 <= p < toks.len() {
        SpecLoxError {
            line: toks[p].line,
            message: crate::token::spec_consume_message(tt, toks[p].lexeme),
        }
    } else {
        SpecLoxError { line: 0, message: Seq::<char>::empty() }
    }
}

/// Whether an executable parse result carries exactly the specified outcome.
pub open spec fn matches_expr(
    r: Result<crate::grammar::Expression, crate::error::LoxError>,
    out: Result<crate::grammar::SpecExpr, SpecLoxError>,
) -> bool {
    match (r, out) {
        (Ok(e), Ok(se)) => e@ == se,
        (Err(a), Err(b)) => a@ == b,
        _ => false,
    }
}

/// Whether an executable declaration result carries exactly the specified
/// outcome.
pub open spec fn matches_decl(
    r: Result<Declaration, crate::error::LoxError>,
    out: Result<SpecDecl, SpecLoxError>,
) -> bool {
    match (r, out) {
        (Ok(d), Ok(sd)) => d@ == sd,
        (Err(a), Err(b)) => a@ == b,
        _ => false,
    }
}

/// A position clamped into `(lo, len]`: strictly past `lo`.
pub open spec fn cls(len: int, lo: int, p: int) -> int {
    if p <= lo {
        lo + 1
    } else if p > len {
        len
    } else {
        p
    }
}

/// The specification-level program loop: parse declarations up to `Eof`,
/// recovering at the next `;` after an error.
#[verifier::opaque]
pub open spec fn sp_program(
    toks: Seq<SpecToken>,
    pos: int,
    acc: Seq<SpecDecl>,
    errs: Seq<SpecLoxError>,
) -> (Seq<SpecDecl>, Seq<SpecLoxError>)
    decreases toks.len() - pos, 40int,
    when 0 <= pos <= toks.len()
    via sp_program_dec
{
    let len = toks.len() as int;
    let r = sp_declaration(toks, pos);
    match r.out {
        Ok(None) => (acc, errs),
        Ok(Some(d)) => sp_program(toks, cls(len, pos, r.pos), acc.push(d), errs),
        Err(e) => {
            let p1 = cl(len, pos, r.pos);
            if has_semicolon(toks, p1) {
                sp_program(toks, cls(len, pos, after_semicolon(toks, p1)), acc, errs.push(e))
            } else {
                (acc, errs.push(e))
            }
        },
    }
}

#[via_fn]
proof fn sp_program_dec(toks: Seq<SpecToken>, pos: int, acc: Seq<SpecDecl>, errs: Seq<SpecLoxError>) {
    reveal_with_fuel(sp_declaration, 1);
    let len = toks.len() as int;
    let r = sp_declaration(toks, pos);
    lemma_after_semicolon_bounds(toks, cl(len, pos, r.pos));
}

/// Parses the whole token stream: the declaration list where no parse error
/// was seen, else the collected report.
pub fn parse(tokens: Tokens) -> (r: Result<Vec<Declaration>, Report>)
    requires
        tokens.wf(),
        tokens_wf(tokens@.toks),
        tokens@.pos == 0,
    ensures
        ({
            let (ds, es) = sp_program(
                tokens@.toks,
                0,
                Seq::<SpecDecl>::empty(),
                Seq::<SpecLoxError>::empty(),
            );
            match r {
                Ok(v) => es.len() == 0 && sdecls(v@) == ds,
                Err(rep) => es.len() > 0 && rep@ == es,
            }
        }),
{
    proof {
        reveal_with_fuel(sp_program, 1);
        reveal_with_fuel(sp_declaration, 1);
    }
    let mut tokens = tokens;
    let mut declarations: Vec<Declaration> = Vec::new();
    let mut report = Report::new();
    proof {
        assert(sdecls(declarations@) =~= Seq::<SpecDecl>::empty());
    }
    parse_program_rec(&mut tokens, &mut declarations, &mut report);
    if report.is_empty() {
        Ok(declarations)
    } else {
        Err(report)
    }
}

/// One turn of the program loop, proved equal to [`sp_program`].
fn parse_program_rec(tokens: &mut Tokens, declarations: &mut Vec<Declaration>, report: &mut Report)
    requires
        old(tokens).wf(),
        tokens_wf(old(tokens)@.toks),
        old(tokens)@.pos < old(tokens)@.toks.len(),
    ensures
        ({
            let (ds, es) = sp_program(
                old(tokens)@.toks,
                old(tokens)@.pos,
                sdecls(old(declarations)@),
                old(report)@,
            );
            sdecls(final(declarations)@) == ds && final(report)@ == es
        }),
    decreases old(tokens)@.toks.len() - old(tokens)@.pos,
{
    proof {
        reveal_with_fuel(sp_program, 1);
        reveal_with_fuel(sp_declaration, 1);
    }
    let ghost toks = old(tokens)@.toks;
    let ghost pos0 = old(tokens)@.pos;
    match parse_declaration(tokens) {
        Ok(None) => {},
        Ok(Some(d)) => {
            proof {
                lemma_sdecls_push(declarations@, d);
            }
            declarations.push(d);
            parse_program_rec(tokens, declarations, report);
        },
        Err(e) => {
            report.push(e);
            let ghost perr = tokens@.pos;
            proof {
                lemma_after_semicolon_bounds(toks, perr);
            }
            match tokens.consume_until_semicolon() {
                Some(_) => {
                    proof {
                        assert(toks[tokens@.pos - 1].token_type == SpecTokenType::Semicolon);
                        assert(tokens@.pos < toks.len());
                    }
                    parse_program_rec(tokens, declarations, report);
                },
                None => {},
            }
        },
    }
}

} // verus!
