//! A verified tree-walking interpreter for Lox: a scanner, a recursive-descent
//! parser with panic-mode recovery, and an evaluator with lexical scoping,
//! closures, and a `return` signal, each proved equal to its
//! specification-level mirror.  Numbers are IEEE-754 doubles carried as bit
//! patterns; their arithmetic is delegated to a soft-float library behind
//! named trusted results.

use vstd::prelude::*;

use crate::error::Report;
use crate::error::LoxRuntimeException;
use crate::error::SpecExc;
use crate::error::SpecLoxError;
use crate::environment::wf_env;
use crate::grammar::Declaration;
use crate::grammar::SpecDecl;
use crate::grammar::sdecls;
use crate::grammar::lemma_sdecls_len;
use crate::grammar::lemma_sdecls_index;
use crate::interpreter::Interpreter;
use crate::interpreter::SpecInterp;
use crate::interpreter::fcl;
use crate::interpreter::interpret;
use crate::interpreter::sp_interpret;
use crate::parser::parse;
use crate::parser::sp_program;
use crate::scanner::lemma_spec_scan_tokens_wf;
use crate::scanner::scan;
use crate::scanner::spec_scan;
use crate::source::Source;
use crate::source::SpecSource;
use crate::token::SpecToken;
use crate::token::Tokens;

pub mod environment;
pub mod error;
pub mod grammar;
pub mod interpreter;
pub mod laws;
pub mod numeric;
pub mod parser;
pub mod printer;
pub mod scanner;
pub mod source;
pub mod standard;
pub mod token;
pub mod text;
pub mod value;

verus! {

/// A source position: 1-based line number of a token or diagnostic.
pub type Line = usize;

/// The mathematical content of a [`RunOutcome`].
pub enum SpecRunOut {
    Success,
    Static(Seq<SpecLoxError>),
    Runtime(SpecExc),
}

/// How a run ended: cleanly, stopped before evaluation by lexical or parse
/// errors, or stopped by a runtime error (a `return` that escaped every
/// call included).
pub enum RunOutcome {
    Success,
    StaticError(Report),
    RuntimeError(LoxRuntimeException),
}

impl View for RunOutcome {
    type V = SpecRunOut;

    open spec fn view(&self) -> SpecRunOut {
        match self {
            RunOutcome::Success => SpecRunOut::Success,
            RunOutcome::StaticError(r) => SpecRunOut::Static(r@),
            RunOutcome::RuntimeError(e) => SpecRunOut::Runtime(e@),
        }
    }
}

/// The declarations of a program interpreted in order against the global
/// scope; the first interruption ends the run.
pub open spec fn sp_run_decls(ds: Seq<SpecDecl>, i: int, st: SpecInterp, fuel: nat) -> (
    SpecInterp,
    SpecRunOut,
)
    decreases ds.len() - i,
    when 0 <= i <= ds.len()
{
    if i >= ds.len() {
        (st, SpecRunOut::Success)
    } else {
        let o = sp_interpret(ds[i], 0, st, fuel);
        match o.out {
            Err(x) => (o.st, SpecRunOut::Runtime(x)),
            Ok(_) => sp_run_decls(ds, i + 1, o.st, fcl(fuel, o.fuel)),
        }
    }
}

/// The whole pipeline on one source text: scan, parse, then interpret; a
/// non-empty report at either static stage stops the run untouched.
pub open spec fn sp_run(text: Seq<char>, st: SpecInterp, fuel: nat) -> (SpecInterp, SpecRunOut) {
    let src = SpecSource { text, pos: 0, lex_start: 0, line: 1 };
    let (toks, serrs) = spec_scan(src, Seq::<SpecToken>::empty(), Seq::<SpecLoxError>::empty());
    if serrs.len() > 0 {
        (st, SpecRunOut::Static(serrs))
    } else {
        let (ds, perrs) = sp_program(toks, 0, Seq::<SpecDecl>::empty(), Seq::<SpecLoxError>::empty());
        if perrs.len() > 0 {
            (st, SpecRunOut::Static(perrs))
        } else {
            sp_run_decls(ds, 0, st, fuel)
        }
    }
}

/// Runs a source text against the interpreter state, spending at most the
/// given fuel on loop iterations and calls.  The `clock` built-in reports
/// the one reading injected for this run, so two calls in one script see the
/// same time; printed lines gather in the interpreter's output for the host
/// to flush after the run returns.
pub fn run(source: &str, interpreter: &mut Interpreter, fuel: u64) -> (r: RunOutcome)
    requires
        source@.len() < usize::MAX,
        wf_env(old(interpreter)@.scopes),
    ensures
        wf_env(final(interpreter)@.scopes),
        ({
            let (st2, out) = sp_run(source@, old(interpreter)@, fuel as nat);
            final(interpreter)@ == st2 && r@ == out
        }),
{
    let src = Source::new(source);
    proof {
        lemma_spec_scan_tokens_wf(
            src@,
            Seq::<SpecToken>::empty(),
            Seq::<SpecLoxError>::empty(),
        );
    }
    match scan(src) {
        Err(report) => RunOutcome::StaticError(report),
        Ok(token_vec) => {
            let tokens = Tokens::new(token_vec);
            match parse(tokens) {
                Err(report) => RunOutcome::StaticError(report),
                Ok(declarations) => {
                    let mut fuel_left = fuel;
                    run_decls(&declarations, 0, interpreter, &mut fuel_left)
                },
            }
        },
    }
}

/// Interprets the program's declarations from index `i` on.
fn run_decls(ds: &Vec<Declaration>, i: usize, interpreter: &mut Interpreter, fuel: &mut u64) -> (r:
    RunOutcome)
    requires
        i <= ds@.len(),
        wf_env(old(interpreter)@.scopes),
    ensures
        wf_env(final(interpreter)@.scopes),
        ({
            let (st2, out) = sp_run_decls(
                sdecls(ds@),
                i as int,
                old(interpreter)@,
                *old(fuel) as nat,
            );
            final(interpreter)@ == st2 && r@ == out
        }),
    decreases ds@.len() - i,
{
    proof {
        lemma_sdecls_len(ds@);
        if (i as int) < ds@.len() {
            lemma_sdecls_index(ds@, i as int);
        }
    }
    if i >= ds.len() {
        RunOutcome::Success
    } else {
        match interpret(&ds[i], 0, interpreter, fuel) {
            Err(x) => RunOutcome::RuntimeError(x),
            Ok(_) => run_decls(ds, i + 1, interpreter, fuel),
        }
    }
}

} // verus!
