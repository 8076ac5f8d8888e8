//! Diagnostics: a single lexical or parse error with its line, and the report
//! that accumulates them.

use vstd::prelude::*;

use crate::Line;
use crate::text::spec_dec_nat;
use crate::text::dec_usize;
use crate::value::SpecValue;
use crate::value::Value;

verus! {

/// The mathematical content of a [`LoxError`].
pub struct SpecLoxError {
    pub line: int,
    pub message: Seq<char>,
}

/// A static (lexical or parse) error: the line it was seen on and its text.
#[derive(Debug)]
pub struct LoxError {
    pub line: Line,
    pub message: String,
}

impl View for LoxError {
    type V = SpecLoxError;

    open spec fn view(&self) -> SpecLoxError {
        SpecLoxError { line: self.line as int, message: self.message@ }
    }
}

/// The display form of one error: `[Line L] Error: MESSAGE`.
pub open spec fn spec_error_display(e: SpecLoxError) -> Seq<char> {
    "[Line "@ + spec_dec_nat(e.line as nat) + "] Error: "@ + e.message
}

/// The display form of a report: each error's line, `\n`-terminated.
pub open spec fn spec_report_display(errors: Seq<SpecLoxError>) -> Seq<char>
    decreases errors.len(),
{
    if errors.len() == 0 {
        Seq::<char>::empty()
    } else {
        spec_error_display(errors[0]) + seq!['\n'] + spec_report_display(errors.drop_first())
    }
}

impl LoxError {
    /// The `[Line L] Error: MESSAGE` form of this error.
    pub fn to_display_string(&self) -> (r: String)
        ensures
            r@ == spec_error_display(self@),
    {
        let mut s = String::from_str("[Line ");
        let line = dec_usize(self.line);
        s.append(line.as_str());
        s.append("] Error: ");
        s.append(self.message.as_str());
        s
    }
}

/// An accumulating collection of static errors.
#[derive(Debug)]
pub struct Report {
    pub errors: Vec<LoxError>,
}

impl View for Report {
    type V = Seq<SpecLoxError>;

    open spec fn view(&self) -> Seq<SpecLoxError> {
        self.errors@.map_values(|e: LoxError| e@)
    }
}

impl Report {
    pub fn new() -> (r: Report)
        ensures
            r@ == Seq::<SpecLoxError>::empty(),
    {
        let r = Report { errors: Vec::new() };
        assert(r@ =~= Seq::<SpecLoxError>::empty());
        r
    }

    pub fn is_empty(&self) -> (r: bool)
        ensures
            r == (self@.len() == 0),
    {
        self.errors.len() == 0
    }

    pub fn push(&mut self, error: LoxError)
        ensures
            final(self)@ == old(self)@.push(error@),
    {
        self.errors.push(error);
        assert(final(self)@ =~= old(self)@.push(error@));
    }

    /// The report's display form: each error on a line of its own.
    pub fn to_display_string(&self) -> (r: String)
        ensures
            r@ == spec_report_display(self@),
    {
        let mut s = String::new();
        let mut i: usize = 0;
        proof {
            assert(self@.skip(0) =~= self@);
            assert(s@ + spec_report_display(self@) =~= spec_report_display(self@));
        }
        while i < self.errors.len()
            invariant
                i <= self.errors.len(),
                spec_report_display(self@) == s@ + spec_report_display(self@.skip(i as int)),
            decreases self.errors.len() - i,
        {
            proof {
                assert(self@.skip(i as int)[0] == self@[i as int]);
                assert(self@.skip(i as int).drop_first() =~= self@.skip(i as int + 1));
            }
            let line = self.errors[i].to_display_string();
            s.append(line.as_str());
            s.push('\n');
            i = i + 1;
        }
        proof {
            assert(self@.skip(i as int) =~= Seq::<SpecLoxError>::empty());
            assert(s@ + spec_report_display(self@.skip(i as int)) =~= s@);
        }
        s
    }
}

/// The mathematical content of a [`LoxRuntimeException`].
pub enum SpecExc {
    Error(Seq<char>),
    Return(SpecValue),
}

/// What interrupts evaluation: a runtime error, or the `return` signal that
/// only a call boundary consumes.
pub enum LoxRuntimeException {
    Error(String),
    Return(Value),
}

impl View for LoxRuntimeException {
    type V = SpecExc;

    open spec fn view(&self) -> SpecExc {
        match self {
            LoxRuntimeException::Error(m) => SpecExc::Error(m@),
            LoxRuntimeException::Return(v) => SpecExc::Return(v@),
        }
    }
}

/// The display form of an exception that reached the top level.
pub open spec fn spec_exception_display(e: SpecExc) -> Seq<char> {
    match e {
        SpecExc::Error(m) => "Runtime error: "@ + m,
        SpecExc::Return(_) => "Runtime error: 'return' outside function"@,
    }
}

impl LoxRuntimeException {
    /// The `Runtime error: ..` line; a `return` that escaped every call
    /// is reported as an error of its own.
    pub fn to_display_string(&self) -> (r: String)
        ensures
            r@ == spec_exception_display(self@),
    {
        match self {
            LoxRuntimeException::Error(m) => {
                let mut s = String::from_str("Runtime error: ");
                s.append(m.as_str());
                s
            },
            LoxRuntimeException::Return(_) => {
                String::from_str("Runtime error: 'return' outside function")
            },
        }
    }
}

} // verus!
