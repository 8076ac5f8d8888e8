//! Runtime values: the six variants, truthiness, numeric coercion,
//! structural equality, and the display form.

use vstd::prelude::*;

use crate::error::LoxRuntimeException;
use crate::error::SpecExc;
use crate::grammar::Declaration;
use crate::grammar::SpecDecl;
use crate::grammar::clone_declaration;
use crate::grammar::names_view;
use crate::numeric::num_eq;
use crate::numeric::spec_display_number;
use crate::numeric::display_number;

verus! {

/// The mathematical content of a [`Value`].
pub enum SpecValue {
    Nil,
    Number(u64),
    Str(Seq<char>),
    Boolean(bool),
    NativeCallable(Seq<char>, int),
    Callable(Seq<char>, int, Seq<Seq<char>>, SpecDecl),
}

/// A runtime value.  A number carries the encoding of its double; a callable
/// carries the index of its captured scope, its parameter names, and its
/// body.  A native callable carries its name and arity; `clock` is the one
/// native the library installs, and applying a native under any other name
/// yields `nil`.
pub enum Value {
    Nil,
    Number(u64),
    Str(String),
    Boolean(bool),
    NativeCallable(String, usize),
    Callable(String, usize, Vec<String>, Box<Declaration>),
}

impl View for Value {
    type V = SpecValue;

    open spec fn view(&self) -> SpecValue {
        match self {
            Value::Nil => SpecValue::Nil,
            Value::Number(b) => SpecValue::Number(*b),
            Value::Str(s) => SpecValue::Str(s@),
            Value::Boolean(b) => SpecValue::Boolean(*b),
            Value::NativeCallable(n, a) => SpecValue::NativeCallable(n@, *a as int),
            Value::Callable(n, env, params, body) => SpecValue::Callable(
                n@,
                *env as int,
                names_view(params@),
                body@,
            ),
        }
    }
}

/// A value fit for an arena of `n` scopes: its captured scope, if any, lies
/// inside.
pub open spec fn wf_value(v: SpecValue, n: int) -> bool {
    match v {
        SpecValue::Callable(_, env, _, _) => 0 <= env < n,
        _ => true,
    }
}

/// A value that points into a prefix of the arena points into the whole.
pub proof fn lemma_wf_value_grow(v: SpecValue, n: int, m: int)
    requires
        wf_value(v, n),
        n <= m,
    ensures
        wf_value(v, m),
{
}

/// An exact copy of a value, sharing nothing with the original.
pub fn clone_value(v: &Value) -> (r: Value)
    ensures
        r@ == v@,
{
    match v {
        Value::Nil => Value::Nil,
        Value::Number(b) => Value::Number(*b),
        Value::Str(s) => Value::Str(s.clone()),
        Value::Boolean(b) => Value::Boolean(*b),
        Value::NativeCallable(n, a) => Value::NativeCallable(n.clone(), *a),
        Value::Callable(n, env, params, body) => {
            let ps = crate::grammar::clone_names(params);
            Value::Callable(n.clone(), *env, ps, Box::new(clone_declaration(body)))
        },
    }
}

/// Exactly `nil` and `false` are falsy.
pub open spec fn sp_truthy(v: SpecValue) -> bool {
    !(v == SpecValue::Nil || v == SpecValue::Boolean(false))
}

/// Structural equality: never across variants, numbers by IEEE equality,
/// strings by content, callables never equal.
pub open spec fn sp_value_eq(a: SpecValue, b: SpecValue) -> bool {
    match (a, b) {
        (SpecValue::Nil, SpecValue::Nil) => true,
        (SpecValue::Number(x), SpecValue::Number(y)) => num_eq(x, y),
        (SpecValue::Str(x), SpecValue::Str(y)) => x == y,
        (SpecValue::Boolean(x), SpecValue::Boolean(y)) => x == y,
        _ => false,
    }
}

/// The display form of a value.
pub open spec fn sp_display_value(v: SpecValue) -> Seq<char> {
    match v {
        SpecValue::Nil => "nil"@,
        SpecValue::Number(b) => spec_display_number(b),
        SpecValue::Str(s) => seq!['"'] + s + seq!['"'],
        SpecValue::Boolean(b) => if b {
            "true"@
        } else {
            "false"@
        },
        SpecValue::NativeCallable(n, _) => "<fn "@ + n + ">"@,
        SpecValue::Callable(n, _, _, _) => "<fn "@ + n + ">"@,
    }
}

impl Value {
    pub fn is_truthy(&self) -> (r: bool)
        ensures
            r == sp_truthy(self@),
    {
        match self {
            Value::Nil => false,
            Value::Boolean(b) => *b,
            _ => true,
        }
    }

    /// The number a value stands for, or the `.. is not a number` error.
    pub fn as_number(&self) -> (r: Result<u64, LoxRuntimeException>)
        ensures
            match self@ {
                SpecValue::Number(b) => r matches Ok(bb) && bb == b,
                _ => r matches Err(e) && e@ == (SpecExc::Error(
                    sp_display_value(self@) + " is not a number"@,
                )),
            },
    {
        match self {
            Value::Number(b) => Ok(*b),
            _ => {
                let mut message = self.to_display_string();
                message.append(" is not a number");
                Err(LoxRuntimeException::Error(message))
            },
        }
    }

    pub fn is_equal(&self, other: &Value) -> (r: bool)
        ensures
            r == sp_value_eq(self@, other@),
    {
        match (self, other) {
            (Value::Nil, Value::Nil) => true,
            (Value::Number(x), Value::Number(y)) => crate::numeric::exec_num_eq(*x, *y),
            (Value::Str(x), Value::Str(y)) => x.eq(y),
            (Value::Boolean(x), Value::Boolean(y)) => x == y,
            _ => false,
        }
    }

    /// The display form: `nil`, the number's digits, the string in quotes,
    /// `true`/`false`, or `<fn NAME>`.
    pub fn to_display_string(&self) -> (r: String)
        ensures
            r@ == sp_display_value(self@),
    {
        match self {
            Value::Nil => String::from_str("nil"),
            Value::Number(b) => display_number(*b),
            Value::Str(s) => {
                let mut r = String::new();
                r.push('"');
                r.append(s.as_str());
                r.push('"');
                proof {
                    assert(r@ =~= seq!['"'] + s@ + seq!['"']);
                }
                r
            },
            Value::Boolean(b) => {
                if *b {
                    String::from_str("true")
                } else {
                    String::from_str("false")
                }
            },
            Value::NativeCallable(n, _) => {
                let mut r = String::from_str("<fn ");
                r.append(n.as_str());
                r.append(">");
                proof {
                    assert(r@ =~= "<fn "@ + n@ + ">"@);
                }
                r
            },
            Value::Callable(n, _, _, _) => {
                let mut r = String::from_str("<fn ");
                r.append(n.as_str());
                r.append(">");
                proof {
                    assert(r@ =~= "<fn "@ + n@ + ">"@);
                }
                r
            },
        }
    }
}

} // verus!
