//! The tree-walking evaluator.  Executable evaluation is proved equal to the
//! specification-level evaluator `sp_interpret` / `sp_evaluate`, which
//! threads the interpreter state and a fuel that pays for every loop
//! iteration and call; running out of fuel is the `Stack overflow` error.
//! The `return` statement travels as the `Return` arm of the exception
//! channel and is consumed only at a call boundary.

use vstd::prelude::*;

use crate::environment::Environment;
use crate::environment::SpecScope;
use crate::environment::sp_env_assign;
use crate::environment::sp_env_get;
use crate::environment::sp_undefined_message;
use crate::environment::wf_env;
use crate::error::LoxRuntimeException;
use crate::error::SpecExc;
use crate::grammar::Declaration;
use crate::grammar::Expression;
use crate::grammar::SpecDecl;
use crate::grammar::SpecExpr;
use crate::grammar::decl_size;
use crate::grammar::decls_size_from;
use crate::grammar::expr_size;
use crate::grammar::exprs_size_from;
use crate::numeric::THOUSAND_BITS;
use crate::numeric::add_bits;
use crate::numeric::div_bits;
use crate::numeric::double_of_u64;
use crate::numeric::mul_bits;
use crate::numeric::num_le;
use crate::numeric::num_lt;
use crate::numeric::exec_num_le;
use crate::numeric::exec_num_lt;
use crate::numeric::num_add;
use crate::numeric::num_div;
use crate::numeric::num_mul;
use crate::numeric::num_sub;
use crate::numeric::sub_bits;
use crate::text::spec_dec_nat;
use crate::text::dec_usize;
use crate::text::str_is;
use crate::value::SpecValue;
use crate::value::Value;
use crate::value::sp_display_value;
use crate::value::sp_truthy;
use crate::value::sp_value_eq;
use crate::value::wf_value;
use crate::value::clone_value;

verus! {

/// The mathematical content of an [`Interpreter`].
pub struct SpecInterp {
    pub scopes: Seq<SpecScope>,
    pub output: Seq<Seq<char>>,
    pub now: u64,
}

/// The interpreter state: the scope arena, the lines printed so far, and the
/// injected clock reading (milliseconds since the epoch) that the `clock`
/// built-in reports.
pub struct Interpreter {
    pub env: Environment,
    pub output: Vec<String>,
    pub now_millis: u64,
}

/// The view of the printed lines.
pub open spec fn out_view(s: Seq<String>) -> Seq<Seq<char>> {
    s.map_values(|t: String| t@)
}

impl View for Interpreter {
    type V = SpecInterp;

    open spec fn view(&self) -> SpecInterp {
        SpecInterp { scopes: self.env@, output: out_view(self.output@), now: self.now_millis }
    }
}

/// The one scope a fresh interpreter holds: the global scope with the
/// `clock` built-in.
pub open spec fn initial_scopes() -> Seq<SpecScope> {
    seq![
        SpecScope {
            bindings: Map::<Seq<char>, SpecValue>::empty().insert(
                "clock"@,
                SpecValue::NativeCallable("clock"@, 0),
            ),
            parent: None,
        },
    ]
}

impl Interpreter {
    /// A fresh interpreter: the global scope with the `clock` built-in, no
    /// output yet, and the injected clock reading.
    pub fn new(now_millis: u64) -> (r: Interpreter)
        ensures
            r@ == (SpecInterp {
                scopes: initial_scopes(),
                output: Seq::<Seq<char>>::empty(),
                now: now_millis,
            }),
            wf_env(r@.scopes),
    {
        let env = Environment::new_global();
        let r = Interpreter { env, output: Vec::new(), now_millis };
        proof {
            assert(r@.scopes =~= initial_scopes());
            assert(r@.output =~= Seq::<Seq<char>>::empty());
        }
        r
    }
}

/// What evaluating an expression leaves behind: the state, the remaining
/// fuel, and the value or the interrupting signal.
pub struct SpecEvalOut {
    pub st: SpecInterp,
    pub fuel: nat,
    pub out: Result<SpecValue, SpecExc>,
}

/// What interpreting a declaration leaves behind.
pub struct SpecInterpOut {
    pub st: SpecInterp,
    pub fuel: nat,
    pub out: Result<(), SpecExc>,
}

/// What evaluating an argument list leaves behind.
pub struct SpecArgsOut {
    pub st: SpecInterp,
    pub fuel: nat,
    pub out: Result<Seq<SpecValue>, SpecExc>,
}

/// Fuel clamped from above: the executable evaluator never gains fuel, so
/// the clamp only makes the specification's recursion measures evident.
pub open spec fn fcl(f0: nat, f: nat) -> nat {
    if f > f0 {
        f0
    } else {
        f
    }
}

/// The state with one more binding in the given scope.
pub open spec fn sp_define(st: SpecInterp, scope: int, k: Seq<char>, v: SpecValue) -> SpecInterp {
    SpecInterp {
        scopes: st.scopes.update(
            scope,
            SpecScope {
                bindings: st.scopes[scope].bindings.insert(k, v),
                parent: st.scopes[scope].parent,
            },
        ),
        output: st.output,
        now: st.now,
    }
}

/// The state with a fresh scope under the given parent.
pub open spec fn sp_open_scope(st: SpecInterp, parent: int) -> SpecInterp {
    SpecInterp {
        scopes: st.scopes.push(
            SpecScope { bindings: Map::<Seq<char>, SpecValue>::empty(), parent: Some(parent) },
        ),
        output: st.output,
        now: st.now,
    }
}

/// The state with one more printed line.
pub open spec fn sp_print_line(st: SpecInterp, line: Seq<char>) -> SpecInterp {
    SpecInterp { scopes: st.scopes, output: st.output.push(line), now: st.now }
}

/// The message of an arity mismatch.
pub open spec fn sp_arity_message(name: Seq<char>, arity: int, got: int) -> Seq<char> {
    "Function "@ + name + " expected "@ + spec_dec_nat(arity as nat) + " arguments but got "@
        + spec_dec_nat(got as nat) + "."@
}

/// The message of the two operand kinds `+` accepts.
pub open spec fn sp_plus_message() -> Seq<char> {
    "Operands must be two numbers or two strings."@
}

/// The message reported when the fuel runs out.
pub open spec fn sp_overflow_message() -> Seq<char> {
    "Stack overflow"@
}

/// The number of seconds since the epoch, as the `clock` built-in computes
/// it from the injected millisecond reading.
pub open spec fn sp_clock_value(now: u64) -> SpecValue {
    SpecValue::Number(div_bits(double_of_u64(now), THOUSAND_BITS))
}

/// The number a value must be, or the error evaluation reports.
pub open spec fn sp_as_number(v: SpecValue) -> Result<u64, SpecExc> {
    match v {
        SpecValue::Number(b) => Ok(b),
        _ => Err(SpecExc::Error(sp_display_value(v) + " is not a number"@)),
    }
}

/// The measure of a callable being applied: above its body's size.
pub open spec fn callee_size(v: SpecValue) -> nat {
    1 + match v {
        SpecValue::Callable(_, _, _, body) => decl_size(body),
        _ => 0,
    }
}

/// The parameter bindings of a call, in order.
pub open spec fn sp_bind_params(
    st: SpecInterp,
    scope: int,
    params: Seq<Seq<char>>,
    args: Seq<SpecValue>,
    i: int,
) -> SpecInterp
    decreases params.len() - i,
    when 0 <= i <= params.len() && params.len() == args.len()
{
    if i >= params.len() {
        st
    } else {
        sp_bind_params(sp_define(st, scope, params[i], args[i]), scope, params, args, i + 1)
    }
}

#[verifier::opaque]
pub open spec fn sp_interpret(d: SpecDecl, scope: int, st: SpecInterp, fuel: nat) -> SpecInterpOut
    decreases fuel, decl_size(d), 1int,
{
    match d {
        SpecDecl::Expression(e) => {
            let r = sp_evaluate(e, scope, st, fuel);
            SpecInterpOut {
                st: r.st,
                fuel: fcl(fuel, r.fuel),
                out: match r.out {
                    Ok(_) => Ok(()),
                    Err(x) => Err(x),
                },
            }
        },
        SpecDecl::Print(e) => {
            let r = sp_evaluate(e, scope, st, fuel);
            match r.out {
                Ok(v) => SpecInterpOut {
                    st: sp_print_line(r.st, sp_display_value(v)),
                    fuel: fcl(fuel, r.fuel),
                    out: Ok(()),
                },
                Err(x) => SpecInterpOut { st: r.st, fuel: fcl(fuel, r.fuel), out: Err(x) },
            }
        },
        SpecDecl::Var(n, init) => {
            match init {
                Some(e) => {
                    let r = sp_evaluate(e, scope, st, fuel);
                    match r.out {
                        Ok(v) => SpecInterpOut {
                            st: sp_define(r.st, scope, n, v),
                            fuel: fcl(fuel, r.fuel),
                            out: Ok(()),
                        },
                        Err(x) => SpecInterpOut { st: r.st, fuel: fcl(fuel, r.fuel), out: Err(x) },
                    }
                },
                None => SpecInterpOut {
                    st: sp_define(st, scope, n, SpecValue::Nil),
                    fuel,
                    out: Ok(()),
                },
            }
        },
        SpecDecl::Block(ds) => {
            let inner = st.scopes.len() as int;
            sp_interpret_seq(ds, 0, inner, sp_open_scope(st, scope), fuel)
        },
        SpecDecl::If(c, t, e) => {
            let r = sp_evaluate(c, scope, st, fuel);
            let f1 = fcl(fuel, r.fuel);
            match r.out {
                Err(x) => SpecInterpOut { st: r.st, fuel: f1, out: Err(x) },
                Ok(v) => {
                    if sp_truthy(v) {
                        sp_interpret(*t, scope, r.st, f1)
                    } else {
                        match e {
                            Some(d2) => sp_interpret(*d2, scope, r.st, f1),
                            None => SpecInterpOut { st: r.st, fuel: f1, out: Ok(()) },
                        }
                    }
                },
            }
        },
        SpecDecl::While(c, body) => {
            let r = sp_evaluate(c, scope, st, fuel);
            let f1 = fcl(fuel, r.fuel);
            match r.out {
                Err(x) => SpecInterpOut { st: r.st, fuel: f1, out: Err(x) },
                Ok(v) => {
                    if !sp_truthy(v) {
                        SpecInterpOut { st: r.st, fuel: f1, out: Ok(()) }
                    } else {
                        let rb = sp_interpret(*body, scope, r.st, f1);
                        let f2 = fcl(f1, rb.fuel);
                        match rb.out {
                            Err(x) => SpecInterpOut { st: rb.st, fuel: f2, out: Err(x) },
                            Ok(_) => {
                                if f2 == 0 {
                                    SpecInterpOut {
                                        st: rb.st,
                                        fuel: 0,
                                        out: Err(SpecExc::Error(sp_overflow_message())),
                                    }
                                } else {
                                    sp_interpret(d, scope, rb.st, (f2 - 1) as nat)
                                }
                            },
                        }
                    }
                },
            }
        },
        SpecDecl::Function(n, params, body) => {
            let v = SpecValue::Callable(n, scope, params, *body);
            SpecInterpOut { st: sp_define(st, scope, n, v), fuel, out: Ok(()) }
        },
        SpecDecl::Return(e) => {
            let r = sp_evaluate(e, scope, st, fuel);
            SpecInterpOut {
                st: r.st,
                fuel: fcl(fuel, r.fuel),
                out: match r.out {
                    Ok(v) => Err(SpecExc::Return(v)),
                    Err(x) => Err(x),
                },
            }
        },
    }
}

#[verifier::opaque]
pub open spec fn sp_interpret_seq(
    ds: Seq<SpecDecl>,
    i: int,
    scope: int,
    st: SpecInterp,
    fuel: nat,
) -> SpecInterpOut
    decreases fuel, decls_size_from(ds, i), 1int,
    when 0 <= i <= ds.len()
{
    if i >= ds.len() {
        SpecInterpOut { st, fuel, out: Ok(()) }
    } else {
        let r = sp_interpret(ds[i], scope, st, fuel);
        let f1 = fcl(fuel, r.fuel);
        match r.out {
            Err(x) => SpecInterpOut { st: r.st, fuel: f1, out: Err(x) },
            Ok(_) => sp_interpret_seq(ds, i + 1, scope, r.st, f1),
        }
    }
}

#[verifier::opaque]
pub open spec fn sp_evaluate(e: SpecExpr, scope: int, st: SpecInterp, fuel: nat) -> SpecEvalOut
    decreases fuel, expr_size(e), 1int,
{
    match e {
        SpecExpr::Number(b) => SpecEvalOut { st, fuel, out: Ok(SpecValue::Number(b)) },
        SpecExpr::StrLit(s) => SpecEvalOut { st, fuel, out: Ok(SpecValue::Str(s)) },
        SpecExpr::True => SpecEvalOut { st, fuel, out: Ok(SpecValue::Boolean(true)) },
        SpecExpr::False => SpecEvalOut { st, fuel, out: Ok(SpecValue::Boolean(false)) },
        SpecExpr::Nil => SpecEvalOut { st, fuel, out: Ok(SpecValue::Nil) },
        SpecExpr::Paren(a) => sp_evaluate(*a, scope, st, fuel),
        SpecExpr::Not(a) => {
            let r = sp_evaluate(*a, scope, st, fuel);
            SpecEvalOut {
                st: r.st,
                fuel: fcl(fuel, r.fuel),
                out: match r.out {
                    Ok(v) => Ok(SpecValue::Boolean(!sp_truthy(v))),
                    Err(x) => Err(x),
                },
            }
        },
        SpecExpr::Minus(a, b) => sp_arith(e, scope, st, fuel),
        SpecExpr::Multiply(a, b) => sp_arith(e, scope, st, fuel),
        SpecExpr::Divide(a, b) => sp_arith(e, scope, st, fuel),
        SpecExpr::Plus(a, b) => {
            let r1 = sp_evaluate(*a, scope, st, fuel);
            let f1 = fcl(fuel, r1.fuel);
            match r1.out {
                Err(x) => SpecEvalOut { st: r1.st, fuel: f1, out: Err(x) },
                Ok(va) => {
                    let r2 = sp_evaluate(*b, scope, r1.st, f1);
                    let f2 = fcl(f1, r2.fuel);
                    match r2.out {
                        Err(x) => SpecEvalOut { st: r2.st, fuel: f2, out: Err(x) },
                        Ok(vb) => SpecEvalOut {
                            st: r2.st,
                            fuel: f2,
                            out: match (va, vb) {
                                (SpecValue::Number(x), SpecValue::Number(y)) => Ok(
                                    SpecValue::Number(add_bits(x, y)),
                                ),
                                (SpecValue::Str(x), SpecValue::Str(y)) => Ok(
                                    SpecValue::Str(x + y),
                                ),
                                _ => Err(SpecExc::Error(sp_plus_message())),
                            },
                        },
                    }
                },
            }
        },
        SpecExpr::Less(a, b) => sp_compare(e, scope, st, fuel),
        SpecExpr::LessEqual(a, b) => sp_compare(e, scope, st, fuel),
        SpecExpr::Greater(a, b) => sp_compare(e, scope, st, fuel),
        SpecExpr::GreaterEqual(a, b) => sp_compare(e, scope, st, fuel),
        SpecExpr::Equal(a, b) => sp_equality(e, scope, st, fuel),
        SpecExpr::NotEqual(a, b) => sp_equality(e, scope, st, fuel),
        SpecExpr::Variable(n) => {
            if 0 <= scope < st.scopes.len() {
                match sp_env_get(st.scopes, scope, n) {
                    Some(v) => SpecEvalOut { st, fuel, out: Ok(v) },
                    None => SpecEvalOut {
                        st,
                        fuel,
                        out: Err(SpecExc::Error(sp_undefined_message(n))),
                    },
                }
            } else {
                SpecEvalOut { st, fuel, out: Err(SpecExc::Error(sp_undefined_message(n))) }
            }
        },
        SpecExpr::Assignment(n, a) => {
            let r = sp_evaluate(*a, scope, st, fuel);
            let f1 = fcl(fuel, r.fuel);
            match r.out {
                Err(x) => SpecEvalOut { st: r.st, fuel: f1, out: Err(x) },
                Ok(v) => {
                    if 0 <= scope < r.st.scopes.len() {
                        match sp_env_assign(r.st.scopes, scope, n, v) {
                            Some(ns) => SpecEvalOut {
                                st: SpecInterp { scopes: ns, output: r.st.output, now: r.st.now },
                                fuel: f1,
                                out: Ok(v),
                            },
                            None => SpecEvalOut {
                                st: r.st,
                                fuel: f1,
                                out: Err(SpecExc::Error(sp_undefined_message(n))),
                            },
                        }
                    } else {
                        SpecEvalOut {
                            st: r.st,
                            fuel: f1,
                            out: Err(SpecExc::Error(sp_undefined_message(n))),
                        }
                    }
                },
            }
        },
        SpecExpr::And(a, b) => {
            let r = sp_evaluate(*a, scope, st, fuel);
            let f1 = fcl(fuel, r.fuel);
            match r.out {
                Err(x) => SpecEvalOut { st: r.st, fuel: f1, out: Err(x) },
                Ok(v) => {
                    if sp_truthy(v) {
                        sp_evaluate(*b, scope, r.st, f1)
                    } else {
                        SpecEvalOut { st: r.st, fuel: f1, out: Ok(v) }
                    }
                },
            }
        },
        SpecExpr::Or(a, b) => {
            let r = sp_evaluate(*a, scope, st, fuel);
            let f1 = fcl(fuel, r.fuel);
            match r.out {
                Err(x) => SpecEvalOut { st: r.st, fuel: f1, out: Err(x) },
                Ok(v) => {
                    if !sp_truthy(v) {
                        sp_evaluate(*b, scope, r.st, f1)
                    } else {
                        SpecEvalOut { st: r.st, fuel: f1, out: Ok(v) }
                    }
                },
            }
        },
        SpecExpr::Call(f, args) => {
            let rc = sp_evaluate(*f, scope, st, fuel);
            let f1 = fcl(fuel, rc.fuel);
            match rc.out {
                Err(x) => SpecEvalOut { st: rc.st, fuel: f1, out: Err(x) },
                Ok(callee) => {
                    let ra = sp_eval_args(args, 0, Seq::<SpecValue>::empty(), scope, rc.st, f1);
                    let f2 = fcl(f1, ra.fuel);
                    match ra.out {
                        Err(x) => SpecEvalOut { st: ra.st, fuel: f2, out: Err(x) },
                        Ok(vals) => {
                            if f2 == 0 {
                                SpecEvalOut {
                                    st: ra.st,
                                    fuel: 0,
                                    out: Err(SpecExc::Error(sp_overflow_message())),
                                }
                            } else {
                                sp_call_value(callee, vals, ra.st, (f2 - 1) as nat)
                            }
                        },
                    }
                },
            }
        },
    }
}

/// The shared shape of `-`, `*` and `/`: both operands must be numbers,
/// evaluated and checked left to right.
#[verifier::opaque]
pub open spec fn sp_arith(e: SpecExpr, scope: int, st: SpecInterp, fuel: nat) -> SpecEvalOut
    decreases fuel, expr_size(e), 0int,
    when e is Minus || e is Multiply || e is Divide
{
    let (a, b) = match e {
        SpecExpr::Minus(a, b) => (*a, *b),
        SpecExpr::Multiply(a, b) => (*a, *b),
        SpecExpr::Divide(a, b) => (*a, *b),
        _ => (SpecExpr::Nil, SpecExpr::Nil),
    };
    let r1 = sp_evaluate(a, scope, st, fuel);
    let f1 = fcl(fuel, r1.fuel);
    match r1.out {
        Err(x) => SpecEvalOut { st: r1.st, fuel: f1, out: Err(x) },
        Ok(va) => match sp_as_number(va) {
            Err(x) => SpecEvalOut { st: r1.st, fuel: f1, out: Err(x) },
            Ok(la) => {
                let r2 = sp_evaluate(b, scope, r1.st, f1);
                let f2 = fcl(f1, r2.fuel);
                match r2.out {
                    Err(x) => SpecEvalOut { st: r2.st, fuel: f2, out: Err(x) },
                    Ok(vb) => match sp_as_number(vb) {
                        Err(x) => SpecEvalOut { st: r2.st, fuel: f2, out: Err(x) },
                        Ok(lb) => SpecEvalOut {
                            st: r2.st,
                            fuel: f2,
                            out: Ok(
                                SpecValue::Number(
                                    match e {
                                        SpecExpr::Minus(_, _) => sub_bits(la, lb),
                                        SpecExpr::Multiply(_, _) => mul_bits(la, lb),
                                        _ => div_bits(la, lb),
                                    },
                                ),
                            ),
                        },
                    },
                }
            },
        },
    }
}

/// The shared shape of the four comparisons: both operands must be numbers,
/// and the result is the IEEE comparison of their doubles.
#[verifier::opaque]
pub open spec fn sp_compare(e: SpecExpr, scope: int, st: SpecInterp, fuel: nat) -> SpecEvalOut
    decreases fuel, expr_size(e), 0int,
    when e is Less || e is LessEqual || e is Greater || e is GreaterEqual
{
    let (a, b) = match e {
        SpecExpr::Less(a, b) => (*a, *b),
        SpecExpr::LessEqual(a, b) => (*a, *b),
        SpecExpr::Greater(a, b) => (*a, *b),
        SpecExpr::GreaterEqual(a, b) => (*a, *b),
        _ => (SpecExpr::Nil, SpecExpr::Nil),
    };
    let r1 = sp_evaluate(a, scope, st, fuel);
    let f1 = fcl(fuel, r1.fuel);
    match r1.out {
        Err(x) => SpecEvalOut { st: r1.st, fuel: f1, out: Err(x) },
        Ok(va) => match sp_as_number(va) {
            Err(x) => SpecEvalOut { st: r1.st, fuel: f1, out: Err(x) },
            Ok(la) => {
                let r2 = sp_evaluate(b, scope, r1.st, f1);
                let f2 = fcl(f1, r2.fuel);
                match r2.out {
                    Err(x) => SpecEvalOut { st: r2.st, fuel: f2, out: Err(x) },
                    Ok(vb) => match sp_as_number(vb) {
                        Err(x) => SpecEvalOut { st: r2.st, fuel: f2, out: Err(x) },
                        Ok(lb) => SpecEvalOut {
                            st: r2.st,
                            fuel: f2,
                            out: Ok(
                                SpecValue::Boolean(
                                    match e {
                                        SpecExpr::Less(_, _) => num_lt(la, lb),
                                        SpecExpr::LessEqual(_, _) => num_le(la, lb),
                                        SpecExpr::Greater(_, _) => num_lt(lb, la),
                                        _ => num_le(lb, la),
                                    },
                                ),
                            ),
                        },
                    },
                }
            },
        },
    }
}

/// The shared shape of `==` and `!=`: defined for every pair of values.
#[verifier::opaque]
pub open spec fn sp_equality(e: SpecExpr, scope: int, st: SpecInterp, fuel: nat) -> SpecEvalOut
    decreases fuel, expr_size(e), 0int,
    when e is Equal || e is NotEqual
{
    let (a, b) = match e {
        SpecExpr::Equal(a, b) => (*a, *b),
        SpecExpr::NotEqual(a, b) => (*a, *b),
        _ => (SpecExpr::Nil, SpecExpr::Nil),
    };
    let r1 = sp_evaluate(a, scope, st, fuel);
    let f1 = fcl(fuel, r1.fuel);
    match r1.out {
        Err(x) => SpecEvalOut { st: r1.st, fuel: f1, out: Err(x) },
        Ok(va) => {
            let r2 = sp_evaluate(b, scope, r1.st, f1);
            let f2 = fcl(f1, r2.fuel);
            match r2.out {
                Err(x) => SpecEvalOut { st: r2.st, fuel: f2, out: Err(x) },
                Ok(vb) => SpecEvalOut {
                    st: r2.st,
                    fuel: f2,
                    out: Ok(
                        SpecValue::Boolean(
                            if e is Equal {
                                sp_value_eq(va, vb)
                            } else {
                                !sp_value_eq(va, vb)
                            },
                        ),
                    ),
                },
            }
        },
    }
}

/// Arguments evaluated left to right from index `i` on, appended to those
/// already evaluated.
#[verifier::opaque]
pub open spec fn sp_eval_args(
    es: Seq<SpecExpr>,
    i: int,
    acc: Seq<SpecValue>,
    scope: int,
    st: SpecInterp,
    fuel: nat,
) -> SpecArgsOut
    decreases fuel, exprs_size_from(es, i), 1int,
    when 0 <= i <= es.len()
{
    if i >= es.len() {
        SpecArgsOut { st, fuel, out: Ok(acc) }
    } else {
        let r = sp_evaluate(es[i], scope, st, fuel);
        let f1 = fcl(fuel, r.fuel);
        match r.out {
            Err(x) => SpecArgsOut { st: r.st, fuel: f1, out: Err(x) },
            Ok(v) => sp_eval_args(es, i + 1, acc.push(v), scope, r.st, f1),
        }
    }
}

/// Applying a value to its arguments: arity is checked, a native call
/// computes directly (`clock` is the one native; any other native name
/// yields `nil`), a user function runs its body in a fresh child of its
/// captured scope, and only here is a `Return` signal consumed.
#[verifier::opaque]
pub open spec fn sp_call_value(
    callee: SpecValue,
    args: Seq<SpecValue>,
    st: SpecInterp,
    fuel: nat,
) -> SpecEvalOut
    decreases fuel, callee_size(callee), 1int,
{
    match callee {
        SpecValue::NativeCallable(name, arity) => {
            if args.len() != arity {
                SpecEvalOut {
                    st,
                    fuel,
                    out: Err(
                        SpecExc::Error(sp_arity_message(name, arity, args.len() as int)),
                    ),
                }
            } else if name == "clock"@ {
                SpecEvalOut { st, fuel, out: Ok(sp_clock_value(st.now)) }
            } else {
                SpecEvalOut { st, fuel, out: Ok(SpecValue::Nil) }
            }
        },
        SpecValue::Callable(name, env, params, body) => {
            if args.len() != params.len() {
                SpecEvalOut {
                    st,
                    fuel,
                    out: Err(
                        SpecExc::Error(
                            sp_arity_message(name, params.len() as int, args.len() as int),
                        ),
                    ),
                }
            } else {
                let inner = st.scopes.len() as int;
                let st2 = sp_bind_params(sp_open_scope(st, env), inner, params, args, 0);
                let rb = sp_interpret(body, inner, st2, fuel);
                let f1 = fcl(fuel, rb.fuel);
                match rb.out {
                    Ok(_) => SpecEvalOut { st: rb.st, fuel: f1, out: Ok(SpecValue::Nil) },
                    Err(SpecExc::Return(v)) => SpecEvalOut { st: rb.st, fuel: f1, out: Ok(v) },
                    Err(x) => SpecEvalOut { st: rb.st, fuel: f1, out: Err(x) },
                }
            }
        },
        _ => SpecEvalOut {
            st,
            fuel,
            out: Err(SpecExc::Error("Can only call functions and classes"@)),
        },
    }
}

/// The view of a vector of values.
pub open spec fn vals_view(s: Seq<Value>) -> Seq<SpecValue> {
    s.map_values(|v: Value| v@)
}

/// Output views distribute over push.
pub proof fn lemma_output_push(s: Seq<String>, x: String)
    ensures
        out_view(s.push(x)) =~= out_view(s).push(x@),
{
    assert forall|j: int| 0 <= j < s.len() + 1 implies out_view(s.push(x))[j] == out_view(
        s,
    ).push(x@)[j] by {
        if j < s.len() {
            assert(s.push(x)[j] == s[j]);
        } else {
            assert(s.push(x)[j] == x);
        }
    }
}

/// Value views distribute over push.
pub proof fn lemma_vals_push(s: Seq<Value>, x: Value)
    ensures
        vals_view(s.push(x)) =~= vals_view(s).push(x@),
{
    assert forall|j: int| 0 <= j < s.len() + 1 implies vals_view(s.push(x))[j] == vals_view(
        s,
    ).push(x@)[j] by {
        if j < s.len() {
            assert(s.push(x)[j] == s[j]);
        } else {
            assert(s.push(x)[j] == x);
        }
    }
}

/// Interprets one declaration against the scope, the state, and the fuel.
#[verifier::rlimit(100)]
#[verifier::spinoff_prover]
pub fn interpret(declaration: &Declaration, scope: usize, st: &mut Interpreter, fuel: &mut u64) -> (r:
    Result<(), LoxRuntimeException>)
    requires
        wf_env(old(st)@.scopes),
        (scope as int) < old(st)@.scopes.len(),
    ensures
        wf_env(final(st)@.scopes),
        old(st)@.scopes.len() <= final(st)@.scopes.len(),
        *final(fuel) <= *old(fuel),
        ({
            let o = sp_interpret(declaration@, scope as int, old(st)@, *old(fuel) as nat);
            final(st)@ == o.st && *final(fuel) as nat == o.fuel && match (r, o.out) {
                (Ok(_), Ok(_)) => true,
                (Err(a), Err(b)) => a@ == b && (b matches SpecExc::Return(rv) ==> wf_value(
                    rv,
                    final(st)@.scopes.len() as int,
                )),
                _ => false,
            }
        }),
    decreases *old(fuel) as nat, decl_size(declaration@), 1int,
{
    proof {
        reveal_with_fuel(sp_interpret, 1);
    }
    match declaration {
        Declaration::Expression(e) => {
            match evaluate(e, scope, st, fuel) {
                Ok(_) => Ok(()),
                Err(x) => Err(x),
            }
        },
        Declaration::Print(e) => {
            match evaluate(e, scope, st, fuel) {
                Ok(v) => {
                    let line = v.to_display_string();
                    let ghost gout = st.output@;
                    let ghost gline = line;
                    st.output.push(line);
                    proof {
                        lemma_output_push(gout, gline);
                    }
                    Ok(())
                },
                Err(x) => Err(x),
            }
        },
        Declaration::Var(n, init) => {
            match init {
                Some(e) => {
                    match evaluate(e, scope, st, fuel) {
                        Ok(v) => {
                            st.env.define(scope, n.clone(), Some(v));
                            Ok(())
                        },
                        Err(x) => Err(x),
                    }
                },
                None => {
                    st.env.define(scope, n.clone(), None);
                    Ok(())
                },
            }
        },
        Declaration::Block(ds) => {
            let inner = st.env.new_local(scope);
            proof {
                assert(st@ == sp_open_scope(old(st)@, scope as int));
            }
            interpret_seq(ds, 0, inner, st, fuel)
        },
        Declaration::If(c, t, e) => {
            match evaluate(c, scope, st, fuel) {
                Err(x) => Err(x),
                Ok(v) => {
                    if v.is_truthy() {
                        interpret(t, scope, st, fuel)
                    } else {
                        match e {
                            Some(d2) => interpret(d2, scope, st, fuel),
                            None => Ok(()),
                        }
                    }
                },
            }
        },
        Declaration::While(c, body) => {
            loop
                invariant
                    wf_env(st@.scopes),
                    (scope as int) < st@.scopes.len(),
                    old(st)@.scopes.len() <= st@.scopes.len(),
                    *fuel <= *old(fuel),
                    (*declaration) is While,
                    (*declaration)->While_0 == *c,
                    (*declaration)->While_1 == *body,
                    sp_interpret(declaration@, scope as int, st@, *fuel as nat) == sp_interpret(
                        declaration@,
                        scope as int,
                        old(st)@,
                        *old(fuel) as nat,
                    ),
                decreases *fuel,
            {
                proof {
                    reveal_with_fuel(sp_interpret, 1);
                }
                match evaluate(c, scope, st, fuel) {
                    Err(x) => {
                        return Err(x);
                    },
                    Ok(v) => {
                        if !v.is_truthy() {
                            return Ok(());
                        }
                        match interpret(body, scope, st, fuel) {
                            Err(x) => {
                                return Err(x);
                            },
                            Ok(_) => {
                                if *fuel == 0 {
                                    return Err(
                                        LoxRuntimeException::Error(
                                            String::from_str("Stack overflow"),
                                        ),
                                    );
                                }
                                *fuel = *fuel - 1;
                            },
                        }
                    },
                }
            }
        },
        Declaration::Function(n, params, body) => {
            let v = Value::Callable(
                n.clone(),
                scope,
                crate::grammar::clone_names(params),
                Box::new(crate::grammar::clone_declaration(body)),
            );
            st.env.define(scope, n.clone(), Some(v));
            Ok(())
        },
        Declaration::Return(e) => {
            match evaluate(e, scope, st, fuel) {
                Ok(v) => Err(LoxRuntimeException::Return(v)),
                Err(x) => Err(x),
            }
        },
    }
}

/// Interprets the declarations of a block from index `i` on.
#[verifier::rlimit(100)]
#[verifier::spinoff_prover]
fn interpret_seq(ds: &Vec<Declaration>, i: usize, scope: usize, st: &mut Interpreter, fuel: &mut u64) -> (r:
    Result<(), LoxRuntimeException>)
    requires
        i <= ds@.len(),
        wf_env(old(st)@.scopes),
        (scope as int) < old(st)@.scopes.len(),
    ensures
        wf_env(final(st)@.scopes),
        old(st)@.scopes.len() <= final(st)@.scopes.len(),
        *final(fuel) <= *old(fuel),
        ({
            let o = sp_interpret_seq(
                crate::grammar::sdecls(ds@),
                i as int,
                scope as int,
                old(st)@,
                *old(fuel) as nat,
            );
            final(st)@ == o.st && *final(fuel) as nat == o.fuel && match (r, o.out) {
                (Ok(_), Ok(_)) => true,
                (Err(a), Err(b)) => a@ == b && (b matches SpecExc::Return(rv) ==> wf_value(
                    rv,
                    final(st)@.scopes.len() as int,
                )),
                _ => false,
            }
        }),
    decreases *old(fuel) as nat, decls_size_from(crate::grammar::sdecls(ds@), i as int), 1int,
{
    proof {
        reveal_with_fuel(sp_interpret_seq, 1);
        crate::grammar::lemma_sdecls_len(ds@);
        if (i as int) < ds@.len() {
            crate::grammar::lemma_sdecls_index(ds@, i as int);
        }
    }
    if i >= ds.len() {
        Ok(())
    } else {
        match interpret(&ds[i], scope, st, fuel) {
            Err(x) => Err(x),
            Ok(_) => interpret_seq(ds, i + 1, scope, st, fuel),
        }
    }
}

/// Evaluates an expression to a value, against the scope, the state, and the
/// fuel.
#[verifier::rlimit(100)]
#[verifier::spinoff_prover]
pub fn evaluate(expression: &Expression, scope: usize, st: &mut Interpreter, fuel: &mut u64) -> (r:
    Result<Value, LoxRuntimeException>)
    requires
        wf_env(old(st)@.scopes),
        (scope as int) < old(st)@.scopes.len(),
    ensures
        wf_env(final(st)@.scopes),
        old(st)@.scopes.len() <= final(st)@.scopes.len(),
        *final(fuel) <= *old(fuel),
        ({
            let o = sp_evaluate(expression@, scope as int, old(st)@, *old(fuel) as nat);
            final(st)@ == o.st && *final(fuel) as nat == o.fuel && match (r, o.out) {
                (Ok(v), Ok(sv)) => v@ == sv && wf_value(sv, final(st)@.scopes.len() as int),
                (Err(a), Err(b)) => a@ == b && (b matches SpecExc::Return(rv) ==> wf_value(
                    rv,
                    final(st)@.scopes.len() as int,
                )),
                _ => false,
            }
        }),
    decreases *old(fuel) as nat, expr_size(expression@), 1int,
{
    proof {
        reveal_with_fuel(sp_evaluate, 1);
    }
    match expression {
        Expression::Number(b) => Ok(Value::Number(*b)),
        Expression::StrLit(t) => Ok(Value::Str(t.clone())),
        Expression::True => Ok(Value::Boolean(true)),
        Expression::False => Ok(Value::Boolean(false)),
        Expression::Nil => Ok(Value::Nil),
        Expression::Paren(a) => evaluate(a, scope, st, fuel),
        Expression::Not(a) => {
            match evaluate(a, scope, st, fuel) {
                Ok(v) => Ok(Value::Boolean(!v.is_truthy())),
                Err(x) => Err(x),
            }
        },
        Expression::Minus(_, _) => eval_arith(expression, scope, st, fuel),
        Expression::Multiply(_, _) => eval_arith(expression, scope, st, fuel),
        Expression::Divide(_, _) => eval_arith(expression, scope, st, fuel),
        Expression::Plus(a, b) => {
            let left = match evaluate(a, scope, st, fuel) {
                Ok(v) => v,
                Err(x) => {
                    return Err(x);
                },
            };
            let right = match evaluate(b, scope, st, fuel) {
                Ok(v) => v,
                Err(x) => {
                    return Err(x);
                },
            };
            match (left, right) {
                (Value::Number(x), Value::Number(y)) => Ok(Value::Number(num_add(x, y))),
                (Value::Str(x), Value::Str(y)) => {
                    let mut joined = x;
                    joined.append(y.as_str());
                    Ok(Value::Str(joined))
                },
                _ => Err(
                    LoxRuntimeException::Error(
                        String::from_str("Operands must be two numbers or two strings."),
                    ),
                ),
            }
        },
        Expression::Less(_, _) => eval_compare(expression, scope, st, fuel),
        Expression::LessEqual(_, _) => eval_compare(expression, scope, st, fuel),
        Expression::Greater(_, _) => eval_compare(expression, scope, st, fuel),
        Expression::GreaterEqual(_, _) => eval_compare(expression, scope, st, fuel),
        Expression::Equal(_, _) => eval_equality(expression, scope, st, fuel),
        Expression::NotEqual(_, _) => eval_equality(expression, scope, st, fuel),
        Expression::Variable(n) => st.env.get(scope, n),
        Expression::Assignment(n, a) => {
            let v = match evaluate(a, scope, st, fuel) {
                Ok(v) => v,
                Err(x) => {
                    return Err(x);
                },
            };
            match st.env.assign(scope, n.clone(), clone_value(&v)) {
                Ok(_) => Ok(v),
                Err(x) => Err(x),
            }
        },
        Expression::And(a, b) => {
            match evaluate(a, scope, st, fuel) {
                Err(x) => Err(x),
                Ok(v) => {
                    if v.is_truthy() {
                        evaluate(b, scope, st, fuel)
                    } else {
                        Ok(v)
                    }
                },
            }
        },
        Expression::Or(a, b) => {
            match evaluate(a, scope, st, fuel) {
                Err(x) => Err(x),
                Ok(v) => {
                    if !v.is_truthy() {
                        evaluate(b, scope, st, fuel)
                    } else {
                        Ok(v)
                    }
                },
            }
        },
        Expression::Call(f, args) => {
            let callee = match evaluate(f, scope, st, fuel) {
                Ok(v) => v,
                Err(x) => {
                    return Err(x);
                },
            };
            let mut argvals: Vec<Value> = Vec::new();
            proof {
                assert(vals_view(argvals@) =~= Seq::<SpecValue>::empty());
            }
            match eval_args_rec(args, 0, &mut argvals, scope, st, fuel) {
                Ok(_) => {},
                Err(x) => {
                    return Err(x);
                },
            }
            if *fuel == 0 {
                Err(LoxRuntimeException::Error(String::from_str("Stack overflow")))
            } else {
                *fuel = *fuel - 1;
                callee.call(argvals, st, fuel)
            }
        },
    }
}

/// `-`, `*` and `/`: both operands must be numbers.
#[verifier::rlimit(100)]
#[verifier::spinoff_prover]
fn eval_arith(expression: &Expression, scope: usize, st: &mut Interpreter, fuel: &mut u64) -> (r:
    Result<Value, LoxRuntimeException>)
    requires
        expression@ is Minus || expression@ is Multiply || expression@ is Divide,
        wf_env(old(st)@.scopes),
        (scope as int) < old(st)@.scopes.len(),
    ensures
        wf_env(final(st)@.scopes),
        old(st)@.scopes.len() <= final(st)@.scopes.len(),
        *final(fuel) <= *old(fuel),
        ({
            let o = sp_arith(expression@, scope as int, old(st)@, *old(fuel) as nat);
            final(st)@ == o.st && *final(fuel) as nat == o.fuel && match (r, o.out) {
                (Ok(v), Ok(sv)) => v@ == sv && wf_value(sv, final(st)@.scopes.len() as int),
                (Err(a), Err(b)) => a@ == b && (b matches SpecExc::Return(rv) ==> wf_value(
                    rv,
                    final(st)@.scopes.len() as int,
                )),
                _ => false,
            }
        }),
    decreases *old(fuel) as nat, expr_size(expression@), 0int,
{
    proof {
        reveal_with_fuel(sp_arith, 1);
    }
    match expression {
        Expression::Minus(a, b) => {
            let left = match evaluate(a, scope, st, fuel) {
                Ok(v) => v,
                Err(x) => {
                    return Err(x);
                },
            };
            let la = match left.as_number() {
                Ok(n) => n,
                Err(x) => {
                    return Err(x);
                },
            };
            let right = match evaluate(b, scope, st, fuel) {
                Ok(v) => v,
                Err(x) => {
                    return Err(x);
                },
            };
            let lb = match right.as_number() {
                Ok(n) => n,
                Err(x) => {
                    return Err(x);
                },
            };
            Ok(Value::Number(num_sub(la, lb)))
        },
        Expression::Multiply(a, b) => {
            let left = match evaluate(a, scope, st, fuel) {
                Ok(v) => v,
                Err(x) => {
                    return Err(x);
                },
            };
            let la = match left.as_number() {
                Ok(n) => n,
                Err(x) => {
                    return Err(x);
                },
            };
            let right = match evaluate(b, scope, st, fuel) {
                Ok(v) => v,
                Err(x) => {
                    return Err(x);
                },
            };
            let lb = match right.as_number() {
                Ok(n) => n,
                Err(x) => {
                    return Err(x);
                },
            };
            Ok(Value::Number(num_mul(la, lb)))
        },
        Expression::Divide(a, b) => {
            let left = match evaluate(a, scope, st, fuel) {
                Ok(v) => v,
                Err(x) => {
                    return Err(x);
                },
            };
            let la = match left.as_number() {
                Ok(n) => n,
                Err(x) => {
                    return Err(x);
                },
            };
            let right = match evaluate(b, scope, st, fuel) {
                Ok(v) => v,
                Err(x) => {
                    return Err(x);
                },
            };
            let lb = match right.as_number() {
                Ok(n) => n,
                Err(x) => {
                    return Err(x);
                },
            };
            Ok(Value::Number(num_div(la, lb)))
        },
        _ => {
            proof {
                assert(false);
            }
            Err(LoxRuntimeException::Error(String::new()))
        },
    }
}

/// `<`, `<=`, `>`, `>=`: both operands must be numbers.
#[verifier::rlimit(100)]
#[verifier::spinoff_prover]
fn eval_compare(expression: &Expression, scope: usize, st: &mut Interpreter, fuel: &mut u64) -> (r:
    Result<Value, LoxRuntimeException>)
    requires
        expression@ is Less || expression@ is LessEqual || expression@ is Greater || expression@
            is GreaterEqual,
        wf_env(old(st)@.scopes),
        (scope as int) < old(st)@.scopes.len(),
    ensures
        wf_env(final(st)@.scopes),
        old(st)@.scopes.len() <= final(st)@.scopes.len(),
        *final(fuel) <= *old(fuel),
        ({
            let o = sp_compare(expression@, scope as int, old(st)@, *old(fuel) as nat);
            final(st)@ == o.st && *final(fuel) as nat == o.fuel && match (r, o.out) {
                (Ok(v), Ok(sv)) => v@ == sv && wf_value(sv, final(st)@.scopes.len() as int),
                (Err(a), Err(b)) => a@ == b && (b matches SpecExc::Return(rv) ==> wf_value(
                    rv,
                    final(st)@.scopes.len() as int,
                )),
                _ => false,
            }
        }),
    decreases *old(fuel) as nat, expr_size(expression@), 0int,
{
    proof {
        reveal_with_fuel(sp_compare, 1);
    }
    match expression {
        Expression::Less(a, b) => {
            let left = match evaluate(a, scope, st, fuel) {
                Ok(v) => v,
                Err(x) => {
                    return Err(x);
                },
            };
            let la = match left.as_number() {
                Ok(n) => n,
                Err(x) => {
                    return Err(x);
                },
            };
            let right = match evaluate(b, scope, st, fuel) {
                Ok(v) => v,
                Err(x) => {
                    return Err(x);
                },
            };
            let lb = match right.as_number() {
                Ok(n) => n,
                Err(x) => {
                    return Err(x);
                },
            };
            Ok(Value::Boolean(exec_num_lt(la, lb)))
        },
        Expression::LessEqual(a, b) => {
            let left = match evaluate(a, scope, st, fuel) {
                Ok(v) => v,
                Err(x) => {
                    return Err(x);
                },
            };
            let la = match left.as_number() {
                Ok(n) => n,
                Err(x) => {
                    return Err(x);
                },
            };
            let right = match evaluate(b, scope, st, fuel) {
                Ok(v) => v,
                Err(x) => {
                    return Err(x);
                },
            };
            let lb = match right.as_number() {
                Ok(n) => n,
                Err(x) => {
                    return Err(x);
                },
            };
            Ok(Value::Boolean(exec_num_le(la, lb)))
        },
        Expression::Greater(a, b) => {
            let left = match evaluate(a, scope, st, fuel) {
                Ok(v) => v,
                Err(x) => {
                    return Err(x);
                },
            };
            let la = match left.as_number() {
                Ok(n) => n,
                Err(x) => {
                    return Err(x);
                },
            };
            let right = match evaluate(b, scope, st, fuel) {
                Ok(v) => v,
                Err(x) => {
                    return Err(x);
                },
            };
            let lb = match right.as_number() {
                Ok(n) => n,
                Err(x) => {
                    return Err(x);
                },
            };
            Ok(Value::Boolean(exec_num_lt(lb, la)))
        },
        Expression::GreaterEqual(a, b) => {
            let left = match evaluate(a, scope, st, fuel) {
                Ok(v) => v,
                Err(x) => {
                    return Err(x);
                },
            };
            let la = match left.as_number() {
                Ok(n) => n,
                Err(x) => {
                    return Err(x);
                },
            };
            let right = match evaluate(b, scope, st, fuel) {
                Ok(v) => v,
                Err(x) => {
                    return Err(x);
                },
            };
            let lb = match right.as_number() {
                Ok(n) => n,
                Err(x) => {
                    return Err(x);
                },
            };
            Ok(Value::Boolean(exec_num_le(lb, la)))
        },
        _ => {
            proof {
                assert(false);
            }
            Err(LoxRuntimeException::Error(String::new()))
        },
    }
}

/// `==` and `!=`: defined for every pair of values.
#[verifier::rlimit(100)]
#[verifier::spinoff_prover]
fn eval_equality(expression: &Expression, scope: usize, st: &mut Interpreter, fuel: &mut u64) -> (r:
    Result<Value, LoxRuntimeException>)
    requires
        expression@ is Equal || expression@ is NotEqual,
        wf_env(old(st)@.scopes),
        (scope as int) < old(st)@.scopes.len(),
    ensures
        wf_env(final(st)@.scopes),
        old(st)@.scopes.len() <= final(st)@.scopes.len(),
        *final(fuel) <= *old(fuel),
        ({
            let o = sp_equality(expression@, scope as int, old(st)@, *old(fuel) as nat);
            final(st)@ == o.st && *final(fuel) as nat == o.fuel && match (r, o.out) {
                (Ok(v), Ok(sv)) => v@ == sv && wf_value(sv, final(st)@.scopes.len() as int),
                (Err(a), Err(b)) => a@ == b && (b matches SpecExc::Return(rv) ==> wf_value(
                    rv,
                    final(st)@.scopes.len() as int,
                )),
                _ => false,
            }
        }),
    decreases *old(fuel) as nat, expr_size(expression@), 0int,
{
    proof {
        reveal_with_fuel(sp_equality, 1);
    }
    match expression {
        Expression::Equal(a, b) => {
            let left = match evaluate(a, scope, st, fuel) {
                Ok(v) => v,
                Err(x) => {
                    return Err(x);
                },
            };
            let right = match evaluate(b, scope, st, fuel) {
                Ok(v) => v,
                Err(x) => {
                    return Err(x);
                },
            };
            Ok(Value::Boolean(left.is_equal(&right)))
        },
        Expression::NotEqual(a, b) => {
            let left = match evaluate(a, scope, st, fuel) {
                Ok(v) => v,
                Err(x) => {
                    return Err(x);
                },
            };
            let right = match evaluate(b, scope, st, fuel) {
                Ok(v) => v,
                Err(x) => {
                    return Err(x);
                },
            };
            Ok(Value::Boolean(!left.is_equal(&right)))
        },
        _ => {
            proof {
                assert(false);
            }
            Err(LoxRuntimeException::Error(String::new()))
        },
    }
}

/// Evaluates the arguments from index `i` on, left to right, into `out`.
#[verifier::rlimit(100)]
#[verifier::spinoff_prover]
fn eval_args_rec(
    args: &Vec<Expression>,
    i: usize,
    out: &mut Vec<Value>,
    scope: usize,
    st: &mut Interpreter,
    fuel: &mut u64,
) -> (r: Result<(), LoxRuntimeException>)
    requires
        i <= args@.len(),
        wf_env(old(st)@.scopes),
        (scope as int) < old(st)@.scopes.len(),
        forall|j: int|
            0 <= j < old(out)@.len() ==> wf_value(
                #[trigger] vals_view(old(out)@)[j],
                old(st)@.scopes.len() as int,
            ),
    ensures
        wf_env(final(st)@.scopes),
        old(st)@.scopes.len() <= final(st)@.scopes.len(),
        *final(fuel) <= *old(fuel),
        ({
            let o = sp_eval_args(
                crate::grammar::sexprs(args@),
                i as int,
                vals_view(old(out)@),
                scope as int,
                old(st)@,
                *old(fuel) as nat,
            );
            final(st)@ == o.st && *final(fuel) as nat == o.fuel && match (r, o.out) {
                (Ok(_), Ok(sv)) => vals_view(final(out)@) == sv && forall|j: int|
                    0 <= j < sv.len() ==> wf_value(
                        #[trigger] sv[j],
                        final(st)@.scopes.len() as int,
                    ),
                (Err(a), Err(b)) => a@ == b && (b matches SpecExc::Return(rv) ==> wf_value(
                    rv,
                    final(st)@.scopes.len() as int,
                )),
                _ => false,
            }
        }),
    decreases *old(fuel) as nat, exprs_size_from(crate::grammar::sexprs(args@), i as int), 1int,
{
    proof {
        reveal_with_fuel(sp_eval_args, 1);
        crate::grammar::lemma_sexprs_len(args@);
        if (i as int) < args@.len() {
            crate::grammar::lemma_sexprs_index(args@, i as int);
        }
    }
    if i >= args.len() {
        Ok(())
    } else {
        let v = match evaluate(&args[i], scope, st, fuel) {
            Ok(v) => v,
            Err(x) => {
                return Err(x);
            },
        };
        proof {
            lemma_vals_push(out@, v);
            assert forall|j: int| 0 <= j < vals_view(out@.push(v)).len() implies wf_value(
                #[trigger] vals_view(out@.push(v))[j],
                st@.scopes.len() as int,
            ) by {
                if j < out@.len() {
                    assert(wf_value(vals_view(old(out)@)[j], old(st)@.scopes.len() as int));
                }
            }
        }
        out.push(v);
        eval_args_rec(args, i + 1, out, scope, st, fuel)
    }
}

impl Value {
    /// Applies this value to its arguments: arity checked, natives computed
    /// directly, user functions run in a fresh child of their captured
    /// scope; only here is a `Return` signal consumed.
    #[verifier::rlimit(100)]
    #[verifier::spinoff_prover]
    pub fn call(&self, args: Vec<Value>, st: &mut Interpreter, fuel: &mut u64) -> (r: Result<
        Value,
        LoxRuntimeException,
    >)
        requires
            wf_env(old(st)@.scopes),
            wf_value(self@, old(st)@.scopes.len() as int),
            forall|j: int|
                0 <= j < args@.len() ==> wf_value(
                    #[trigger] vals_view(args@)[j],
                    old(st)@.scopes.len() as int,
                ),
        ensures
            wf_env(final(st)@.scopes),
            old(st)@.scopes.len() <= final(st)@.scopes.len(),
            *final(fuel) <= *old(fuel),
            ({
                let o = sp_call_value(self@, vals_view(args@), old(st)@, *old(fuel) as nat);
                final(st)@ == o.st && *final(fuel) as nat == o.fuel && match (r, o.out) {
                    (Ok(v), Ok(sv)) => v@ == sv && wf_value(sv, final(st)@.scopes.len() as int),
                    (Err(a), Err(b)) => a@ == b && (b matches SpecExc::Return(rv) ==> wf_value(
                        rv,
                        final(st)@.scopes.len() as int,
                    )),
                    _ => false,
                }
            }),
        decreases *old(fuel) as nat, callee_size(self@), 1int,
    {
        proof {
            reveal_with_fuel(sp_call_value, 1);
        }
        match self {
            Value::NativeCallable(name, arity) => {
                if args.len() != *arity {
                    Err(
                        LoxRuntimeException::Error(
                            arity_message(name, *arity, args.len()),
                        ),
                    )
                } else if str_is(name, "clock") {
                    Ok(crate::standard::clock(st.now_millis))
                } else {
                    Ok(Value::Nil)
                }
            },
            Value::Callable(name, env, params, body) => {
                if args.len() != params.len() {
                    Err(
                        LoxRuntimeException::Error(
                            arity_message(name, params.len(), args.len()),
                        ),
                    )
                } else {
                    let inner = st.env.new_local(*env);
                    let ghost st_open = st@;
                    let ghost pview = crate::grammar::names_view(params@);
                    let ghost aview = vals_view(args@);
                    proof {
                        assert(st_open == sp_open_scope(old(st)@, *env as int));
                        assert forall|k: int| 0 <= k < aview.len() implies wf_value(
                            #[trigger] aview[k],
                            st@.scopes.len() as int,
                        ) by {
                            assert(wf_value(vals_view(args@)[k], old(st)@.scopes.len() as int));
                        }
                    }
                    let mut j: usize = 0;
                    while j < params.len()
                        invariant
                            j <= params@.len(),
                            params@.len() == args@.len(),
                            wf_env(st@.scopes),
                            (inner as int) < st@.scopes.len(),
                            st@.scopes.len() == st_open.scopes.len(),
                            pview == crate::grammar::names_view(params@),
                            aview == vals_view(args@),
                            pview.len() == aview.len(),
                            forall|k: int|
                                0 <= k < aview.len() ==> wf_value(
                                    #[trigger] aview[k],
                                    st@.scopes.len() as int,
                                ),
                            sp_bind_params(st@, inner as int, pview, aview, j as int)
                                == sp_bind_params(st_open, inner as int, pview, aview, 0),
                        decreases params@.len() - j,
                    {
                        let v = clone_value(&args[j]);
                        proof {
                            assert(vals_view(args@)[j as int] == args@[j as int]@);
                            assert(crate::grammar::names_view(params@)[j as int] == params@[
                                j as int
                            ]@);
                        }
                        st.env.define(inner, params[j].clone(), Some(v));
                        j = j + 1;
                    }
                    let result = interpret(body, inner, st, fuel);
                    match result {
                        Ok(_) => Ok(Value::Nil),
                        Err(LoxRuntimeException::Return(v)) => Ok(v),
                        Err(x) => Err(x),
                    }
                }
            },
            _ => Err(
                LoxRuntimeException::Error(
                    String::from_str("Can only call functions and classes"),
                ),
            ),
        }
    }
}

/// The `Function N expected A arguments but got G.` message.
fn arity_message(name: &String, arity: usize, got: usize) -> (r: String)
    ensures
        r@ == sp_arity_message(name@, arity as int, got as int),
{
    let mut s = String::from_str("Function ");
    s.append(name.as_str());
    s.append(" expected ");
    let a = dec_usize(arity);
    s.append(a.as_str());
    s.append(" arguments but got ");
    let g = dec_usize(got);
    s.append(g.as_str());
    s.append(".");
    s
}

} // verus!
