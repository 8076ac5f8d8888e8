//! The laws the evaluator obeys, stated over the specification-level
//! evaluator and proved once and for all.

use vstd::prelude::*;

use crate::environment::SpecScope;
use crate::environment::sp_env_assign;
use crate::environment::sp_env_get;
use crate::environment::wf_env;
use crate::error::SpecExc;
use crate::grammar::SpecExpr;
use crate::interpreter::SpecInterp;
use crate::interpreter::sp_define;
use crate::interpreter::sp_evaluate;
use crate::value::SpecValue;
use crate::value::sp_truthy;

verus! {

/// Truthiness: exactly `nil` and `false` are falsy; every other value,
/// zero and the empty string included, is truthy.
pub proof fn law_truthiness(v: SpecValue)
    ensures
        sp_truthy(v) <==> !(v == SpecValue::Nil || v == SpecValue::Boolean(false)),
{
}

/// An assignment expression yields the assigned value: whenever the
/// right-hand side evaluates to a value and some scope on the chain binds
/// the name, the whole assignment evaluates to that same value.
pub proof fn law_assignment_value(
    n: Seq<char>,
    a: SpecExpr,
    scope: int,
    st: SpecInterp,
    fuel: nat,
    v: SpecValue,
)
    requires
        sp_evaluate(a, scope, st, fuel).out == Ok::<SpecValue, SpecExc>(v),
        0 <= scope < sp_evaluate(a, scope, st, fuel).st.scopes.len(),
        sp_env_assign(sp_evaluate(a, scope, st, fuel).st.scopes, scope, n, v) is Some,
    ensures
        sp_evaluate(SpecExpr::Assignment(n, Box::new(a)), scope, st, fuel).out == Ok::<
            SpecValue,
            SpecExc,
        >(v),
{
    reveal_with_fuel(sp_evaluate, 1);
}

/// After an assignment expression succeeds, looking the name up from the
/// same scope yields the assigned value: the update lands in the shared
/// arena that every capturing closure reads, not in a copy.
pub proof fn law_assignment_visible(
    n: Seq<char>,
    a: SpecExpr,
    scope: int,
    st: SpecInterp,
    fuel: nat,
    v: SpecValue,
)
    requires
        wf_env(sp_evaluate(a, scope, st, fuel).st.scopes),
        sp_evaluate(a, scope, st, fuel).out == Ok::<SpecValue, SpecExc>(v),
        0 <= scope < sp_evaluate(a, scope, st, fuel).st.scopes.len(),
        sp_env_assign(sp_evaluate(a, scope, st, fuel).st.scopes, scope, n, v) is Some,
    ensures
        ({
            let r = sp_evaluate(SpecExpr::Assignment(n, Box::new(a)), scope, st, fuel);
            sp_env_get(r.st.scopes, scope, n) == Some(v)
        }),
{
    reveal_with_fuel(sp_evaluate, 1);
    law_assign_get(sp_evaluate(a, scope, st, fuel).st.scopes, scope, n, v);
}

/// `and` short-circuits: a falsy left operand is itself the result, and the
/// right operand is not evaluated — the state and the output after the whole
/// expression are exactly those after the left operand alone.
pub proof fn law_and_short_circuit(
    a: SpecExpr,
    b: SpecExpr,
    scope: int,
    st: SpecInterp,
    fuel: nat,
    v: SpecValue,
)
    requires
        sp_evaluate(a, scope, st, fuel).out == Ok::<SpecValue, SpecExc>(v),
        !sp_truthy(v),
    ensures
        sp_evaluate(SpecExpr::And(Box::new(a), Box::new(b)), scope, st, fuel).st == sp_evaluate(
            a,
            scope,
            st,
            fuel,
        ).st,
        sp_evaluate(SpecExpr::And(Box::new(a), Box::new(b)), scope, st, fuel).out == Ok::<
            SpecValue,
            SpecExc,
        >(v),
{
    reveal_with_fuel(sp_evaluate, 1);
}

/// `or` short-circuits: a truthy left operand is itself the result, and the
/// right operand is not evaluated.
pub proof fn law_or_short_circuit(
    a: SpecExpr,
    b: SpecExpr,
    scope: int,
    st: SpecInterp,
    fuel: nat,
    v: SpecValue,
)
    requires
        sp_evaluate(a, scope, st, fuel).out == Ok::<SpecValue, SpecExc>(v),
        sp_truthy(v),
    ensures
        sp_evaluate(SpecExpr::Or(Box::new(a), Box::new(b)), scope, st, fuel).st == sp_evaluate(
            a,
            scope,
            st,
            fuel,
        ).st,
        sp_evaluate(SpecExpr::Or(Box::new(a), Box::new(b)), scope, st, fuel).out == Ok::<
            SpecValue,
            SpecExc,
        >(v),
{
    reveal_with_fuel(sp_evaluate, 1);
}

/// Lexical scoping: binding a name in one scope leaves every other scope's
/// bindings untouched, so an inner `var` shadows an outer binding without
/// overwriting it.
pub proof fn law_shadowing(st: SpecInterp, inner: int, outer: int, k: Seq<char>, v: SpecValue)
    requires
        0 <= inner < st.scopes.len(),
        0 <= outer < st.scopes.len(),
        outer != inner,
    ensures
        sp_define(st, inner, k, v).scopes[outer] == st.scopes[outer],
{
}

/// A freshly bound name is what lookup finds in that scope.
pub proof fn law_define_get(st: SpecInterp, scope: int, k: Seq<char>, v: SpecValue)
    requires
        0 <= scope < st.scopes.len(),
    ensures
        sp_env_get(sp_define(st, scope, k, v).scopes, scope, k) == Some(v),
{
    let ns = sp_define(st, scope, k, v).scopes;
    assert(ns[scope].bindings.contains_key(k));
}

/// Closure capture over mutation: after an assignment that some scope on the
/// chain from `s` accepts, looking the name up from `s` sees the new value.
/// A closure holding its captured scope's index therefore observes every
/// later assignment to its captured variables.
pub proof fn law_assign_get(scopes: Seq<SpecScope>, s: int, k: Seq<char>, v: SpecValue)
    requires
        wf_env(scopes),
        0 <= s < scopes.len(),
        sp_env_assign(scopes, s, k, v) is Some,
    ensures
        sp_env_get(sp_env_assign(scopes, s, k, v)->Some_0, s, k) == Some(v),
    decreases s,
{
    let ns = sp_env_assign(scopes, s, k, v)->Some_0;
    if scopes[s].bindings.dom().contains(k) {
        assert(ns[s].bindings.contains_key(k));
    } else {
        match scopes[s].parent {
            Some(p) => {
                assert(0 <= p < s) by {
                    assert(crate::environment::wf_scope(
                        scopes[s],
                        s,
                        scopes.len() as int,
                    ));
                }
                law_assign_get(scopes, p, k, v);
                let np = sp_env_assign(scopes, p, k, v)->Some_0;
                assert(ns == np);
                lemma_assign_shape(scopes, p, k, v);
                assert(ns[s] == scopes[s]);
            },
            None => {},
        }
    }
}

/// Growing the arena with a fresh scope disturbs no lookup from the scopes
/// already there, so a captured scope index keeps its meaning for as long
/// as the closure lives.
pub proof fn law_get_frame_push(scopes: Seq<SpecScope>, fresh: SpecScope, s: int, k: Seq<char>)
    requires
        wf_env(scopes),
        0 <= s < scopes.len(),
    ensures
        sp_env_get(scopes.push(fresh), s, k) == sp_env_get(scopes, s, k),
    decreases s,
{
    assert(scopes.push(fresh)[s] == scopes[s]);
    if !scopes[s].bindings.dom().contains(k) {
        match scopes[s].parent {
            Some(p) => {
                assert(0 <= p < s) by {
                    assert(crate::environment::wf_scope(
                        scopes[s],
                        s,
                        scopes.len() as int,
                    ));
                }
                law_get_frame_push(scopes, fresh, p, k);
            },
            None => {},
        }
    }
}

/// The closure-call shape in one statement: after an assignment the chain
/// from `s` accepts, a call's fresh scope opened under `s` — the environment
/// a closure capturing `s` runs its body in — still sees the assigned value,
/// provided the fresh scope itself does not shadow the name.
pub proof fn law_fresh_scope_sees_assignment(
    scopes: Seq<SpecScope>,
    s: int,
    k: Seq<char>,
    v: SpecValue,
    fresh: SpecScope,
)
    requires
        wf_env(scopes),
        0 <= s < scopes.len(),
        crate::value::wf_value(v, scopes.len() as int),
        sp_env_assign(scopes, s, k, v) is Some,
        fresh.parent == Some(s),
        !fresh.bindings.dom().contains(k),
    ensures
        ({
            let ns = sp_env_assign(scopes, s, k, v)->Some_0;
            sp_env_get(ns.push(fresh), ns.len() as int, k) == Some(v)
        }),
{
    let ns = sp_env_assign(scopes, s, k, v)->Some_0;
    lemma_assign_shape(scopes, s, k, v);
    assert(wf_env(ns)) by {
        let a = choose|a: int|
            0 <= a <= s && #[trigger] ns[a].bindings.contains_key(k) && ns == scopes.update(
                a,
                SpecScope {
                    bindings: scopes[a].bindings.insert(k, v),
                    parent: scopes[a].parent,
                },
            );
        assert forall|i: int| 0 <= i < ns.len() implies crate::environment::wf_scope(
            #[trigger] ns[i],
            i,
            ns.len() as int,
        ) by {
            assert(crate::environment::wf_scope(scopes[i], i, scopes.len() as int));
            if i == a {
                assert forall|key: Seq<char>| ns[i].bindings.dom().contains(key) implies
                    crate::value::wf_value(#[trigger] ns[i].bindings[key], ns.len() as int) by {
                    if key != k {
                        assert(scopes[i].bindings.dom().contains(key));
                    } else {
                        assert(ns[i].bindings[key] == v || scopes[i].bindings.dom().contains(
                            key,
                        ));
                    }
                }
            }
        }
    }
    law_assign_get(scopes, s, k, v);
    law_get_frame_push(ns, fresh, s, k);
    assert(ns.push(fresh)[ns.len() as int] == fresh);
}

/// A successful assignment only rewrites one scope at or below the start of
/// the chain, and that scope binds the name afterwards.
pub proof fn lemma_assign_shape(scopes: Seq<SpecScope>, s: int, k: Seq<char>, v: SpecValue)
    requires
        wf_env(scopes),
        0 <= s < scopes.len(),
        sp_env_assign(scopes, s, k, v) is Some,
    ensures
        ({
            let ns = sp_env_assign(scopes, s, k, v)->Some_0;
            &&& ns.len() == scopes.len()
            &&& exists|a: int|
                0 <= a <= s && #[trigger] ns[a].bindings.contains_key(k) && ns == scopes.update(
                    a,
                    SpecScope {
                        bindings: scopes[a].bindings.insert(k, v),
                        parent: scopes[a].parent,
                    },
                )
        }),
    decreases s,
{
    if scopes[s].bindings.dom().contains(k) {
        let ns = sp_env_assign(scopes, s, k, v)->Some_0;
        assert(ns[s].bindings.contains_key(k));
    } else {
        match scopes[s].parent {
            Some(p) => {
                assert(0 <= p < s) by {
                    assert(crate::environment::wf_scope(
                        scopes[s],
                        s,
                        scopes.len() as int,
                    ));
                }
                lemma_assign_shape(scopes, p, k, v);
            },
            None => {},
        }
    }
}

} // verus!
