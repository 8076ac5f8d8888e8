//! The scope chain: name-to-value tables with parent links.  Scopes live in
//! one arena and are named by index, so a closure's captured scope stays
//! alive and every holder of the index sees each mutation — the
//! closure-over-mutation behaviour the language requires.

use vstd::prelude::*;

use crate::error::LoxRuntimeException;
use crate::error::SpecExc;
use crate::value::SpecValue;
use crate::value::Value;
use crate::value::clone_value;
use crate::value::wf_value;

verus! {

/// The mathematical content of a [`Scope`].
pub struct SpecScope {
    pub bindings: Map<Seq<char>, SpecValue>,
    pub parent: Option<int>,
}

/// One scope: its bindings, newest last, and its enclosing scope.
pub struct Scope {
    pub bindings: Vec<(String, Value)>,
    pub parent: Option<usize>,
}

/// The value bound to a name in an association list: the newest entry wins.
pub open spec fn assoc_view(s: Seq<(String, Value)>) -> Map<Seq<char>, SpecValue>
    decreases s.len(),
{
    if s.len() == 0 {
        Map::empty()
    } else {
        assoc_view(s.drop_last()).insert(s.last().0@, s.last().1@)
    }
}

impl View for Scope {
    type V = SpecScope;

    open spec fn view(&self) -> SpecScope {
        SpecScope {
            bindings: assoc_view(self.bindings@),
            parent: match self.parent {
                Some(p) => Some(p as int),
                None => None,
            },
        }
    }
}

/// Scanning the association list from the newest entry back agrees with the
/// map it denotes.
pub proof fn lemma_assoc_view_push(s: Seq<(String, Value)>, e: (String, Value))
    ensures
        assoc_view(s.push(e)) == assoc_view(s).insert(e.0@, e.1@),
{
    assert(s.push(e).drop_last() =~= s);
    assert(s.push(e).last() == e);
}

/// A well-formed scope at index `i` of an arena of `n` scopes: the global
/// scope alone has no parent, every parent was made earlier, and every bound
/// value points inside the arena.
pub open spec fn wf_scope(s: SpecScope, i: int, n: int) -> bool {
    &&& match s.parent {
        Some(p) => 0 <= p < i,
        None => i == 0,
    }
    &&& forall|k: Seq<char>|
        s.bindings.dom().contains(k) ==> wf_value(#[trigger] s.bindings[k], n)
}

/// A well-formed arena of scopes.
pub open spec fn wf_env(scopes: Seq<SpecScope>) -> bool {
    &&& scopes.len() >= 1
    &&& forall|i: int| 0 <= i < scopes.len() ==> wf_scope(#[trigger] scopes[i], i, scopes.len() as int)
}

/// Looking a name up from scope `s`: the nearest binding on the parent
/// chain.
pub open spec fn sp_env_get(scopes: Seq<SpecScope>, s: int, k: Seq<char>) -> Option<SpecValue>
    decreases s,
    when 0 <= s < scopes.len()
{
    if scopes[s].bindings.dom().contains(k) {
        Some(scopes[s].bindings[k])
    } else {
        match scopes[s].parent {
            Some(p) => if 0 <= p < s {
                sp_env_get(scopes, p, k)
            } else {
                None
            },
            None => None,
        }
    }
}

/// Overwriting a name in the nearest scope of the chain that binds it, or
/// `None` when no scope does.
pub open spec fn sp_env_assign(scopes: Seq<SpecScope>, s: int, k: Seq<char>, v: SpecValue) -> Option<
    Seq<SpecScope>,
>
    decreases s,
    when 0 <= s < scopes.len()
{
    if scopes[s].bindings.dom().contains(k) {
        Some(
            scopes.update(
                s,
                SpecScope { bindings: scopes[s].bindings.insert(k, v), parent: scopes[s].parent },
            ),
        )
    } else {
        match scopes[s].parent {
            Some(p) => if 0 <= p < s {
                sp_env_assign(scopes, p, k, v)
            } else {
                None
            },
            None => None,
        }
    }
}

/// The scope arena.  Every environment the program ever enters lives here;
/// scope `0` is the global one.
pub struct Environment {
    pub scopes: Vec<Scope>,
}

impl View for Environment {
    type V = Seq<SpecScope>;

    open spec fn view(&self) -> Seq<SpecScope> {
        self.scopes@.map_values(|s: Scope| s@)
    }
}

/// The message reported for a name no scope binds.
pub open spec fn sp_undefined_message(k: Seq<char>) -> Seq<char> {
    "Undefined variable "@ + k
}

impl Environment {
    /// A fresh arena holding the global scope, with the `clock` built-in
    /// already bound there.
    pub fn new_global() -> (r: Environment)
        ensures
            r@.len() == 1,
            r@[0].bindings == Map::<Seq<char>, SpecValue>::empty().insert(
                "clock"@,
                SpecValue::NativeCallable("clock"@, 0),
            ),
            r@[0].parent is None,
            wf_env(r@),
    {
        let mut scopes: Vec<Scope> = Vec::new();
        scopes.push(Scope { bindings: Vec::new(), parent: None });
        let mut r = Environment { scopes };
        proof {
            assert(r@.len() == 1);
            assert(r@[0].bindings =~= Map::<Seq<char>, SpecValue>::empty());
            assert(wf_env(r@));
        }
        r.define(
            0,
            String::from_str("clock"),
            Some(Value::NativeCallable(String::from_str("clock"), 0)),
        );
        r
    }

    /// Opens a fresh scope whose parent is `parent`, returning its index.
    pub fn new_local(&mut self, parent: usize) -> (r: usize)
        requires
            parent < old(self)@.len(),
            wf_env(old(self)@),
        ensures
            wf_env(final(self)@),
            r as int == old(self)@.len(),
            final(self)@.len() == old(self)@.len() + 1,
            final(self)@ == old(self)@.push(
                SpecScope {
                    bindings: Map::<Seq<char>, SpecValue>::empty(),
                    parent: Some(parent as int),
                },
            ),
    {
        let r = self.scopes.len();
        self.scopes.push(Scope { bindings: Vec::new(), parent: Some(parent) });
        proof {
            assert(self@ =~= old(self)@.push(
                SpecScope {
                    bindings: Map::<Seq<char>, SpecValue>::empty(),
                    parent: Some(parent as int),
                },
            ));
            assert forall|i: int| 0 <= i < self@.len() implies wf_scope(
                #[trigger] self@[i],
                i,
                self@.len() as int,
            ) by {
                if i < old(self)@.len() {
                    assert(wf_scope(old(self)@[i], i, old(self)@.len() as int));
                }
            }
        }
        r
    }

    /// Binds a name in the given scope, overwriting any existing binding
    /// there; an absent initialiser binds `nil`.
    pub fn define(&mut self, scope: usize, k: String, v: Option<Value>)
        requires
            scope < old(self)@.len(),
            wf_env(old(self)@),
            match v {
                Some(val) => wf_value(val@, old(self)@.len() as int),
                None => true,
            },
        ensures
            wf_env(final(self)@),
            final(self)@.len() == old(self)@.len(),
            final(self)@ == old(self)@.update(
                scope as int,
                SpecScope {
                    bindings: old(self)@[scope as int].bindings.insert(
                        k@,
                        match v {
                            Some(val) => val@,
                            None => SpecValue::Nil,
                        },
                    ),
                    parent: old(self)@[scope as int].parent,
                },
            ),
    {
        let ghost n = old(self)@.len() as int;
        let value = match v {
            Some(val) => val,
            None => Value::Nil,
        };
        let ghost gvalue = value;
        let entry = (k, value);
        proof {
            lemma_assoc_view_push(self.scopes@[scope as int].bindings@, entry);
        }
        let sc = &mut self.scopes[scope];
        sc.bindings.push(entry);
        proof {
            assert(self@ =~= old(self)@.update(
                scope as int,
                SpecScope {
                    bindings: old(self)@[scope as int].bindings.insert(k@, gvalue@),
                    parent: old(self)@[scope as int].parent,
                },
            ));
            assert(wf_value(gvalue@, n));
            assert forall|i: int| 0 <= i < self@.len() implies wf_scope(
                #[trigger] self@[i],
                i,
                self@.len() as int,
            ) by {
                assert(wf_scope(old(self)@[i], i, n));
                if i == scope as int {
                    let newb = self@[i].bindings;
                    assert forall|key: Seq<char>| newb.dom().contains(key) implies wf_value(
                        #[trigger] newb[key],
                        n,
                    ) by {
                        if key != k@ {
                            assert(old(self)@[i].bindings.dom().contains(key));
                        }
                    }
                }
            }
        }
    }

    /// Overwrites the nearest binding of the name on the scope chain, or
    /// reports it undefined.
    pub fn assign(&mut self, scope: usize, k: String, v: Value) -> (r: Result<
        (),
        LoxRuntimeException,
    >)
        requires
            scope < old(self)@.len(),
            wf_env(old(self)@),
            wf_value(v@, old(self)@.len() as int),
        ensures
            wf_env(final(self)@),
            final(self)@.len() == old(self)@.len(),
            match sp_env_assign(old(self)@, scope as int, k@, v@) {
                Some(ns) => r is Ok && final(self)@ == ns,
                None => final(self)@ == old(self)@ && (r matches Err(e) && e@ == (
                SpecExc::Error(sp_undefined_message(k@)))),
            },
        decreases scope,
    {
        let ghost n = old(self)@.len() as int;
        if contains_key(&self.scopes[scope].bindings, &k) {
            let ghost gv = v;
            let entry = (k, v);
            proof {
                lemma_assoc_view_push(self.scopes@[scope as int].bindings@, entry);
            }
            let sc = &mut self.scopes[scope];
            sc.bindings.push(entry);
            proof {
                assert(self@ =~= old(self)@.update(
                    scope as int,
                    SpecScope {
                        bindings: old(self)@[scope as int].bindings.insert(entry.0@, gv@),
                        parent: old(self)@[scope as int].parent,
                    },
                ));
                assert(wf_value(gv@, n));
                assert forall|i: int| 0 <= i < self@.len() implies wf_scope(
                    #[trigger] self@[i],
                    i,
                    self@.len() as int,
                ) by {
                    assert(wf_scope(old(self)@[i], i, n));
                    if i == scope as int {
                        let newb = self@[i].bindings;
                        assert forall|key: Seq<char>| newb.dom().contains(key) implies wf_value(
                            #[trigger] newb[key],
                            n,
                        ) by {
                            if key != entry.0@ {
                                assert(old(self)@[i].bindings.dom().contains(key));
                            }
                        }
                    }
                }
            }
            Ok(())
        } else {
            let parent_opt = self.scopes[scope].parent;
            match parent_opt {
                Some(p) => {
                    proof {
                        assert(wf_scope(old(self)@[scope as int], scope as int, n));
                    }
                    self.assign(p, k, v)
                },
                None => {
                    let mut message = String::from_str("Undefined variable ");
                    message.append(k.as_str());
                    Err(LoxRuntimeException::Error(message))
                },
            }
        }
    }

    /// Reads the nearest binding of the name on the scope chain, or reports
    /// it undefined.
    pub fn get(&self, scope: usize, k: &String) -> (r: Result<Value, LoxRuntimeException>)
        requires
            scope < self@.len(),
            wf_env(self@),
        ensures
            match sp_env_get(self@, scope as int, k@) {
                Some(sv) => r matches Ok(v) && v@ == sv && wf_value(sv, self@.len() as int),
                None => r matches Err(e) && e@ == (SpecExc::Error(sp_undefined_message(k@))),
            },
        decreases scope,
    {
        let ghost n = self@.len() as int;
        match lookup(&self.scopes[scope].bindings, k) {
            Some(i) => {
                proof {
                    assert(wf_scope(self@[scope as int], scope as int, n));
                    assert(self@[scope as int].bindings.dom().contains(k@));
                }
                Ok(clone_value(&self.scopes[scope].bindings[i].1))
            },
            None => {
                let parent_opt = self.scopes[scope].parent;
                match parent_opt {
                    Some(p) => {
                        proof {
                            assert(wf_scope(self@[scope as int], scope as int, n));
                        }
                        self.get(p, k)
                    },
                    None => {
                        let mut message = String::from_str("Undefined variable ");
                        message.append(k.as_str());
                        Err(LoxRuntimeException::Error(message))
                    },
                }
            },
        }
    }
}

/// Finds the newest entry for a name, if any.
fn lookup(entries: &Vec<(String, Value)>, k: &String) -> (r: Option<usize>)
    ensures
        match r {
            Some(i) => i < entries@.len() && entries@[i as int].0@ == k@ && assoc_view(
                entries@,
            ).dom().contains(k@) && assoc_view(entries@)[k@] == entries@[i as int].1@,
            None => !assoc_view(entries@).dom().contains(k@),
        },
{
    let mut i = entries.len();
    proof {
        assert(entries@.take(entries@.len() as int) =~= entries@);
    }
    while i > 0
        invariant
            i <= entries@.len(),
            !assoc_view(entries@.take(i as int)).dom().contains(k@) ==> !assoc_view(
                entries@,
            ).dom().contains(k@),
            assoc_view(entries@.take(i as int)).dom().contains(k@) ==> assoc_view(
                entries@,
            ).dom().contains(k@) && assoc_view(entries@)[k@] == assoc_view(
                entries@.take(i as int),
            )[k@],
        decreases i,
    {
        i = i - 1;
        proof {
            assert(entries@.take(i as int + 1).drop_last() =~= entries@.take(i as int));
            assert(entries@.take(i as int + 1).last() == entries@[i as int]);
        }
        if entries[i].0.eq(k) {
            return Some(i);
        }
    }
    proof {
        assert(entries@.take(0) =~= Seq::<(String, Value)>::empty());
    }
    None
}

/// Whether a scope's own table binds the name.
fn contains_key(entries: &Vec<(String, Value)>, k: &String) -> (r: bool)
    ensures
        r == assoc_view(entries@).dom().contains(k@),
{
    lookup(entries, k).is_some()
}

} // verus!
