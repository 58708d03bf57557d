//! Scopes: each maps names to values and may name a parent scope. The
//! scopes of one interpreter live side by side in an `Interp`, where a
//! handle, the number of a scope, stands for a shared reference to it.

use crate::error::{outcome, Failure, MalError};
use crate::printer::{pr_str, print_spec};
use crate::types::{model, model_of_sequences, models, MalValue, Value};
use std::rc::Rc;
use vstd::hash_map::StringHashMap;
use vstd::prelude::*;

verus! {

/// One scope: the names defined in it, and the handle of its parent.
pub struct Env {
    parent: Option<usize>,
    data: StringHashMap<MalValue>,
}

/// The mathematical model of an `Env`.
pub struct Scope {
    pub parent: Option<nat>,
    pub data: Map<Seq<char>, Value>,
}

/// The mathematical model of an `Interp`: its scopes by handle, and the
/// lines that were printed and not yet taken.
pub struct State {
    pub scopes: Seq<Scope>,
    pub out: Seq<Seq<char>>,
}

/// The scopes of one interpreter, and the lines it has printed.
pub struct Interp {
    envs: Vec<Env>,
    out: Vec<String>,
}

/// A scope without names and without parent.
pub open spec fn root_scope() -> Scope {
    Scope { parent: None, data: Map::empty() }
}

/// A scope without names under the scope `parent`.
pub open spec fn child_scope(parent: nat) -> Scope {
    Scope { parent: Some(parent), data: Map::empty() }
}

/// The state of an interpreter that has no scope and has printed nothing.
pub open spec fn empty_state() -> State {
    State { scopes: Seq::empty(), out: Seq::empty() }
}

/// The state after `scope` was added: it gets the next free handle.
pub open spec fn add_scope_spec(s: State, scope: Scope) -> State {
    State { scopes: s.scopes.push(scope), out: s.out }
}

/// The state after `name` was bound to `value` in the scope `env` itself.
pub open spec fn define_spec(s: State, env: nat, name: Seq<char>, value: Value) -> State {
    State {
        scopes: s.scopes.update(
            env as int,
            Scope { parent: s.scopes[env as int].parent, data: s.scopes[env as int].data.insert(name, value) },
        ),
        out: s.out,
    }
}

/// The nearest scope that defines `name`, from `env` outward along the
/// parents. A parent is followed only where its handle is smaller than that
/// of its child, as it is for every scope made under an existing one.
pub open spec fn find_spec(s: State, env: nat, name: Seq<char>) -> Option<nat>
    decreases env,
{
    if env >= s.scopes.len() {
        None
    } else if s.scopes[env as int].data.contains_key(name) {
        Some(env)
    } else {
        match s.scopes[env as int].parent {
            Some(p) => if p < env {
                find_spec(s, p, name)
            } else {
                None
            },
            None => None,
        }
    }
}

/// The scope that `find_spec` names is a scope of the state, not beyond
/// `env`, and defines the name.
pub proof fn find_spec_defines(s: State, env: nat, name: Seq<char>)
    ensures
        find_spec(s, env, name) matches Some(e) ==> e <= env && e < s.scopes.len()
            && s.scopes[e as int].data.contains_key(name),
    decreases env,
{
    if env < s.scopes.len() && !s.scopes[env as int].data.contains_key(name) {
        match s.scopes[env as int].parent {
            Some(p) => {
                if p < env {
                    find_spec_defines(s, p, name);
                }
            },
            None => {},
        }
    }
}

/// The value that `name` has in the nearest scope that defines it.
pub open spec fn lookup_spec(s: State, env: nat, name: Seq<char>) -> Option<Value> {
    match find_spec(s, env, name) {
        Some(e) => Some(s.scopes[e as int].data[name]),
        None => None,
    }
}

/// The model of a table of names.
pub open spec fn data_model(m: Map<Seq<char>, MalValue>) -> Map<Seq<char>, Value> {
    Map::new(|k: Seq<char>| m.contains_key(k), |k: Seq<char>| model(m[k]))
}

impl View for Env {
    type V = Scope;

    closed spec fn view(&self) -> Scope {
        Scope {
            parent: match self.parent {
                Some(p) => Some(p as nat),
                None => None,
            },
            data: data_model(self.data@),
        }
    }
}

impl View for Interp {
    type V = State;

    closed spec fn view(&self) -> State {
        State {
            scopes: Seq::new(self.envs@.len(), |i: int| self.envs@[i]@),
            out: Seq::new(self.out@.len(), |i: int| self.out@[i]@),
        }
    }
}

impl Env {
    /// A scope without names and without parent.
    pub fn new() -> (r: Self)
        ensures
            r@ == root_scope(),
    {
        let r = Self { parent: None, data: StringHashMap::new() };
        assert(r@.data =~= Map::empty());
        r
    }

    /// A scope without names under the scope `parent`.
    pub fn new_child(parent: usize) -> (r: Self)
        ensures
            r@ == child_scope(parent as nat),
    {
        let r = Self { parent: Some(parent), data: StringHashMap::new() };
        assert(r@.data =~= Map::empty());
        r
    }
}

/// Every parent has a smaller handle than its child: the scopes are a
/// forest, and each chain of parents ends.
pub open spec fn parents_first(s: State) -> bool {
    forall|i: int|
        0 <= i < s.scopes.len() ==> ((#[trigger] s.scopes[i]).parent matches Some(p) ==> p < i)
}

impl Interp {
    #[verifier::type_invariant]
    spec fn parents_before(self) -> bool {
        forall|i: int|
            0 <= i < self.envs@.len() ==> ((#[trigger] self.envs@[i]).parent matches Some(p) ==> p
                < i)
    }

    /// An interpreter that has no scope and has printed nothing.
    pub fn new() -> (r: Self)
        ensures
            r@ == empty_state(),
    {
        let r = Self { envs: Vec::new(), out: Vec::new() };
        assert(r@.scopes =~= Seq::empty());
        assert(r@.out =~= Seq::empty());
        r
    }

    /// Adds a scope and returns its handle. The parent of the scope, where
    /// it has one, is a scope of this interpreter.
    pub fn add_scope(&mut self, env: Env) -> (handle: usize)
        requires
            env@.parent matches Some(p) ==> p < old(self)@.scopes.len(),
        ensures
            handle == old(self)@.scopes.len(),
            final(self)@ == add_scope_spec(old(self)@, env@),
    {
        proof {
            use_type_invariant(&*self);
        }
        let mut envs: Vec<Env> = Vec::new();
        std::mem::swap(&mut envs, &mut self.envs);
        let handle = envs.len();
        envs.push(env);
        std::mem::swap(&mut envs, &mut self.envs);
        proof {
            assert(self@.scopes =~= old(self)@.scopes.push(env@));
            assert(self@.out =~= old(self)@.out);
        }
        handle
    }

    /// How many scopes there are: the handles are the numbers below.
    pub fn scope_count(&self) -> (n: usize)
        ensures
            n == self@.scopes.len(),
            parents_first(self@),
    {
        proof {
            use_type_invariant(self);
        }
        self.envs.len()
    }

    /// Records one printed line.
    pub fn emit(&mut self, line: String)
        ensures
            final(self)@ == (State { scopes: old(self)@.scopes, out: old(self)@.out.push(line@) }),
    {
        proof {
            use_type_invariant(&*self);
        }
        let mut out: Vec<String> = Vec::new();
        std::mem::swap(&mut out, &mut self.out);
        out.push(line);
        std::mem::swap(&mut out, &mut self.out);
        proof {
            assert(self@.scopes =~= old(self)@.scopes);
            assert(self@.out =~= old(self)@.out.push(line@));
        }
    }

    /// Hands out the lines printed so far, oldest first, and forgets them.
    pub fn take_output(&mut self) -> (lines: Vec<String>)
        ensures
            crate::text::texts(lines@) == old(self)@.out,
            final(self)@ == (State { scopes: old(self)@.scopes, out: Seq::empty() }),
    {
        proof {
            use_type_invariant(&*self);
        }
        let mut lines: Vec<String> = Vec::new();
        std::mem::swap(&mut lines, &mut self.out);
        proof {
            assert(self@.scopes =~= old(self)@.scopes);
            assert(self@.out =~= Seq::empty());
            assert(crate::text::texts(lines@) =~= old(self)@.out);
        }
        lines
    }
}

/// Binds `sym` to `val` in the scope `env` itself, over any earlier binding
/// of that name there.
pub fn env_set_sym(interp: &mut Interp, env: usize, sym: String, val: MalValue)
    requires
        env < old(interp)@.scopes.len(),
    ensures
        final(interp)@ == define_spec(old(interp)@, env as nat, sym@, val@),
{
    proof {
        use_type_invariant(&*interp);
    }
    let mut envs: Vec<Env> = Vec::new();
    std::mem::swap(&mut envs, &mut interp.envs);
    envs[env].data.insert(sym, val);
    std::mem::swap(&mut envs, &mut interp.envs);
    proof {
        assert(interp@.out =~= old(interp)@.out);
        assert(interp.envs@[env as int]@.data =~= old(interp).envs@[env as int]@.data.insert(sym@, val@));
        assert(interp@.scopes =~= define_spec(old(interp)@, env as nat, sym@, val@).scopes);
    }
}

/// What binding the key `key` to `value` in the scope `env` does: a symbol
/// is bound under its name; any other key is refused, by its printed form.
pub open spec fn set_spec(s: State, env: nat, key: Value, value: Value) -> (State, Result<(), Failure>) {
    match key {
        Value::Sym(name) => (define_spec(s, env, name, value), Ok(())),
        other => (s, Err(Failure::TypeMismatch(print_spec(other)))),
    }
}

/// Binds the symbol `key` to `val` in the scope `env` itself.
pub fn env_set(interp: &mut Interp, env: usize, key: &MalValue, val: MalValue) -> (r: Result<
    (),
    MalError,
>)
    requires
        env < old(interp)@.scopes.len(),
    ensures
        (final(interp)@, outcome(r)) == set_spec(old(interp)@, env as nat, key@, val@),
        final(interp)@.scopes.len() == old(interp)@.scopes.len(),
{
    match key {
        MalValue::Sym(sym) => {
            env_set_sym(interp, env, sym.clone(), val);
            Ok(())
        },
        v => Err(MalError::TypeMismatch(pr_str(v))),
    }
}

/// The nearest scope that defines `sym`, from `env` outward.
pub fn env_find(interp: &Interp, env: usize, sym: &String) -> (r: Option<usize>)
    ensures
        r is Some <==> find_spec(interp@, env as nat, sym@) is Some,
        r matches Some(e) ==> find_spec(interp@, env as nat, sym@) == Some(e as nat) && e
            < interp@.scopes.len(),
{
    let mut cur: usize = env;
    loop
        invariant
            find_spec(interp@, cur as nat, sym@) == find_spec(interp@, env as nat, sym@),
        decreases cur,
    {
        if cur >= interp.envs.len() {
            return None;
        }
        if interp.envs[cur].data.contains_key(sym.as_str()) {
            return Some(cur);
        }
        match interp.envs[cur].parent {
            Some(p) => {
                if p < cur {
                    cur = p;
                } else {
                    return None;
                }
            },
            None => {
                return None;
            },
        }
    }
}

/// The value of `sym` in the nearest scope that defines it.
pub fn env_get_sym(interp: &Interp, env: usize, sym: &String) -> (r: Option<MalValue>)
    ensures
        r is Some <==> lookup_spec(interp@, env as nat, sym@) is Some,
        r matches Some(v) ==> lookup_spec(interp@, env as nat, sym@) == Some(v@),
{
    proof {
        find_spec_defines(interp@, env as nat, sym@);
    }
    match env_find(interp, env, sym) {
        Some(e) => {
            match interp.envs[e].data.get(sym.as_str()) {
                Some(v) => Some(v.clone()),
                None => None,
            }
        },
        None => None,
    }
}

/// What looking up the key `key` from the scope `env` gives: for a symbol,
/// its value where some scope defines it; any other key is refused, by its
/// printed form.
pub open spec fn get_spec(s: State, env: nat, key: Value) -> Result<Option<Value>, Failure> {
    match key {
        Value::Sym(name) => Ok(lookup_spec(s, env, name)),
        other => Err(Failure::TypeMismatch(print_spec(other))),
    }
}

/// The view of what a lookup returned.
pub open spec fn lookup_view(r: Result<Option<MalValue>, MalError>) -> Result<
    Option<Value>,
    Failure,
> {
    match r {
        Ok(Some(v)) => Ok(Some(v@)),
        Ok(None) => Ok(None),
        Err(e) => Err(e@),
    }
}

/// The value of the symbol `key` in the nearest scope that defines it.
pub fn env_get(interp: &Interp, env: usize, key: &MalValue) -> (r: Result<
    Option<MalValue>,
    MalError,
>)
    ensures
        lookup_view(r) == get_spec(interp@, env as nat, key@),
{
    match key {
        MalValue::Sym(sym) => Ok(env_get_sym(interp, env, sym)),
        v => Err(MalError::TypeMismatch(pr_str(v))),
    }
}

/// The state and the outcome after the first `i` of `params` were bound in
/// the scope `env`, and the rest are bound in turn: a parameter that is no
/// symbol stops the binding, and is refused by its printed form.
pub open spec fn bind_from(s: State, env: nat, params: Seq<Value>, args: Seq<Value>, i: nat) -> (
    State,
    Result<nat, Failure>,
)
    decreases params.len() - i,
{
    if i >= params.len() {
        (s, Ok(env))
    } else {
        match params[i as int] {
            Value::Sym(name) => bind_from(
                define_spec(s, env, name, args[i as int]),
                env,
                params,
                args,
                i + 1,
            ),
            other => (s, Err(Failure::TypeMismatch(print_spec(other)))),
        }
    }
}

/// What binding parameters to arguments does: the pattern is a list or a
/// vector, else it is refused; it has as many elements as there are
/// arguments, else the arity is wrong; then a new scope under `env` binds
/// each parameter symbol to its argument, from left to right.
pub open spec fn bind_spec(s: State, env: nat, params: Value, args: Seq<Value>) -> (
    State,
    Result<nat, Failure>,
) {
    match params {
        Value::List(p) => bind_seq_spec(s, env, params, p, args),
        Value::Vec(p) => bind_seq_spec(s, env, params, p, args),
        other => (s, Err(Failure::TypeMismatch(print_spec(other)))),
    }
}

/// `bind_spec` for the pattern `pattern` with the elements `p`.
pub open spec fn bind_seq_spec(s: State, env: nat, pattern: Value, p: Seq<Value>, args: Seq<Value>) -> (
    State,
    Result<nat, Failure>,
) {
    if p.len() != args.len() {
        (s, Err(Failure::ArityMismatch(print_spec(pattern))))
    } else {
        bind_from(add_scope_spec(s, child_scope(env)), s.scopes.len(), p, args, 0)
    }
}

/// The view of a handle or a failure.
pub open spec fn handle_view(r: Result<usize, MalError>) -> Result<nat, Failure> {
    match r {
        Ok(e) => Ok(e as nat),
        Err(e) => Err(e@),
    }
}

/// Binding in one scope never removes a scope.
pub proof fn bind_from_keeps_scopes(s: State, env: nat, params: Seq<Value>, args: Seq<Value>, i: nat)
    requires
        env < s.scopes.len(),
    ensures
        bind_from(s, env, params, args, i).0.scopes.len() == s.scopes.len(),
        bind_from(s, env, params, args, i).0.out == s.out,
        bind_from(s, env, params, args, i).1 matches Ok(e) ==> e == env,
    decreases params.len() - i,
{
    if i < params.len() {
        match params[i as int] {
            Value::Sym(name) => {
                bind_from_keeps_scopes(
                    define_spec(s, env, name, args[i as int]),
                    env,
                    params,
                    args,
                    i + 1,
                );
            },
            _ => {},
        }
    }
}

/// Binds each symbol of `bindings` to the value at its place in `exps`, in
/// the scope `env`.
fn bind_all(interp: &mut Interp, env: usize, bindings: &Vec<MalValue>, exps: &Vec<MalValue>) -> (r:
    Result<usize, MalError>)
    requires
        env < old(interp)@.scopes.len(),
        bindings.len() == exps.len(),
    ensures
        (final(interp)@, handle_view(r)) == bind_from(
            old(interp)@,
            env as nat,
            models(bindings@),
            models(exps@),
            0,
        ),
        final(interp)@.scopes.len() == old(interp)@.scopes.len(),
{
    let mut i: usize = 0;
    while i < bindings.len()
        invariant
            i <= bindings.len(),
            bindings.len() == exps.len(),
            env < interp@.scopes.len(),
            interp@.scopes.len() == old(interp)@.scopes.len(),
            bind_from(interp@, env as nat, models(bindings@), models(exps@), i as nat) == bind_from(
                old(interp)@,
                env as nat,
                models(bindings@),
                models(exps@),
                0,
            ),
        decreases bindings.len() - i,
    {
        match &bindings[i] {
            MalValue::Sym(sym) => {
                env_set_sym(interp, env, sym.clone(), exps[i].clone());
            },
            v => {
                return Err(MalError::TypeMismatch(pr_str(v)));
            },
        }
        i += 1;
    }
    Ok(env)
}

/// Makes a scope under `env` in which the symbols of `bindings` are bound,
/// one by one, to the values of `exps`.
pub fn env_bind(interp: &mut Interp, env: usize, bindings: &MalValue, exps: Rc<Vec<MalValue>>) -> (r:
    Result<usize, MalError>)
    requires
        env < old(interp)@.scopes.len(),
    ensures
        (final(interp)@, handle_view(r)) == bind_spec(
            old(interp)@,
            env as nat,
            bindings@,
            models(exps@),
        ),
        final(interp)@.scopes.len() >= old(interp)@.scopes.len(),
        final(interp)@.out == old(interp)@.out,
        r matches Ok(e) ==> e == old(interp)@.scopes.len() && e < final(interp)@.scopes.len(),
{
    proof {
        model_of_sequences(*bindings);
    }
    match bindings {
        MalValue::List(params) | MalValue::Vec(params) => {
            if params.len() != exps.len() {
                return Err(MalError::ArityMismatch(pr_str(bindings)));
            }
            let child = interp.add_scope(Env::new_child(env));
            proof {
                bind_from_keeps_scopes(interp@, child as nat, models(params@), models(exps@), 0);
            }
            bind_all(interp, child, params, &exps)
        },
        v => Err(MalError::TypeMismatch(pr_str(v))),
    }
}

} // verus!
