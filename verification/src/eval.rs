//! The evaluator: a value read as code, run against a scope.
//!
//! Evaluation is given a depth: how far evaluations may nest inside one
//! another. A program that would nest deeper fails with `DepthExceeded`;
//! atoms, symbols and the empty list need no depth at all.

use crate::base_fn::{builtin_spec, call_builtin};
use crate::env::{
    add_scope_spec, bind_spec, child_scope, env_bind, env_get_sym, env_set, handle_view,
    lookup_spec, set_spec, Env, Interp, State,
};
use crate::error::{result_view, Failure, MalError};
use crate::printer::{pr_str, print_spec};
use crate::text::same_text;
use crate::types::{
    dict_of_unique, entry_models, keys_unique, model_of_sequences, models, Dict, MalValue, Value,
};
use std::rc::Rc;
use vstd::prelude::*;
use vstd::string::StringExecFns;

verus! {

/// Whether a condition sends `if` to its second branch: `false` and `nil`
/// do, and nothing else.
pub open spec fn is_falsy(v: Value) -> bool {
    v is False || v is Nil
}

/// What evaluating `ast` in the scope `env` gives, and the state it leaves,
/// when evaluations may nest `fuel` deep.
///
/// A list that is not empty is code: a special form where its first element
/// is the symbol `def!`, `let*`, `do`, `if` or `fn*`, else a call. The empty
/// list and every other value are data.
pub open spec fn eval_spec(s: State, env: nat, ast: Value, fuel: nat) -> (
    State,
    Result<Value, Failure>,
)
    decreases fuel, 3nat, 0nat,
{
    match ast {
        Value::List(items) => {
            if items.len() == 0 {
                (s, Ok(ast))
            } else if fuel == 0 {
                (s, Err(Failure::DepthExceeded))
            } else {
                match items[0] {
                    Value::Sym(name) => {
                        if name == "def!"@ {
                            def_spec(s, env, items.skip(1), fuel)
                        } else if name == "let*"@ {
                            let_spec(s, env, items.skip(1), fuel)
                        } else if name == "do"@ {
                            do_spec(s, env, items.skip(1), fuel)
                        } else if name == "if"@ {
                            if_spec(s, env, items.skip(1), fuel)
                        } else if name == "fn*"@ {
                            fn_spec(s, env, items.skip(1))
                        } else {
                            call_spec(s, env, items, fuel)
                        }
                    },
                    _ => call_spec(s, env, items, fuel),
                }
            }
        },
        _ => eval_ast_spec(s, env, ast, fuel),
    }
}

/// What evaluating `ast` as data gives: a symbol stands for its value in
/// the nearest scope that defines it; a list, a vector and a dictionary are
/// rebuilt from their evaluated elements; any other value is itself.
pub open spec fn eval_ast_spec(s: State, env: nat, ast: Value, fuel: nat) -> (
    State,
    Result<Value, Failure>,
)
    decreases fuel, 2nat, 0nat,
{
    match ast {
        Value::Sym(name) => match lookup_spec(s, env, name) {
            Some(v) => (s, Ok(v)),
            None => (s, Err(Failure::SymbolNotFound(name))),
        },
        Value::List(items) => if fuel == 0 {
            (s, Err(Failure::DepthExceeded))
        } else {
            let (s1, r1) = eval_seq_spec(s, env, items, (fuel - 1) as nat);
            match r1 {
                Ok(vals) => (s1, Ok(Value::List(vals))),
                Err(e) => (s1, Err(e)),
            }
        },
        Value::Vec(items) => if fuel == 0 {
            (s, Err(Failure::DepthExceeded))
        } else {
            let (s1, r1) = eval_seq_spec(s, env, items, (fuel - 1) as nat);
            match r1 {
                Ok(vals) => (s1, Ok(Value::Vec(vals))),
                Err(e) => (s1, Err(e)),
            }
        },
        Value::Dict(entries) => if fuel == 0 {
            (s, Err(Failure::DepthExceeded))
        } else {
            let (s1, r1) = eval_entries_spec(s, env, entries, (fuel - 1) as nat);
            match r1 {
                Ok(vals) => (s1, Ok(Value::Dict(vals))),
                Err(e) => (s1, Err(e)),
            }
        },
        other => (s, Ok(other)),
    }
}

/// The values of `items`, evaluated from left to right, each in the state
/// that the one before left; the first failure ends it.
pub open spec fn eval_seq_spec(s: State, env: nat, items: Seq<Value>, fuel: nat) -> (
    State,
    Result<Seq<Value>, Failure>,
)
    decreases fuel, 4nat, items.len(),
{
    if items.len() == 0 {
        (s, Ok(Seq::empty()))
    } else {
        let (s1, r1) = eval_seq_spec(s, env, items.drop_last(), fuel);
        match r1 {
            Err(e) => (s1, Err(e)),
            Ok(vals) => {
                let (s2, r2) = eval_spec(s1, env, items.last(), fuel);
                match r2 {
                    Ok(v) => (s2, Ok(vals.push(v))),
                    Err(e) => (s2, Err(e)),
                }
            },
        }
    }
}

/// The entries of a dictionary with their values evaluated, in the order of
/// the entries; the first failure ends it.
pub open spec fn eval_entries_spec(
    s: State,
    env: nat,
    entries: Seq<(Seq<char>, Value)>,
    fuel: nat,
) -> (State, Result<Seq<(Seq<char>, Value)>, Failure>)
    decreases fuel, 4nat, entries.len(),
{
    if entries.len() == 0 {
        (s, Ok(Seq::empty()))
    } else {
        let (s1, r1) = eval_entries_spec(s, env, entries.drop_last(), fuel);
        match r1 {
            Err(e) => (s1, Err(e)),
            Ok(vals) => {
                let (s2, r2) = eval_spec(s1, env, entries.last().1, fuel);
                match r2 {
                    Ok(v) => (s2, Ok(vals.push((entries.last().0, v)))),
                    Err(e) => (s2, Err(e)),
                }
            },
        }
    }
}

/// `(def! sym expr)`, given its two operands: the value of `expr` is bound
/// to `sym` in the scope `env` itself, and is the result.
pub open spec fn def_spec(s: State, env: nat, tail: Seq<Value>, fuel: nat) -> (
    State,
    Result<Value, Failure>,
)
    decreases fuel, 2nat, 0nat,
{
    if tail.len() != 2 {
        (s, Err(Failure::ArityMismatch("def!"@)))
    } else if fuel == 0 {
        (s, Err(Failure::DepthExceeded))
    } else {
        let (s1, r1) = eval_spec(s, env, tail[1], (fuel - 1) as nat);
        match r1 {
            Err(e) => (s1, Err(e)),
            Ok(v) => {
                let (s2, r2) = set_spec(s1, env, tail[0], v);
                match r2 {
                    Ok(_) => (s2, Ok(v)),
                    Err(e) => (s2, Err(e)),
                }
            },
        }
    }
}

/// The first `k` pairs of `bindings`, a symbol and an expression each,
/// bound in the scope `env` from left to right: each expression is
/// evaluated in `env` as the pairs before it left it.
pub open spec fn let_pairs_spec(s: State, env: nat, bindings: Seq<Value>, k: nat, fuel: nat) -> (
    State,
    Result<(), Failure>,
)
    decreases fuel, 4nat, k,
{
    if k == 0 {
        (s, Ok(()))
    } else {
        let (s1, r1) = let_pairs_spec(s, env, bindings, (k - 1) as nat, fuel);
        match r1 {
            Err(e) => (s1, Err(e)),
            Ok(_) => {
                let (s2, r2) = eval_spec(s1, env, bindings[2 * k - 1], fuel);
                match r2 {
                    Err(e) => (s2, Err(e)),
                    Ok(v) => set_spec(s2, env, bindings[2 * k - 2], v),
                }
            },
        }
    }
}

/// The scope that `let*` evaluates its body in: a new scope under `env`
/// that holds the bindings of `bindings`, a list or a vector of pairs.
pub open spec fn let_binding_spec(s: State, env: nat, bindings: Value, fuel: nat) -> (
    State,
    Result<nat, Failure>,
)
    decreases fuel, 2nat, 0nat,
{
    match bindings {
        Value::List(b) => let_seq_spec(s, env, bindings, b, fuel),
        Value::Vec(b) => let_seq_spec(s, env, bindings, b, fuel),
        other => (s, Err(Failure::TypeMismatch(print_spec(other)))),
    }
}

/// `let_binding_spec` for the bindings `bindings` with the elements `b`.
pub open spec fn let_seq_spec(s: State, env: nat, bindings: Value, b: Seq<Value>, fuel: nat) -> (
    State,
    Result<nat, Failure>,
)
    decreases fuel, 1nat, 0nat,
{
    if b.len() % 2 != 0 {
        (s, Err(Failure::ArityMismatch(print_spec(bindings))))
    } else if fuel == 0 {
        (s, Err(Failure::DepthExceeded))
    } else {
        let (s1, r1) = let_pairs_spec(
            add_scope_spec(s, child_scope(env)),
            s.scopes.len(),
            b,
            b.len() / 2,
            (fuel - 1) as nat,
        );
        match r1 {
            Ok(_) => (s1, Ok(s.scopes.len())),
            Err(e) => (s1, Err(e)),
        }
    }
}

/// `(let* bindings body)`, given its two operands: `body` evaluated in the
/// scope that the bindings make.
pub open spec fn let_spec(s: State, env: nat, tail: Seq<Value>, fuel: nat) -> (
    State,
    Result<Value, Failure>,
)
    decreases fuel, 2nat, 1nat,
{
    if tail.len() != 2 {
        (s, Err(Failure::ArityMismatch("let*"@)))
    } else if fuel == 0 {
        (s, Err(Failure::DepthExceeded))
    } else {
        let (s1, r1) = let_binding_spec(s, env, tail[0], fuel);
        match r1 {
            Err(e) => (s1, Err(e)),
            Ok(scope) => eval_spec(s1, scope, tail[1], (fuel - 1) as nat),
        }
    }
}

/// `(do expr...)`, given its operands: each evaluated in order; the value
/// of the last, or `nil` where there is none.
pub open spec fn do_spec(s: State, env: nat, tail: Seq<Value>, fuel: nat) -> (
    State,
    Result<Value, Failure>,
)
    decreases fuel, 2nat, 0nat,
{
    if fuel == 0 {
        (s, Err(Failure::DepthExceeded))
    } else {
        let (s1, r1) = eval_seq_spec(s, env, tail, (fuel - 1) as nat);
        match r1 {
            Err(e) => (s1, Err(e)),
            Ok(vals) => if vals.len() == 0 {
                (s1, Ok(Value::Nil))
            } else {
                (s1, Ok(vals.last()))
            },
        }
    }
}

/// `(if cond then [else])`, given its two or three operands: where `cond`
/// is `false` or `nil`, the value of `else`, or `nil` without one;
/// otherwise the value of `then`.
pub open spec fn if_spec(s: State, env: nat, tail: Seq<Value>, fuel: nat) -> (
    State,
    Result<Value, Failure>,
)
    decreases fuel, 2nat, 0nat,
{
    if tail.len() != 2 && tail.len() != 3 {
        (s, Err(Failure::ArityMismatch("if"@)))
    } else if fuel == 0 {
        (s, Err(Failure::DepthExceeded))
    } else {
        let (s1, r1) = eval_spec(s, env, tail[0], (fuel - 1) as nat);
        match r1 {
            Err(e) => (s1, Err(e)),
            Ok(c) => if is_falsy(c) {
                if tail.len() == 3 {
                    eval_spec(s1, env, tail[2], (fuel - 1) as nat)
                } else {
                    (s1, Ok(Value::Nil))
                }
            } else {
                eval_spec(s1, env, tail[1], (fuel - 1) as nat)
            },
        }
    }
}

/// `(fn* params body)`, given its two operands: a closure over the scope
/// `env` with the pattern and the body as they stand.
pub open spec fn fn_spec(s: State, env: nat, tail: Seq<Value>) -> (State, Result<Value, Failure>) {
    if tail.len() != 2 {
        (s, Err(Failure::ArityMismatch("fn*"@)))
    } else {
        (s, Ok(Value::Closure { env, params: Box::new(tail[0]), body: Box::new(tail[1]) }))
    }
}

/// A call: every element of the list is evaluated from left to right, then
/// the first value is applied to the others. Nothing can be called where
/// there is no element.
pub open spec fn call_spec(s: State, env: nat, items: Seq<Value>, fuel: nat) -> (
    State,
    Result<Value, Failure>,
)
    decreases fuel, 2nat, 0nat,
{
    if items.len() == 0 {
        (s, Err(Failure::NotCallable(print_spec(Value::List(items)))))
    } else if fuel == 0 {
        (s, Err(Failure::DepthExceeded))
    } else {
        let (s1, r1) = eval_seq_spec(s, env, items, (fuel - 1) as nat);
        match r1 {
            Err(e) => (s1, Err(e)),
            Ok(vals) => apply_spec(s1, vals[0], vals.skip(1), fuel),
        }
    }
}

/// What applying `f` to `args` gives: a host operation is run on them; a
/// closure evaluates its body in a new scope, under the scope it was made
/// in, that binds its parameters to them; any other value is not callable,
/// nor is a closure over a scope that the state does not have.
pub open spec fn apply_spec(s: State, f: Value, args: Seq<Value>, fuel: nat) -> (
    State,
    Result<Value, Failure>,
)
    decreases fuel, 1nat, 0nat,
{
    match f {
        Value::Function(b) => builtin_spec(s, b, args),
        Value::Closure { env, params, body } => {
            if env >= s.scopes.len() {
                (s, Err(Failure::NotCallable(print_spec(f))))
            } else if fuel == 0 {
                (s, Err(Failure::DepthExceeded))
            } else {
                let (s1, r1) = bind_spec(s, env, *params, args);
                match r1 {
                    Err(e) => (s1, Err(e)),
                    Ok(scope) => eval_spec(s1, scope, *body, (fuel - 1) as nat),
                }
            }
        },
        other => (s, Err(Failure::NotCallable(print_spec(other)))),
    }
}

/// A failure among the first `k` of `items` is the outcome for all of them.
pub proof fn eval_seq_stops(s: State, env: nat, items: Seq<Value>, k: int, fuel: nat)
    requires
        0 <= k <= items.len(),
        eval_seq_spec(s, env, items.take(k), fuel).1 is Err,
    ensures
        eval_seq_spec(s, env, items, fuel) == eval_seq_spec(s, env, items.take(k), fuel),
    decreases items.len(),
{
    if k == items.len() {
        assert(items.take(k) =~= items);
    } else {
        assert(items.drop_last().take(k) =~= items.take(k));
        eval_seq_stops(s, env, items.drop_last(), k, fuel);
    }
}

/// A failure among the first `k` of `entries` is the outcome for all of
/// them.
pub proof fn eval_entries_stops(
    s: State,
    env: nat,
    entries: Seq<(Seq<char>, Value)>,
    k: int,
    fuel: nat,
)
    requires
        0 <= k <= entries.len(),
        eval_entries_spec(s, env, entries.take(k), fuel).1 is Err,
    ensures
        eval_entries_spec(s, env, entries, fuel) == eval_entries_spec(s, env, entries.take(k), fuel),
    decreases entries.len(),
{
    if k == entries.len() {
        assert(entries.take(k) =~= entries);
    } else {
        assert(entries.drop_last().take(k) =~= entries.take(k));
        eval_entries_stops(s, env, entries.drop_last(), k, fuel);
    }
}

/// A failure among the first `k` pairs is the outcome for any `n` pairs
/// from `k` on.
pub proof fn let_pairs_stops(s: State, env: nat, bindings: Seq<Value>, k: nat, n: nat, fuel: nat)
    requires
        k <= n,
        let_pairs_spec(s, env, bindings, k, fuel).1 is Err,
    ensures
        let_pairs_spec(s, env, bindings, n, fuel) == let_pairs_spec(s, env, bindings, k, fuel),
    decreases n,
{
    if k < n {
        let_pairs_stops(s, env, bindings, k, (n - 1) as nat, fuel);
    }
}

/// The models of a sequence of values, or of the failure in its place.
pub open spec fn seq_view(r: Result<Vec<MalValue>, MalError>) -> Result<Seq<Value>, Failure> {
    match r {
        Ok(v) => Ok(models(v@)),
        Err(e) => Err(e@),
    }
}

/// The models of a sequence of entries, or of the failure in its place.
pub open spec fn entries_view(r: Result<Vec<(String, MalValue)>, MalError>) -> Result<
    Seq<(Seq<char>, Value)>,
    Failure,
> {
    match r {
        Ok(v) => Ok(entry_models(v@)),
        Err(e) => Err(e@),
    }
}

/// Evaluates `items[from..]` from left to right.
fn eval_each(interp: &mut Interp, env: usize, items: &Vec<MalValue>, from: usize, depth: usize) -> (r:
    Result<Vec<MalValue>, MalError>)
    requires
        env < old(interp)@.scopes.len(),
        from <= items.len(),
    ensures
        (final(interp)@, seq_view(r)) == eval_seq_spec(
            old(interp)@,
            env as nat,
            models(items@).skip(from as int),
            depth as nat,
        ),
        final(interp)@.scopes.len() >= old(interp)@.scopes.len(),
    decreases depth, 4nat, 0nat,
{
    let ghost all = models(items@).skip(from as int);
    let mut vals: Vec<MalValue> = Vec::new();
    let mut i: usize = from;
    proof {
        assert(models(vals@) =~= Seq::<Value>::empty());
    }
    while i < items.len()
        invariant
            from <= i <= items.len(),
            vals.len() == i - from,
            all == models(items@).skip(from as int),
            env < interp@.scopes.len(),
            interp@.scopes.len() >= old(interp)@.scopes.len(),
            eval_seq_spec(old(interp)@, env as nat, all.take(i - from), depth as nat) == (
                interp@,
                Ok::<Seq<Value>, Failure>(models(vals@)),
            ),
        decreases items.len() - i,
    {
        let ghost before = models(vals@);
        let r = eval(interp, env, &items[i], depth);
        proof {
            let prefix = all.take(i - from + 1);
            assert(prefix.drop_last() =~= all.take(i - from));
            assert(prefix.last() == items@[i as int]@);
        }
        match r {
            Ok(v) => {
                vals.push(v);
                proof {
                    assert(models(vals@) =~= before.push(v@));
                }
            },
            Err(e) => {
                proof {
                    eval_seq_stops(old(interp)@, env as nat, all, i - from + 1, depth as nat);
                }
                return Err(e);
            },
        }
        i += 1;
    }
    proof {
        assert(all.take(items.len() - from) =~= all);
    }
    Ok(vals)
}

/// Evaluates the values of `entries` in their order; each keeps its key.
fn eval_entries(interp: &mut Interp, env: usize, entries: &Vec<(String, MalValue)>, depth: usize) -> (r:
    Result<Vec<(String, MalValue)>, MalError>)
    requires
        env < old(interp)@.scopes.len(),
    ensures
        (final(interp)@, entries_view(r)) == eval_entries_spec(
            old(interp)@,
            env as nat,
            entry_models(entries@),
            depth as nat,
        ),
        final(interp)@.scopes.len() >= old(interp)@.scopes.len(),
    decreases depth, 4nat, 0nat,
{
    let ghost all = entry_models(entries@);
    let mut vals: Vec<(String, MalValue)> = Vec::new();
    let mut i: usize = 0;
    proof {
        assert(entry_models(vals@) =~= Seq::<(Seq<char>, Value)>::empty());
    }
    while i < entries.len()
        invariant
            i <= entries.len(),
            vals.len() == i,
            all == entry_models(entries@),
            env < interp@.scopes.len(),
            interp@.scopes.len() >= old(interp)@.scopes.len(),
            eval_entries_spec(old(interp)@, env as nat, all.take(i as int), depth as nat) == (
                interp@,
                Ok::<Seq<(Seq<char>, Value)>, Failure>(entry_models(vals@)),
            ),
        decreases entries.len() - i,
    {
        let ghost before = entry_models(vals@);
        let r = eval(interp, env, &entries[i].1, depth);
        proof {
            let prefix = all.take(i + 1);
            assert(prefix.drop_last() =~= all.take(i as int));
            assert(prefix.last() == (entries@[i as int].0@, entries@[i as int].1@));
        }
        match r {
            Ok(v) => {
                let ghost vv = v@;
                vals.push((entries[i].0.clone(), v));
                proof {
                    assert(entry_models(vals@) =~= before.push((entries@[i as int].0@, vv)));
                }
            },
            Err(e) => {
                proof {
                    eval_entries_stops(old(interp)@, env as nat, all, i + 1, depth as nat);
                }
                return Err(e);
            },
        }
        i += 1;
    }
    proof {
        assert(all.take(entries.len() as int) =~= all);
    }
    Ok(vals)
}

/// Evaluates `ast` as data in the scope `env`.
pub fn eval_ast(interp: &mut Interp, env: usize, ast: &MalValue, depth: usize) -> (r: Result<
    MalValue,
    MalError,
>)
    requires
        env < old(interp)@.scopes.len(),
    ensures
        (final(interp)@, result_view(r)) == eval_ast_spec(
            old(interp)@,
            env as nat,
            ast@,
            depth as nat,
        ),
        final(interp)@.scopes.len() >= old(interp)@.scopes.len(),
    decreases depth, 2nat, 0nat,
{
    proof {
        model_of_sequences(*ast);
    }
    match ast {
        MalValue::Sym(s) => {
            match env_get_sym(interp, env, s) {
                Some(v) => Ok(v),
                None => Err(MalError::SymbolNotFound(s.clone())),
            }
        },
        MalValue::List(list) => {
            if depth == 0 {
                return Err(MalError::DepthExceeded);
            }
            match eval_each(interp, env, list, 0, depth - 1) {
                Ok(vals) => {
                    let r = MalValue::List(Rc::new(vals));
                    proof {
                        model_of_sequences(r);
                        assert(models(list@).skip(0) =~= models(list@));
                    }
                    Ok(r)
                },
                Err(e) => {
                    proof {
                        assert(models(list@).skip(0) =~= models(list@));
                    }
                    Err(e)
                },
            }
        },
        MalValue::Vec(list) => {
            if depth == 0 {
                return Err(MalError::DepthExceeded);
            }
            match eval_each(interp, env, list, 0, depth - 1) {
                Ok(vals) => {
                    let r = MalValue::Vec(Rc::new(vals));
                    proof {
                        model_of_sequences(r);
                        assert(models(list@).skip(0) =~= models(list@));
                    }
                    Ok(r)
                },
                Err(e) => {
                    proof {
                        assert(models(list@).skip(0) =~= models(list@));
                    }
                    Err(e)
                },
            }
        },
        MalValue::Dict(map) => {
            if depth == 0 {
                return Err(MalError::DepthExceeded);
            }
            match eval_entries(interp, env, map.entries(), depth - 1) {
                Ok(vals) => {
                    proof {
                        eval_entries_keys(
                            old(interp)@,
                            env as nat,
                            map.model(),
                            (depth - 1) as nat,
                        );
                        dict_of_unique(entry_models(vals@));
                    }
                    Ok(MalValue::Dict(Rc::new(Dict::from_pairs(vals))))
                },
                Err(e) => Err(e),
            }
        },
        v => Ok(v.clone()),
    }
}

/// `(def! sym expr)`: `list` is the whole form.
fn eval_def(interp: &mut Interp, env: usize, list: &Vec<MalValue>, depth: usize) -> (r: Result<
    MalValue,
    MalError,
>)
    requires
        env < old(interp)@.scopes.len(),
        list.len() >= 1,
        depth > 0,
    ensures
        (final(interp)@, result_view(r)) == def_spec(
            old(interp)@,
            env as nat,
            models(list@).skip(1),
            depth as nat,
        ),
        final(interp)@.scopes.len() >= old(interp)@.scopes.len(),
    decreases depth, 2nat, 0nat,
{
    if list.len() != 3 {
        return Err(MalError::ArityMismatch(String::from_str("def!")));
    }
    match eval(interp, env, &list[2], depth - 1) {
        Ok(val) => {
            match env_set(interp, env, &list[1], val.clone()) {
                Ok(_) => Ok(val),
                Err(e) => Err(e),
            }
        },
        Err(e) => Err(e),
    }
}

/// Makes the scope of a `let*`: a new scope under `env` in which each
/// symbol of `bindings` is bound to the value of the expression after it.
pub fn let_binding(interp: &mut Interp, env: usize, bindings: &MalValue, depth: usize) -> (r: Result<
    usize,
    MalError,
>)
    requires
        env < old(interp)@.scopes.len(),
    ensures
        (final(interp)@, handle_view(r)) == let_binding_spec(
            old(interp)@,
            env as nat,
            bindings@,
            depth as nat,
        ),
        final(interp)@.scopes.len() >= old(interp)@.scopes.len(),
        r matches Ok(e) ==> e < final(interp)@.scopes.len(),
    decreases depth, 2nat, 0nat,
{
    proof {
        model_of_sequences(*bindings);
    }
    match bindings {
        MalValue::List(b) | MalValue::Vec(b) => {
            if b.len() % 2 != 0 {
                return Err(MalError::ArityMismatch(pr_str(bindings)));
            }
            if depth == 0 {
                return Err(MalError::DepthExceeded);
            }
            let scope = interp.add_scope(Env::new_child(env));
            let ghost start = interp@;
            let pairs = crate::outside::tuples(b);
            let mut k: usize = 0;
            while k < pairs.len()
                invariant
                    k <= pairs.len(),
                    pairs.len() == b.len() / 2,
                    b.len() % 2 == 0,
                    depth > 0,
                    forall|i: int|
                        0 <= i < pairs@.len() ==> *(#[trigger] pairs@[i]).0 == b@[2 * i]
                            && *pairs@[i].1 == b@[2 * i + 1],
                    scope < interp@.scopes.len(),
                    interp@.scopes.len() >= start.scopes.len(),
                    scope == old(interp)@.scopes.len(),
                    start == add_scope_spec(old(interp)@, child_scope(env as nat)),
                    bindings@ == Value::List(models(b@)) || bindings@ == Value::Vec(models(b@)),
                    let_pairs_spec(start, scope as nat, models(b@), k as nat, (depth - 1) as nat)
                        == (interp@, Ok::<(), Failure>(())),
                decreases pairs.len() - k,
            {
                let pair = pairs[k];
                proof {
                    assert(*pairs@[k as int].0 == b@[2 * k]);
                    assert(models(b@)[2 * (k + 1) - 1] == pair.1@);
                    assert(models(b@)[2 * (k + 1) - 2] == pair.0@);
                }
                match eval(interp, scope, pair.1, depth - 1) {
                    Ok(val) => {
                        match env_set(interp, scope, pair.0, val) {
                            Ok(_) => {},
                            Err(e) => {
                                proof {
                                    let_pairs_stops(
                                        start,
                                        scope as nat,
                                        models(b@),
                                        (k + 1) as nat,
                                        pairs.len() as nat,
                                        (depth - 1) as nat,
                                    );
                                }
                                return Err(e);
                            },
                        }
                    },
                    Err(e) => {
                        proof {
                            let_pairs_stops(
                                start,
                                scope as nat,
                                models(b@),
                                (k + 1) as nat,
                                pairs.len() as nat,
                                (depth - 1) as nat,
                            );
                        }
                        return Err(e);
                    },
                }
                k += 1;
            }
            Ok(scope)
        },
        v => Err(MalError::TypeMismatch(pr_str(v))),
    }
}

/// `(let* bindings body)`: `list` is the whole form.
fn eval_let(interp: &mut Interp, env: usize, list: &Vec<MalValue>, depth: usize) -> (r: Result<
    MalValue,
    MalError,
>)
    requires
        env < old(interp)@.scopes.len(),
        list.len() >= 1,
        depth > 0,
    ensures
        (final(interp)@, result_view(r)) == let_spec(
            old(interp)@,
            env as nat,
            models(list@).skip(1),
            depth as nat,
        ),
        final(interp)@.scopes.len() >= old(interp)@.scopes.len(),
    decreases depth, 2nat, 1nat,
{
    if list.len() != 3 {
        return Err(MalError::ArityMismatch(String::from_str("let*")));
    }
    match let_binding(interp, env, &list[1], depth) {
        Ok(scope) => eval(interp, scope, &list[2], depth - 1),
        Err(e) => Err(e),
    }
}

/// `(do expr...)`: `list` is the whole form.
fn eval_do(interp: &mut Interp, env: usize, list: &Vec<MalValue>, depth: usize) -> (r: Result<
    MalValue,
    MalError,
>)
    requires
        env < old(interp)@.scopes.len(),
        list.len() >= 1,
        depth > 0,
    ensures
        (final(interp)@, result_view(r)) == do_spec(
            old(interp)@,
            env as nat,
            models(list@).skip(1),
            depth as nat,
        ),
        final(interp)@.scopes.len() >= old(interp)@.scopes.len(),
    decreases depth, 2nat, 0nat,
{
    match eval_each(interp, env, list, 1, depth - 1) {
        Ok(mut vals) => {
            match vals.pop() {
                Some(last) => Ok(last),
                None => Ok(MalValue::Nil),
            }
        },
        Err(e) => Err(e),
    }
}

/// `(if cond then [else])`: `list` is the whole form.
fn eval_if(interp: &mut Interp, env: usize, list: &Vec<MalValue>, depth: usize) -> (r: Result<
    MalValue,
    MalError,
>)
    requires
        env < old(interp)@.scopes.len(),
        list.len() >= 1,
        depth > 0,
    ensures
        (final(interp)@, result_view(r)) == if_spec(
            old(interp)@,
            env as nat,
            models(list@).skip(1),
            depth as nat,
        ),
        final(interp)@.scopes.len() >= old(interp)@.scopes.len(),
    decreases depth, 2nat, 0nat,
{
    if list.len() != 3 && list.len() != 4 {
        return Err(MalError::ArityMismatch(String::from_str("if")));
    }
    match eval(interp, env, &list[1], depth - 1) {
        Ok(cond) => {
            let falsy = match cond {
                MalValue::False => true,
                MalValue::Nil => true,
                _ => false,
            };
            if falsy {
                if list.len() == 4 {
                    eval(interp, env, &list[3], depth - 1)
                } else {
                    Ok(MalValue::Nil)
                }
            } else {
                eval(interp, env, &list[2], depth - 1)
            }
        },
        Err(e) => Err(e),
    }
}

/// `(fn* params body)`: `list` is the whole form.
fn eval_fn(env: usize, list: &Vec<MalValue>) -> (r: Result<MalValue, MalError>)
    requires
        list.len() >= 1,
    ensures
        forall|s: State| (s, result_view(r)) == fn_spec(s, env as nat, models(list@).skip(1)),
{
    if list.len() != 3 {
        return Err(MalError::ArityMismatch(String::from_str("fn*")));
    }
    Ok(
        MalValue::Closure {
            env,
            params: Rc::new(list[1].clone()),
            ast: Rc::new(list[2].clone()),
        },
    )
}

/// All of `vals` but the first.
fn rest_of(vals: &Vec<MalValue>) -> (r: Vec<MalValue>)
    requires
        vals.len() >= 1,
    ensures
        models(r@) == models(vals@).skip(1),
{
    let mut r: Vec<MalValue> = Vec::new();
    let mut i: usize = 1;
    while i < vals.len()
        invariant
            1 <= i <= vals.len(),
            r.len() == i - 1,
            forall|k: int| 0 <= k < i - 1 ==> #[trigger] r@[k] == vals@[k + 1],
        decreases vals.len() - i,
    {
        r.push(vals[i].clone());
        i += 1;
    }
    proof {
        assert(models(r@) =~= models(vals@).skip(1));
    }
    r
}

/// A call: `list` is the whole form.
fn eval_call(interp: &mut Interp, env: usize, list: &Vec<MalValue>, depth: usize) -> (r: Result<
    MalValue,
    MalError,
>)
    requires
        env < old(interp)@.scopes.len(),
        list.len() >= 1,
        depth > 0,
    ensures
        (final(interp)@, result_view(r)) == call_spec(
            old(interp)@,
            env as nat,
            models(list@),
            depth as nat,
        ),
        final(interp)@.scopes.len() >= old(interp)@.scopes.len(),
    decreases depth, 2nat, 0nat,
{
    proof {
        assert(models(list@).skip(0) =~= models(list@));
    }
    match eval_each(interp, env, list, 0, depth - 1) {
        Ok(vals) => {
            proof {
                eval_seq_length(old(interp)@, env as nat, models(list@), (depth - 1) as nat);
            }
            let args = rest_of(&vals);
            vals[0].apply(interp, Rc::new(args), depth)
        },
        Err(e) => Err(e),
    }
}

/// Where every value of a dictionary evaluates, the entries keep their keys
/// and their places.
pub proof fn eval_entries_keys(s: State, env: nat, entries: Seq<(Seq<char>, Value)>, fuel: nat)
    ensures
        eval_entries_spec(s, env, entries, fuel).1 matches Ok(vals) ==> vals.len() == entries.len()
            && (forall|i: int| 0 <= i < vals.len() ==> (#[trigger] vals[i]).0 == entries[i].0)
            && (keys_unique(entries) ==> keys_unique(vals)),
    decreases entries.len(),
{
    if entries.len() > 0 {
        eval_entries_keys(s, env, entries.drop_last(), fuel);
        match eval_entries_spec(s, env, entries, fuel).1 {
            Ok(vals) => {
                if keys_unique(entries) {
                    assert forall|i: int, j: int| 0 <= i < j < vals.len() implies (
                    #[trigger] vals[i]).0 != (#[trigger] vals[j]).0 by {
                        assert(vals[i].0 == entries[i].0);
                        assert(vals[j].0 == entries[j].0);
                    }
                }
            },
            Err(_) => {},
        }
    }
}

/// Where every element evaluates, there are as many values as elements.
pub proof fn eval_seq_length(s: State, env: nat, items: Seq<Value>, fuel: nat)
    ensures
        eval_seq_spec(s, env, items, fuel).1 matches Ok(vals) ==> vals.len() == items.len(),
    decreases items.len(),
{
    if items.len() > 0 {
        eval_seq_length(s, env, items.drop_last(), fuel);
    }
}

impl MalValue {
    /// Applies this value, as a function, to `args`.
    pub fn apply(&self, interp: &mut Interp, args: Rc<Vec<MalValue>>, depth: usize) -> (r: Result<
        MalValue,
        MalError,
    >)
        ensures
            (final(interp)@, result_view(r)) == apply_spec(
                old(interp)@,
                self@,
                models(args@),
                depth as nat,
            ),
            final(interp)@.scopes.len() >= old(interp)@.scopes.len(),
        decreases depth, 1nat, 0nat,
    {
        match self {
            MalValue::Function(f) => call_builtin(interp, *f, &args),
            MalValue::Closure { env, ast, params } => {
                if *env >= interp.scope_count() {
                    return Err(MalError::NotCallable(pr_str(self)));
                }
                if depth == 0 {
                    return Err(MalError::DepthExceeded);
                }
                match env_bind(interp, *env, params, args) {
                    Ok(scope) => eval(interp, scope, ast, depth - 1),
                    Err(e) => Err(e),
                }
            },
            v => Err(MalError::NotCallable(pr_str(v))),
        }
    }
}

/// Evaluates `ast` in the scope `env`, nesting at most `depth` deep.
pub fn eval(interp: &mut Interp, env: usize, ast: &MalValue, depth: usize) -> (r: Result<
    MalValue,
    MalError,
>)
    requires
        env < old(interp)@.scopes.len(),
    ensures
        (final(interp)@, result_view(r)) == eval_spec(
            old(interp)@,
            env as nat,
            ast@,
            depth as nat,
        ),
        final(interp)@.scopes.len() >= old(interp)@.scopes.len(),
    decreases depth, 3nat, 0nat,
{
    proof {
        model_of_sequences(*ast);
    }
    match ast {
        MalValue::List(list) => {
            if list.len() == 0 {
                return Ok(ast.clone());
            }
            if depth == 0 {
                return Err(MalError::DepthExceeded);
            }
            match &list[0] {
                MalValue::Sym(sym) => {
                    if same_text(sym.as_str(), "def!") {
                        eval_def(interp, env, list, depth)
                    } else if same_text(sym.as_str(), "let*") {
                        eval_let(interp, env, list, depth)
                    } else if same_text(sym.as_str(), "do") {
                        eval_do(interp, env, list, depth)
                    } else if same_text(sym.as_str(), "if") {
                        eval_if(interp, env, list, depth)
                    } else if same_text(sym.as_str(), "fn*") {
                        eval_fn(env, list)
                    } else {
                        eval_call(interp, env, list, depth)
                    }
                },
                _ => eval_call(interp, env, list, depth),
            }
        },
        v => eval_ast(interp, env, v, depth),
    }
}

} // verus!
