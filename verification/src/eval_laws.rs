//! What holds of every evaluation: it only adds to the state, and a depth
//! that suffices once suffices when raised.

use crate::env::{
    add_scope_spec, bind_from, bind_spec, child_scope, define_spec, lookup_spec, set_spec, State,
};
use crate::error::Failure;
use crate::eval::{
    apply_spec, call_spec, def_spec, do_spec, eval_ast_spec, eval_entries_spec, eval_seq_spec,
    eval_spec, if_spec, let_binding_spec, let_pairs_spec, let_seq_spec, let_spec,
};
use crate::types::Value;
use vstd::prelude::*;

verus! {

/// `b` is `a` with more: every scope of `a` is in `b` under its handle,
/// with its parent; every line of `a` is in `b` at its place.
pub open spec fn extends(a: State, b: State) -> bool {
    &&& a.scopes.len() <= b.scopes.len()
    &&& forall|i: int|
        0 <= i < a.scopes.len() ==> (#[trigger] b.scopes[i]).parent == a.scopes[i].parent
    &&& a.out.len() <= b.out.len()
    &&& forall|i: int| 0 <= i < a.out.len() ==> #[trigger] b.out[i] == a.out[i]
}

/// What extends an extension of a state extends the state.
pub proof fn extends_twice(a: State, b: State, c: State)
    requires
        extends(a, b),
        extends(b, c),
    ensures
        extends(a, c),
{
    assert forall|i: int| 0 <= i < a.scopes.len() implies (#[trigger] c.scopes[i]).parent
        == a.scopes[i].parent by {
        assert(b.scopes[i].parent == a.scopes[i].parent);
    }
    assert forall|i: int| 0 <= i < a.out.len() implies #[trigger] c.out[i] == a.out[i] by {
        assert(b.out[i] == a.out[i]);
    }
}

/// Binding parameters only adds to the state.
pub proof fn bind_from_extends(s: State, env: nat, params: Seq<Value>, args: Seq<Value>, i: nat)
    requires
        env < s.scopes.len(),
    ensures
        extends(s, bind_from(s, env, params, args, i).0),
    decreases params.len() - i,
{
    if i < params.len() {
        match params[i as int] {
            Value::Sym(name) => {
                let s1 = define_spec(s, env, name, args[i as int]);
                bind_from_extends(s1, env, params, args, i + 1);
                extends_twice(s, s1, bind_from(s1, env, params, args, i + 1).0);
            },
            _ => {},
        }
    }
}

/// Making the scope of a call only adds to the state.
pub proof fn bind_extends(s: State, env: nat, params: Value, args: Seq<Value>)
    ensures
        extends(s, bind_spec(s, env, params, args).0),
        bind_spec(s, env, params, args).1 matches Ok(scope) ==> scope < bind_spec(
            s,
            env,
            params,
            args,
        ).0.scopes.len(),
{
    let p = match params {
        Value::List(p) => p,
        Value::Vec(p) => p,
        _ => Seq::empty(),
    };
    if (params is List || params is Vec) && p.len() == args.len() {
        let s1 = add_scope_spec(s, child_scope(env));
        bind_from_extends(s1, s.scopes.len(), p, args, 0);
        crate::env::bind_from_keeps_scopes(s1, s.scopes.len(), p, args, 0);
        extends_twice(s, s1, bind_from(s1, s.scopes.len(), p, args, 0).0);
    }
}

/// Evaluating only adds to the state: the scopes that were there stay
/// under their handles and keep their parents, and the lines that were
/// printed stay in their places.
pub proof fn eval_extends(s: State, env: nat, ast: Value, fuel: nat)
    requires
        env < s.scopes.len(),
    ensures
        extends(s, eval_spec(s, env, ast, fuel).0),
    decreases fuel, 3nat, 0nat,
{
    match ast {
        Value::List(items) => {
            if items.len() > 0 && fuel > 0 {
                let tail = items.skip(1);
                match items[0] {
                    Value::Sym(name) => {
                        if name == "def!"@ {
                            def_extends(s, env, tail, fuel);
                        } else if name == "let*"@ {
                            let_extends(s, env, tail, fuel);
                        } else if name == "do"@ {
                            do_extends(s, env, tail, fuel);
                        } else if name == "if"@ {
                            if_extends(s, env, tail, fuel);
                        } else if name == "fn*"@ {
                        } else {
                            call_extends(s, env, items, fuel);
                        }
                    },
                    _ => {
                        call_extends(s, env, items, fuel);
                    },
                }
            }
        },
        _ => {
            eval_ast_extends(s, env, ast, fuel);
        },
    }
}

/// `eval_extends` for evaluation as data.
pub proof fn eval_ast_extends(s: State, env: nat, ast: Value, fuel: nat)
    requires
        env < s.scopes.len(),
    ensures
        extends(s, eval_ast_spec(s, env, ast, fuel).0),
    decreases fuel, 2nat, 0nat,
{
    if fuel > 0 {
        match ast {
            Value::List(items) => {
                eval_seq_extends(s, env, items, (fuel - 1) as nat);
            },
            Value::Vec(items) => {
                eval_seq_extends(s, env, items, (fuel - 1) as nat);
            },
            Value::Dict(entries) => {
                eval_entries_extends(s, env, entries, (fuel - 1) as nat);
            },
            _ => {},
        }
    }
}

/// `eval_extends` for the elements of a sequence.
pub proof fn eval_seq_extends(s: State, env: nat, items: Seq<Value>, fuel: nat)
    requires
        env < s.scopes.len(),
    ensures
        extends(s, eval_seq_spec(s, env, items, fuel).0),
    decreases fuel, 4nat, items.len(),
{
    if items.len() > 0 {
        eval_seq_extends(s, env, items.drop_last(), fuel);
        let (s1, r1) = eval_seq_spec(s, env, items.drop_last(), fuel);
        if r1 is Ok {
            eval_extends(s1, env, items.last(), fuel);
            extends_twice(s, s1, eval_spec(s1, env, items.last(), fuel).0);
        }
    }
}

/// `eval_extends` for the values of a dictionary.
pub proof fn eval_entries_extends(
    s: State,
    env: nat,
    entries: Seq<(Seq<char>, Value)>,
    fuel: nat,
)
    requires
        env < s.scopes.len(),
    ensures
        extends(s, eval_entries_spec(s, env, entries, fuel).0),
    decreases fuel, 4nat, entries.len(),
{
    if entries.len() > 0 {
        eval_entries_extends(s, env, entries.drop_last(), fuel);
        let (s1, r1) = eval_entries_spec(s, env, entries.drop_last(), fuel);
        if r1 is Ok {
            eval_extends(s1, env, entries.last().1, fuel);
            extends_twice(s, s1, eval_spec(s1, env, entries.last().1, fuel).0);
        }
    }
}

/// `eval_extends` for `def!`.
pub proof fn def_extends(s: State, env: nat, tail: Seq<Value>, fuel: nat)
    requires
        env < s.scopes.len(),
    ensures
        extends(s, def_spec(s, env, tail, fuel).0),
    decreases fuel, 2nat, 0nat,
{
    if tail.len() == 2 && fuel > 0 {
        eval_extends(s, env, tail[1], (fuel - 1) as nat);
        let (s1, r1) = eval_spec(s, env, tail[1], (fuel - 1) as nat);
        match r1 {
            Ok(v) => {
                extends_twice(s, s1, set_spec(s1, env, tail[0], v).0);
            },
            Err(_) => {},
        }
    }
}

/// `eval_extends` for the pairs of a `let*`.
pub proof fn let_pairs_extends(s: State, env: nat, bindings: Seq<Value>, k: nat, fuel: nat)
    requires
        env < s.scopes.len(),
    ensures
        extends(s, let_pairs_spec(s, env, bindings, k, fuel).0),
    decreases fuel, 4nat, k,
{
    if k > 0 {
        let_pairs_extends(s, env, bindings, (k - 1) as nat, fuel);
        let (s1, r1) = let_pairs_spec(s, env, bindings, (k - 1) as nat, fuel);
        if r1 is Ok {
            eval_extends(s1, env, bindings[2 * k - 1], fuel);
            let (s2, r2) = eval_spec(s1, env, bindings[2 * k - 1], fuel);
            extends_twice(s, s1, s2);
            match r2 {
                Ok(v) => {
                    extends_twice(s, s2, set_spec(s2, env, bindings[2 * k - 2], v).0);
                },
                Err(_) => {},
            }
        }
    }
}

/// `eval_extends` for the scope of a `let*`; the scope it makes is one of
/// the state it leaves.
pub proof fn let_binding_extends(s: State, env: nat, bindings: Value, fuel: nat)
    requires
        env < s.scopes.len(),
    ensures
        extends(s, let_binding_spec(s, env, bindings, fuel).0),
        let_binding_spec(s, env, bindings, fuel).1 matches Ok(scope) ==> scope
            < let_binding_spec(s, env, bindings, fuel).0.scopes.len(),
    decreases fuel, 2nat, 0nat,
{
    match bindings {
        Value::List(b) => {
            let_seq_extends(s, env, bindings, b, fuel);
        },
        Value::Vec(b) => {
            let_seq_extends(s, env, bindings, b, fuel);
        },
        _ => {},
    }
}

/// `let_binding_extends` for the elements of the bindings.
pub proof fn let_seq_extends(s: State, env: nat, bindings: Value, b: Seq<Value>, fuel: nat)
    requires
        env < s.scopes.len(),
    ensures
        extends(s, let_seq_spec(s, env, bindings, b, fuel).0),
        let_seq_spec(s, env, bindings, b, fuel).1 matches Ok(scope) ==> scope < let_seq_spec(
            s,
            env,
            bindings,
            b,
            fuel,
        ).0.scopes.len(),
    decreases fuel, 1nat, 0nat,
{
    if b.len() % 2 == 0 && fuel > 0 {
        let s1 = add_scope_spec(s, child_scope(env));
        let_pairs_extends(s1, s.scopes.len(), b, b.len() / 2, (fuel - 1) as nat);
        extends_twice(
            s,
            s1,
            let_pairs_spec(s1, s.scopes.len(), b, b.len() / 2, (fuel - 1) as nat).0,
        );
    }
}

/// `eval_extends` for `let*`.
pub proof fn let_extends(s: State, env: nat, tail: Seq<Value>, fuel: nat)
    requires
        env < s.scopes.len(),
    ensures
        extends(s, let_spec(s, env, tail, fuel).0),
    decreases fuel, 2nat, 1nat,
{
    if tail.len() == 2 && fuel > 0 {
        let_binding_extends(s, env, tail[0], fuel);
        let (s1, r1) = let_binding_spec(s, env, tail[0], fuel);
        match r1 {
            Ok(scope) => {
                eval_extends(s1, scope, tail[1], (fuel - 1) as nat);
                extends_twice(s, s1, eval_spec(s1, scope, tail[1], (fuel - 1) as nat).0);
            },
            Err(_) => {},
        }
    }
}

/// `eval_extends` for `do`.
pub proof fn do_extends(s: State, env: nat, tail: Seq<Value>, fuel: nat)
    requires
        env < s.scopes.len(),
    ensures
        extends(s, do_spec(s, env, tail, fuel).0),
    decreases fuel, 2nat, 0nat,
{
    if fuel > 0 {
        eval_seq_extends(s, env, tail, (fuel - 1) as nat);
    }
}

/// `eval_extends` for `if`.
pub proof fn if_extends(s: State, env: nat, tail: Seq<Value>, fuel: nat)
    requires
        env < s.scopes.len(),
    ensures
        extends(s, if_spec(s, env, tail, fuel).0),
    decreases fuel, 2nat, 0nat,
{
    if (tail.len() == 2 || tail.len() == 3) && fuel > 0 {
        eval_extends(s, env, tail[0], (fuel - 1) as nat);
        let (s1, r1) = eval_spec(s, env, tail[0], (fuel - 1) as nat);
        if r1 is Ok {
            eval_extends(s1, env, tail[1], (fuel - 1) as nat);
            extends_twice(s, s1, eval_spec(s1, env, tail[1], (fuel - 1) as nat).0);
            if tail.len() == 3 {
                eval_extends(s1, env, tail[2], (fuel - 1) as nat);
                extends_twice(s, s1, eval_spec(s1, env, tail[2], (fuel - 1) as nat).0);
            }
        }
    }
}

/// `eval_extends` for a call.
pub proof fn call_extends(s: State, env: nat, items: Seq<Value>, fuel: nat)
    requires
        env < s.scopes.len(),
    ensures
        extends(s, call_spec(s, env, items, fuel).0),
    decreases fuel, 2nat, 0nat,
{
    if items.len() > 0 && fuel > 0 {
        eval_seq_extends(s, env, items, (fuel - 1) as nat);
        let (s1, r1) = eval_seq_spec(s, env, items, (fuel - 1) as nat);
        match r1 {
            Ok(vals) => {
                apply_extends(s1, vals[0], vals.skip(1), fuel);
                extends_twice(s, s1, apply_spec(s1, vals[0], vals.skip(1), fuel).0);
            },
            Err(_) => {},
        }
    }
}

/// Applying only adds to the state.
pub proof fn apply_extends(s: State, f: Value, args: Seq<Value>, fuel: nat)
    ensures
        extends(s, apply_spec(s, f, args, fuel).0),
    decreases fuel, 1nat, 0nat,
{
    match f {
        Value::Closure { env, params, body } => {
            if env < s.scopes.len() && fuel > 0 {
                bind_extends(s, env, *params, args);
                let (s1, r1) = bind_spec(s, env, *params, args);
                match r1 {
                    Ok(scope) => {
                        eval_extends(s1, scope, *body, (fuel - 1) as nat);
                        extends_twice(s, s1, eval_spec(s1, scope, *body, (fuel - 1) as nat).0);
                    },
                    Err(_) => {},
                }
            }
        },
        _ => {},
    }
}

/// After `(def! name expr)` has given a value, `name` evaluates to that
/// value in the same scope, at any depth.
pub proof fn defined_name_evaluates(
    s: State,
    env: nat,
    name: Seq<char>,
    expr: Value,
    fuel: nat,
    again: nat,
)
    requires
        env < s.scopes.len(),
    ensures
        ({
            let form = Value::List(seq![Value::Sym("def!"@), Value::Sym(name), expr]);
            let (s1, r1) = eval_spec(s, env, form, fuel);
            r1 matches Ok(v) ==> lookup_spec(s1, env, name) == Some(v) && eval_spec(
                s1,
                env,
                Value::Sym(name),
                again,
            ) == (s1, Ok::<Value, Failure>(v))
        }),
{
    let items = seq![Value::Sym("def!"@), Value::Sym(name), expr];
    let tail = items.skip(1);
    assert(tail.len() == 2 && tail[0] == Value::Sym(name) && tail[1] == expr);
    if fuel > 0 {
        eval_extends(s, env, expr, (fuel - 1) as nat);
    }
}

/// Whether an outcome is the failure of too little depth.
pub open spec fn out_of_depth<T>(r: Result<T, Failure>) -> bool {
    r matches Err(Failure::DepthExceeded)
}

/// The depth only limits: an evaluation that did not run out of depth at
/// `low` gives the same value, or the same failure, and leaves the same
/// state at every depth from `low` up.
pub proof fn eval_depth_raised(s: State, env: nat, ast: Value, low: nat, high: nat)
    requires
        low <= high,
        !out_of_depth(eval_spec(s, env, ast, low).1),
    ensures
        eval_spec(s, env, ast, high) == eval_spec(s, env, ast, low),
    decreases low, 3nat, 0nat,
{
    match ast {
        Value::List(items) => {
            if items.len() > 0 {
                let tail = items.skip(1);
                match items[0] {
                    Value::Sym(name) => {
                        if name == "def!"@ {
                            def_depth_raised(s, env, tail, low, high);
                        } else if name == "let*"@ {
                            let_depth_raised(s, env, tail, low, high);
                        } else if name == "do"@ {
                            do_depth_raised(s, env, tail, low, high);
                        } else if name == "if"@ {
                            if_depth_raised(s, env, tail, low, high);
                        } else if name == "fn*"@ {
                        } else {
                            call_depth_raised(s, env, items, low, high);
                        }
                    },
                    _ => {
                        call_depth_raised(s, env, items, low, high);
                    },
                }
            }
        },
        _ => {
            eval_ast_depth_raised(s, env, ast, low, high);
        },
    }
}

/// `eval_depth_raised` for evaluation as data.
pub proof fn eval_ast_depth_raised(s: State, env: nat, ast: Value, low: nat, high: nat)
    requires
        low <= high,
        !out_of_depth(eval_ast_spec(s, env, ast, low).1),
    ensures
        eval_ast_spec(s, env, ast, high) == eval_ast_spec(s, env, ast, low),
    decreases low, 2nat, 0nat,
{
    match ast {
        Value::List(items) => {
            eval_seq_depth_raised(s, env, items, (low - 1) as nat, (high - 1) as nat);
        },
        Value::Vec(items) => {
            eval_seq_depth_raised(s, env, items, (low - 1) as nat, (high - 1) as nat);
        },
        Value::Dict(entries) => {
            eval_entries_depth_raised(s, env, entries, (low - 1) as nat, (high - 1) as nat);
        },
        _ => {},
    }
}

/// `eval_depth_raised` for the elements of a sequence.
pub proof fn eval_seq_depth_raised(s: State, env: nat, items: Seq<Value>, low: nat, high: nat)
    requires
        low <= high,
        !out_of_depth(eval_seq_spec(s, env, items, low).1),
    ensures
        eval_seq_spec(s, env, items, high) == eval_seq_spec(s, env, items, low),
    decreases low, 4nat, items.len(),
{
    if items.len() > 0 {
        eval_seq_depth_raised(s, env, items.drop_last(), low, high);
        let (s1, r1) = eval_seq_spec(s, env, items.drop_last(), low);
        if r1 is Ok {
            eval_depth_raised(s1, env, items.last(), low, high);
        }
    }
}

/// `eval_depth_raised` for the values of a dictionary.
pub proof fn eval_entries_depth_raised(
    s: State,
    env: nat,
    entries: Seq<(Seq<char>, Value)>,
    low: nat,
    high: nat,
)
    requires
        low <= high,
        !out_of_depth(eval_entries_spec(s, env, entries, low).1),
    ensures
        eval_entries_spec(s, env, entries, high) == eval_entries_spec(s, env, entries, low),
    decreases low, 4nat, entries.len(),
{
    if entries.len() > 0 {
        eval_entries_depth_raised(s, env, entries.drop_last(), low, high);
        let (s1, r1) = eval_entries_spec(s, env, entries.drop_last(), low);
        if r1 is Ok {
            eval_depth_raised(s1, env, entries.last().1, low, high);
        }
    }
}

/// `eval_depth_raised` for `def!`.
pub proof fn def_depth_raised(s: State, env: nat, tail: Seq<Value>, low: nat, high: nat)
    requires
        low <= high,
        !out_of_depth(def_spec(s, env, tail, low).1),
    ensures
        def_spec(s, env, tail, high) == def_spec(s, env, tail, low),
    decreases low, 2nat, 0nat,
{
    if tail.len() == 2 {
        eval_depth_raised(s, env, tail[1], (low - 1) as nat, (high - 1) as nat);
    }
}

/// `eval_depth_raised` for the pairs of a `let*`.
pub proof fn let_pairs_depth_raised(
    s: State,
    env: nat,
    bindings: Seq<Value>,
    k: nat,
    low: nat,
    high: nat,
)
    requires
        low <= high,
        !out_of_depth(let_pairs_spec(s, env, bindings, k, low).1),
    ensures
        let_pairs_spec(s, env, bindings, k, high) == let_pairs_spec(s, env, bindings, k, low),
    decreases low, 4nat, k,
{
    if k > 0 {
        let_pairs_depth_raised(s, env, bindings, (k - 1) as nat, low, high);
        let (s1, r1) = let_pairs_spec(s, env, bindings, (k - 1) as nat, low);
        if r1 is Ok {
            eval_depth_raised(s1, env, bindings[2 * k - 1], low, high);
        }
    }
}

/// `eval_depth_raised` for the scope of a `let*`.
pub proof fn let_binding_depth_raised(s: State, env: nat, bindings: Value, low: nat, high: nat)
    requires
        low <= high,
        !out_of_depth(let_binding_spec(s, env, bindings, low).1),
    ensures
        let_binding_spec(s, env, bindings, high) == let_binding_spec(s, env, bindings, low),
    decreases low, 2nat, 0nat,
{
    match bindings {
        Value::List(b) => {
            let_seq_depth_raised(s, env, bindings, b, low, high);
        },
        Value::Vec(b) => {
            let_seq_depth_raised(s, env, bindings, b, low, high);
        },
        _ => {},
    }
}

/// `let_binding_depth_raised` for the elements of the bindings.
pub proof fn let_seq_depth_raised(
    s: State,
    env: nat,
    bindings: Value,
    b: Seq<Value>,
    low: nat,
    high: nat,
)
    requires
        low <= high,
        !out_of_depth(let_seq_spec(s, env, bindings, b, low).1),
    ensures
        let_seq_spec(s, env, bindings, b, high) == let_seq_spec(s, env, bindings, b, low),
    decreases low, 1nat, 0nat,
{
    if b.len() % 2 == 0 {
        let_pairs_depth_raised(
            add_scope_spec(s, child_scope(env)),
            s.scopes.len(),
            b,
            b.len() / 2,
            (low - 1) as nat,
            (high - 1) as nat,
        );
    }
}

/// `eval_depth_raised` for `let*`.
pub proof fn let_depth_raised(s: State, env: nat, tail: Seq<Value>, low: nat, high: nat)
    requires
        low <= high,
        !out_of_depth(let_spec(s, env, tail, low).1),
    ensures
        let_spec(s, env, tail, high) == let_spec(s, env, tail, low),
    decreases low, 2nat, 1nat,
{
    if tail.len() == 2 {
        let_binding_depth_raised(s, env, tail[0], low, high);
        let (s1, r1) = let_binding_spec(s, env, tail[0], low);
        match r1 {
            Ok(scope) => {
                eval_depth_raised(s1, scope, tail[1], (low - 1) as nat, (high - 1) as nat);
            },
            Err(_) => {},
        }
    }
}

/// `eval_depth_raised` for `do`.
pub proof fn do_depth_raised(s: State, env: nat, tail: Seq<Value>, low: nat, high: nat)
    requires
        low <= high,
        !out_of_depth(do_spec(s, env, tail, low).1),
    ensures
        do_spec(s, env, tail, high) == do_spec(s, env, tail, low),
    decreases low, 2nat, 0nat,
{
    eval_seq_depth_raised(s, env, tail, (low - 1) as nat, (high - 1) as nat);
}

/// `eval_depth_raised` for `if`.
pub proof fn if_depth_raised(s: State, env: nat, tail: Seq<Value>, low: nat, high: nat)
    requires
        low <= high,
        !out_of_depth(if_spec(s, env, tail, low).1),
    ensures
        if_spec(s, env, tail, high) == if_spec(s, env, tail, low),
    decreases low, 2nat, 0nat,
{
    if tail.len() == 2 || tail.len() == 3 {
        eval_depth_raised(s, env, tail[0], (low - 1) as nat, (high - 1) as nat);
        let (s1, r1) = eval_spec(s, env, tail[0], (low - 1) as nat);
        match r1 {
            Ok(c) => {
                if crate::eval::is_falsy(c) {
                    if tail.len() == 3 {
                        eval_depth_raised(s1, env, tail[2], (low - 1) as nat, (high - 1) as nat);
                    }
                } else {
                    eval_depth_raised(s1, env, tail[1], (low - 1) as nat, (high - 1) as nat);
                }
            },
            Err(_) => {},
        }
    }
}

/// `eval_depth_raised` for a call.
pub proof fn call_depth_raised(s: State, env: nat, items: Seq<Value>, low: nat, high: nat)
    requires
        low <= high,
        !out_of_depth(call_spec(s, env, items, low).1),
    ensures
        call_spec(s, env, items, high) == call_spec(s, env, items, low),
    decreases low, 2nat, 0nat,
{
    if items.len() > 0 {
        eval_seq_depth_raised(s, env, items, (low - 1) as nat, (high - 1) as nat);
        let (s1, r1) = eval_seq_spec(s, env, items, (low - 1) as nat);
        match r1 {
            Ok(vals) => {
                apply_depth_raised(s1, vals[0], vals.skip(1), low, high);
            },
            Err(_) => {},
        }
    }
}

/// `eval_depth_raised` for applying a value.
pub proof fn apply_depth_raised(s: State, f: Value, args: Seq<Value>, low: nat, high: nat)
    requires
        low <= high,
        !out_of_depth(apply_spec(s, f, args, low).1),
    ensures
        apply_spec(s, f, args, high) == apply_spec(s, f, args, low),
    decreases low, 1nat, 0nat,
{
    match f {
        Value::Closure { env, params, body } => {
            if env < s.scopes.len() {
                let (s1, r1) = bind_spec(s, env, *params, args);
                match r1 {
                    Ok(scope) => {
                        eval_depth_raised(s1, scope, *body, (low - 1) as nat, (high - 1) as nat);
                    },
                    Err(_) => {},
                }
            }
        },
        _ => {},
    }
}

} // verus!
