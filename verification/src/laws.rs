//! What holds of reading, printing and evaluating together.

use crate::env::{
    add_scope_spec, bind_from, bind_spec, child_scope, define_spec, lookup_spec, parents_first,
    State,
};
use crate::error::Failure;
use crate::eval::eval_spec;
use crate::printer::print_spec;
use crate::reader::{
    atom_spec, bare_end, dict_from, hash_map_spec, is_bare, is_separator, key_text,
    read_form_spec, read_spec, skip_separators, string_end, token_end, tokenize_spec, tokens_from,
};
use crate::text::{
    all_digits, digit_char, digit_value, digits_spec, digits_value, is_digit,
    parse_int_spec,
};
use crate::types::{
    dict_insert, entry_in, key_position, key_position_is_first, keys_unique, seqs_equal,
    values_equal, Value,
};
use vstd::prelude::*;

verus! {

/// The values that evaluate to themselves: `nil`, `true`, `false`, numbers,
/// strings, keywords, host operations and closures.
pub open spec fn self_evaluating(v: Value) -> bool {
    v is Nil || v is True || v is False || v is Number || v is String || v is Keyword
        || v is Function || v is Closure
}

/// A self-evaluating value evaluates to itself and leaves the state as it
/// was, in every state, in every scope and at every depth; so evaluating it
/// again gives the same once more.
pub proof fn self_evaluating_is_unchanged(s: State, env: nat, v: Value, fuel: nat)
    requires
        self_evaluating(v),
    ensures
        eval_spec(s, env, v, fuel) == (s, Ok::<Value, Failure>(v)),
        eval_spec(eval_spec(s, env, v, fuel).0, env, v, fuel) == (s, Ok::<Value, Failure>(v)),
{
}

/// What was just defined in a scope is what a lookup from that scope finds.
pub proof fn lookup_finds_definition(s: State, env: nat, name: Seq<char>, v: Value)
    requires
        env < s.scopes.len(),
    ensures
        lookup_spec(define_spec(s, env, name, v), env, name) == Some(v),
{
}

/// A definition touches its own scope only, and there its own name only.
pub proof fn definition_is_local(s: State, env: nat, name: Seq<char>, v: Value)
    requires
        env < s.scopes.len(),
    ensures
        define_spec(s, env, name, v).scopes.len() == s.scopes.len(),
        define_spec(s, env, name, v).out == s.out,
        forall|e: int|
            0 <= e < s.scopes.len() && e != env ==> #[trigger] define_spec(s, env, name, v).scopes[e]
                == s.scopes[e],
        define_spec(s, env, name, v).scopes[env as int].parent == s.scopes[env as int].parent,
        forall|other: Seq<char>|
            other != name ==> define_spec(s, env, name, v).scopes[env as int].data.contains_key(
                other,
            ) == s.scopes[env as int].data.contains_key(other) && #[trigger] define_spec(
                s,
                env,
                name,
                v,
            ).scopes[env as int].data[other] == s.scopes[env as int].data[other],
{
}

/// A lookup takes the scope's own binding first; without one, it is the
/// lookup from the parent; without a parent, it finds nothing.
pub proof fn lookup_walks_outward(s: State, env: nat, name: Seq<char>)
    requires
        parents_first(s),
        env < s.scopes.len(),
    ensures
        s.scopes[env as int].data.contains_key(name) ==> lookup_spec(s, env, name) == Some(
            s.scopes[env as int].data[name],
        ),
        !s.scopes[env as int].data.contains_key(name) ==> lookup_spec(s, env, name) == (
        match s.scopes[env as int].parent {
            Some(p) => lookup_spec(s, p, name),
            None => None,
        }),
{
}

/// The decimal numeral of a natural number is made of digits, and writes
/// that number.
pub proof fn digits_read_back(n: nat)
    ensures
        all_digits(digits_spec(n)),
        digits_value(digits_spec(n)) == n,
        forall|i: int| 0 <= i < digits_spec(n).len() ==> is_bare(#[trigger] digits_spec(n)[i]),
    decreases n,
{
    let d = (n % 10) as int;
    assert(is_digit(digit_char(d)) && digit_value(digit_char(d)) == d && is_bare(digit_char(d)));
    let s = digits_spec(n);
    if n >= 10 {
        digits_read_back(n / 10);
        assert(s.drop_last() =~= digits_spec(n / 10));
    } else {
        assert(s.drop_last() =~= Seq::<char>::empty());
        assert(digits_value(Seq::<char>::empty()) == 0);
    }
    assert(s.last() == digit_char(d));
    assert(digits_value(s) == digits_value(s.drop_last()) * 10 + digit_value(s.last()));
}

/// A run of bare characters that reaches the end of the text is one token.
pub proof fn bare_run_ends_at_end(s: Seq<char>, i: int)
    requires
        0 <= i <= s.len(),
        forall|j: int| i <= j < s.len() ==> is_bare(#[trigger] s[j]),
    ensures
        bare_end(s, i) == s.len(),
    decreases s.len() - i,
{
    if i < s.len() {
        bare_run_ends_at_end(s, i + 1);
    }
}

/// A text that is one token, and no comment, has itself as its only token.
pub proof fn one_token(s: Seq<char>)
    requires
        s.len() > 0,
        !is_separator(s[0]),
        s[0] != ';',
        token_end(s, 0) == s.len(),
    ensures
        tokenize_spec(s) == seq![s],
{
    assert(skip_separators(s, 0) == 0);
    assert(skip_separators(s, s.len() as int) == s.len());
    assert(tokens_from(s, s.len() as int) =~= Seq::<Seq<char>>::empty());
    assert(s.subrange(0, s.len() as int) =~= s);
    assert(tokens_from(s, 0) =~= seq![s]);
}

/// The literals that come back from their own text: `nil`, `true`, `false`
/// and every number; a keyword whose name is made of bare characters; a
/// string in whose text, behind the opening quote, no token ends before the
/// end: one without an unescaped double quote inside and without a
/// backslash before a line feed.
pub open spec fn reads_back(v: Value) -> bool {
    match v {
        Value::Nil => true,
        Value::True => true,
        Value::False => true,
        Value::Number(n) => i64::MIN <= n <= i64::MAX,
        Value::Keyword(k) => forall|i: int| 0 <= i < k.len() ==> is_bare(#[trigger] k[i]),
        Value::String(s) => string_end(print_spec(v), 1) == print_spec(v).len(),
        _ => false,
    }
}

/// Reading the text of such a literal gives the literal, and evaluating
/// what was read gives it again, whatever the state, the scope and the
/// depth.
pub proof fn literal_round_trip(v: Value, s: State, env: nat, fuel: nat)
    requires
        reads_back(v),
    ensures
        read_spec(print_spec(v)) == Ok::<Value, Failure>(v),
        eval_spec(s, env, v, fuel) == (s, Ok::<Value, Failure>(v)),
{
    let p = print_spec(v);
    reveal_strlit("nil");
    reveal_strlit("true");
    reveal_strlit("false");
    match v {
        Value::Nil => {
            bare_run_ends_at_end(p, 1);
            one_token(p);
        },
        Value::True => {
            bare_run_ends_at_end(p, 1);
            one_token(p);
        },
        Value::False => {
            bare_run_ends_at_end(p, 1);
            one_token(p);
        },
        Value::Number(n) => {
            if n < 0 {
                let m = (-n) as nat;
                digits_read_back(m);
                let d = digits_spec(m);
                assert(p =~= seq!['-'] + d);
                assert(p.subrange(1, p.len() as int) =~= d);
                assert forall|j: int| 1 <= j < p.len() implies is_bare(#[trigger] p[j]) by {
                    assert(p[j] == d[j - 1]);
                }
                bare_run_ends_at_end(p, 1);
                one_token(p);
                assert(parse_int_spec(p) == Some(n));
            } else {
                let m = n as nat;
                digits_read_back(m);
                assert(p == digits_spec(m));
                assert(is_digit(p[0]));
                bare_run_ends_at_end(p, 1);
                one_token(p);
                assert(parse_int_spec(p) == Some(n));
            }
            assert(atom_spec(p) == v);
        },
        Value::Keyword(k) => {
            assert forall|j: int| 1 <= j < p.len() implies is_bare(#[trigger] p[j]) by {
                assert(p[j] == k[j - 1]);
            }
            bare_run_ends_at_end(p, 1);
            one_token(p);
            assert(parse_int_spec(p) is None);
            assert(p.subrange(1, p.len() as int) =~= k);
        },
        Value::String(t) => {
            one_token(p);
            assert(parse_int_spec(p) is None);
            assert(p.subrange(1, p.len() - 1) =~= t);
        },
        _ => {},
    }
    assert(read_form_spec(seq![p], 0) == (Ok::<Value, Failure>(atom_spec(p)), 1nat));
}

/// A string without double quote and without backslash comes back from its
/// own text.
pub proof fn plain_string_reads_back(t: Seq<char>)
    requires
        forall|i: int| 0 <= i < t.len() ==> #[trigger] t[i] != '"' && t[i] != '\\',
    ensures
        reads_back(Value::String(t)),
{
    let p = print_spec(Value::String(t));
    assert(p =~= seq!['"'] + t + seq!['"']);
    plain_string_scan(p, 1);
}

/// Inside a text that has neither double quote nor backslash before its
/// last character, a double quote, a string ends at the end.
pub proof fn plain_string_scan(p: Seq<char>, i: int)
    requires
        1 <= i < p.len(),
        p.last() == '"',
        forall|j: int| 1 <= j < p.len() - 1 ==> #[trigger] p[j] != '"' && p[j] != '\\',
    ensures
        string_end(p, i) == p.len(),
    decreases p.len() - i,
{
    if i < p.len() - 1 {
        plain_string_scan(p, i + 1);
    }
}

/// Putting a value under a key leaves every key single.
pub proof fn dict_insert_keeps_keys_unique(
    entries: Seq<(Seq<char>, Value)>,
    key: Seq<char>,
    value: Value,
)
    requires
        keys_unique(entries),
    ensures
        keys_unique(dict_insert(entries, key, value)),
{
    key_position_is_first(entries, key, 0);
    let p = key_position(entries, key, 0);
    let after = dict_insert(entries, key, value);
    assert forall|i: int, j: int| 0 <= i < j < after.len() implies (#[trigger] after[i]).0 != (
    #[trigger] after[j]).0 by {
        if p < entries.len() {
            assert(after[i].0 == entries[i].0);
            assert(after[j].0 == entries[j].0);
        } else {
            if j < entries.len() {
                assert(after[i] == entries[i]);
                assert(after[j] == entries[j]);
            } else {
                assert(after[i] == entries[i]);
                assert(after[j].0 == key);
            }
        }
    }
}

/// The entries that pairs of keys and values make have every key once.
pub proof fn dict_from_keys_unique(items: Seq<Value>, k: nat)
    ensures
        dict_from(items, k) matches Ok(entries) ==> keys_unique(entries),
    decreases k,
{
    if k > 0 {
        dict_from_keys_unique(items, (k - 1) as nat);
        match dict_from(items, (k - 1) as nat) {
            Ok(entries) => match key_text(items[2 * k - 2]) {
                Some(key) => {
                    dict_insert_keeps_keys_unique(entries, key, items[2 * k - 1]);
                },
                None => {},
            },
            Err(_) => {},
        }
    }
}

/// A dictionary that was read holds each of its keys once.
pub proof fn hash_map_keys_unique(items: Seq<Value>)
    ensures
        hash_map_spec(items) matches Ok(Value::Dict(entries)) ==> keys_unique(entries),
{
    dict_from_keys_unique(items, items.len() / 2);
}

/// Whether `params[j]` is the symbol `name` and no parameter behind it is.
pub open spec fn last_named(params: Seq<Value>, j: int, name: Seq<char>) -> bool {
    &&& 0 <= j < params.len()
    &&& params[j] == Value::Sym(name)
    &&& forall|k: int| j < k < params.len() ==> #[trigger] params[k] != Value::Sym(name)
}

/// Binding the parameters from `i` on, where it succeeds, leaves in the
/// scope `env` each of them with its argument, the last of a name that
/// occurs twice; it touches nothing else of the state.
pub proof fn bind_from_binds(s: State, env: nat, params: Seq<Value>, args: Seq<Value>, i: nat)
    requires
        env < s.scopes.len(),
    ensures
        ({
            let (s1, r1) = bind_from(s, env, params, args, i);
            &&& s1.out == s.out
            &&& s1.scopes.len() == s.scopes.len()
            &&& s1.scopes[env as int].parent == s.scopes[env as int].parent
            &&& forall|e: int|
                0 <= e < s.scopes.len() && e != env ==> #[trigger] s1.scopes[e] == s.scopes[e]
            &&& r1 is Ok ==> forall|j: int, name: Seq<char>|
                i <= j && #[trigger] last_named(params, j, name) ==> s1.scopes[env as int].data.contains_key(
                    name,
                ) && s1.scopes[env as int].data[name] == args[j]
        }),
    decreases params.len() - i,
{
    if i < params.len() {
        match params[i as int] {
            Value::Sym(first) => {
                let s0 = define_spec(s, env, first, args[i as int]);
                bind_from_binds(s0, env, params, args, i + 1);
                let (s1, r1) = bind_from(s, env, params, args, i);
                if r1 is Ok {
                    assert forall|j: int, name: Seq<char>|
                        i <= j && #[trigger] last_named(
                            params,
                            j,
                            name,
                        ) implies s1.scopes[env as int].data.contains_key(name)
                        && s1.scopes[env as int].data[name] == args[j] by {
                        if j == i {
                            assert(name == first);
                            bind_from_keeps(s0, env, params, args, i + 1, first);
                        }
                    }
                }
            },
            _ => {},
        }
    }
}

/// Binding the parameters from `i` on leaves a name that is none of them
/// as it was in the scope `env`.
pub proof fn bind_from_keeps(
    s: State,
    env: nat,
    params: Seq<Value>,
    args: Seq<Value>,
    i: nat,
    name: Seq<char>,
)
    requires
        env < s.scopes.len(),
        forall|k: int| i <= k < params.len() ==> #[trigger] params[k] != Value::Sym(name),
    ensures
        ({
            let s1 = bind_from(s, env, params, args, i).0;
            &&& s1.scopes[env as int].data.contains_key(name) == s.scopes[env as int].data.contains_key(
                name,
            )
            &&& s1.scopes[env as int].data[name] == s.scopes[env as int].data[name]
        }),
    decreases params.len() - i,
{
    if i < params.len() {
        match params[i as int] {
            Value::Sym(first) => {
                assert(params[i as int] != Value::Sym(name));
                let s0 = define_spec(s, env, first, args[i as int]);
                bind_from_keeps(s0, env, params, args, i + 1, name);
            },
            _ => {},
        }
    }
}

/// A call's scope, where it is made, is a new scope under `env` that holds
/// each parameter with the argument at its place; the scopes that were
/// there and the printed lines are as they were. `pattern` is the list or
/// the vector of the parameters `params`.
pub proof fn bind_gives_each_parameter_its_argument(
    s: State,
    env: nat,
    pattern: Value,
    params: Seq<Value>,
    args: Seq<Value>,
)
    requires
        pattern == Value::List(params) || pattern == Value::Vec(params),
    ensures
        ({
            let (s1, r1) = bind_spec(s, env, pattern, args);
            r1 matches Ok(scope) ==> {
                &&& params.len() == args.len()
                &&& scope == s.scopes.len()
                &&& s1.scopes.len() == s.scopes.len() + 1
                &&& s1.scopes[scope as int].parent == Some(env)
                &&& s1.out == s.out
                &&& forall|e: int| 0 <= e < s.scopes.len() ==> #[trigger] s1.scopes[e] == s.scopes[e]
                &&& forall|j: int, name: Seq<char>| #[trigger]
                    last_named(params, j, name) ==> lookup_spec(s1, scope, name) == Some(args[j])
            }
        }),
{
    if params.len() == args.len() {
        let s0 = add_scope_spec(s, child_scope(env));
        let scope = s.scopes.len();
        bind_from_binds(s0, scope, params, args, 0);
        crate::env::bind_from_keeps_scopes(s0, scope, params, args, 0);
    }
}

/// Every value equals itself.
pub proof fn value_equals_itself(v: Value)
    ensures
        values_equal(v, v),
    decreases v,
{
    match v {
        Value::List(x) => {
            assert forall|i: int| 0 <= i < x.len() implies values_equal(#[trigger] x[i], x[i]) by {
                value_equals_itself(x[i]);
            }
            assert(seqs_equal(x, x));
        },
        Value::Vec(x) => {
            assert forall|i: int| 0 <= i < x.len() implies values_equal(#[trigger] x[i], x[i]) by {
                value_equals_itself(x[i]);
            }
            assert(seqs_equal(x, x));
        },
        Value::Dict(x) => {
            assert forall|i: int| 0 <= i < x.len() implies entry_in(#[trigger] x[i], x) by {
                value_equals_itself(x[i].1);
            }
        },
        Value::Closure { env, params, body } => {
            value_equals_itself(*params);
            value_equals_itself(*body);
        },
        _ => {},
    }
}

} // verus!
