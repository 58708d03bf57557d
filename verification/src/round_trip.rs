//! Reading what was printed: a value made of plain atoms, lists and
//! vectors comes back from its own text.

use crate::error::Failure;
use crate::printer::{entry_prints, print_spec, prints};
use crate::reader::{
    atom_spec, bare_end, closer, dict_from, is_bare, is_separator, is_special, key_text,
    read_form_spec, read_items_spec, read_spec, skip_separators_stops, string_end, token_end,
    tokenize_spec, tokens_from, SequenceDel,
};
use crate::text::{digits_spec, is_digit, join_spec, parse_int_spec};
use crate::types::{key_position, key_position_is_first, keys_unique, Value};
use vstd::prelude::*;

verus! {

/// A symbol whose text is one bare token that stands for nothing else: not
/// empty, bare characters only, no punctuation and no colon in front, none
/// of `nil`, `true`, `false`, and no number.
pub open spec fn plain_symbol(t: Seq<char>) -> bool {
    &&& t.len() > 0
    &&& forall|i: int| 0 <= i < t.len() ==> is_bare(#[trigger] t[i])
    &&& !is_special(t[0])
    &&& t[0] != ':'
    &&& t != "nil"@
    &&& t != "true"@
    &&& t != "false"@
    &&& parse_int_spec(t) is None
}

/// The values that are written with plain atoms: `nil`, `true`, `false`;
/// numbers; plain symbols; keywords of bare characters; strings without
/// double quote and without backslash; lists and vectors of such values;
/// dictionaries of such values under the keys of such keywords and strings,
/// each once.
pub open spec fn plain(v: Value) -> bool
    decreases v,
{
    match v {
        Value::Nil => true,
        Value::True => true,
        Value::False => true,
        Value::Number(n) => i64::MIN <= n <= i64::MAX,
        Value::Sym(t) => plain_symbol(t),
        Value::Keyword(k) => forall|i: int| 0 <= i < k.len() ==> is_bare(#[trigger] k[i]),
        Value::String(t) => forall|i: int|
            0 <= i < t.len() ==> #[trigger] t[i] != '"' && t[i] != '\\',
        Value::List(items) => forall|i: int| 0 <= i < items.len() ==> plain(#[trigger] items[i]),
        Value::Vec(items) => forall|i: int| 0 <= i < items.len() ==> plain(#[trigger] items[i]),
        Value::Dict(entries) => keys_unique(entries) && forall|i: int|
            0 <= i < entries.len() ==> plain_key((#[trigger] entries[i]).0) && plain(entries[i].1),
        _ => false,
    }
}

/// A key that is the text of a plain keyword or of a plain string.
pub open spec fn plain_key(key: Seq<char>) -> bool {
    ||| key.len() >= 1 && key[0] == ':' && forall|i: int|
        1 <= i < key.len() ==> is_bare(#[trigger] key[i])
    ||| key.len() >= 2 && key[0] == '"' && key.last() == '"' && forall|i: int|
        1 <= i < key.len() - 1 ==> #[trigger] key[i] != '"' && key[i] != '\\'
}

/// The keyword or the string that a key is the text of.
pub open spec fn key_value(key: Seq<char>) -> Value {
    if key.len() > 0 && key[0] == ':' {
        Value::Keyword(key.subrange(1, key.len() as int))
    } else {
        Value::String(key.subrange(1, key.len() - 1))
    }
}

/// The tokens that the text of a value is made of.
pub open spec fn tokens_of(v: Value) -> Seq<Seq<char>>
    decreases v, 0nat,
{
    match v {
        Value::List(items) => seq![seq!['(']] + tokens_of_from(items, 0) + seq![seq![')']],
        Value::Vec(items) => seq![seq!['[']] + tokens_of_from(items, 0) + seq![seq![']']],
        Value::Dict(entries) => seq![seq!['{']] + tokens_of_entries(entries, 0) + seq![seq!['}']],
        _ => seq![print_spec(v)],
    }
}

/// The tokens of the entries of a dictionary from the `k`-th on: each key,
/// then the tokens of its value.
pub open spec fn tokens_of_entries(entries: Seq<(Seq<char>, Value)>, k: nat) -> Seq<Seq<char>>
    decreases entries, entries.len() - k,
{
    if k >= entries.len() {
        Seq::empty()
    } else {
        seq![entries[k as int].0] + tokens_of(entries[k as int].1) + tokens_of_entries(
            entries,
            k + 1,
        )
    }
}

/// The body of a dictionary as it is read: keys and values in turn.
pub open spec fn body_of(entries: Seq<(Seq<char>, Value)>) -> Seq<Value> {
    Seq::new(
        2 * entries.len(),
        |i: int|
            if i % 2 == 0 {
                key_value(entries[i / 2].0)
            } else {
                entries[i / 2].1
            },
    )
}

/// The tokens of the elements of `items` from the `k`-th on.
pub open spec fn tokens_of_from(items: Seq<Value>, k: nat) -> Seq<Seq<char>>
    decreases items, items.len() - k,
{
    if k >= items.len() {
        Seq::empty()
    } else {
        tokens_of(items[k as int]) + tokens_of_from(items, k + 1)
    }
}

/// Whether `tokens` holds `part` from the place `p` on.
pub open spec fn holds_at(tokens: Seq<Seq<char>>, p: int, part: Seq<Seq<char>>) -> bool {
    0 <= p && p + part.len() <= tokens.len() && tokens.subrange(p, p + part.len()) == part
}

/// The text of a plain atom is one token that stands for the atom; it
/// opens no sequence and closes none.
pub proof fn atom_reads_back(v: Value)
    requires
        plain(v),
        !(v is List),
        !(v is Vec),
        !(v is Dict),
    ensures
        atom_spec(print_spec(v)) == v,
        print_spec(v).len() > 0,
        print_spec(v)[0] != '(' && print_spec(v)[0] != '[' && print_spec(v)[0] != '{',
        print_spec(v)[0] != ')' && print_spec(v)[0] != ']' && print_spec(v)[0] != '}',
        !is_separator(print_spec(v)[0]),
        print_spec(v)[0] != ';',
{
    let p = print_spec(v);
    reveal_strlit("nil");
    reveal_strlit("true");
    reveal_strlit("false");
    match v {
        Value::Number(n) => {
            let m = (if n < 0 {
                -n
            } else {
                n
            }) as nat;
            crate::laws::digits_read_back(m);
            let d = digits_spec(m);
            assert(is_digit(d[0]));
            if n < 0 {
                assert(p =~= seq!['-'] + d);
                assert(p.subrange(1, p.len() as int) =~= d);
            } else {
                assert(p == d);
            }
            assert(parse_int_spec(p) == Some(n));
        },
        Value::Keyword(k) => {
            assert(parse_int_spec(p) is None);
            assert(p.subrange(1, p.len() as int) =~= k);
        },
        Value::String(t) => {
            assert(parse_int_spec(p) is None);
            assert(p.subrange(1, p.len() - 1) =~= t);
        },
        Value::Sym(t) => {
            assert(is_bare(t[0]));
        },
        _ => {},
    }
}

/// Where the tokens of a plain value stand, reading a form gives the
/// value and ends behind them.
pub proof fn form_reads_back(tokens: Seq<Seq<char>>, p: nat, v: Value)
    requires
        plain(v),
        holds_at(tokens, p as int, tokens_of(v)),
    ensures
        read_form_spec(tokens, p) == (Ok::<Value, Failure>(v), p + tokens_of(v).len()),
        tokens_of(v).len() > 0,
        tokens_of(v)[0] != seq![')'] && tokens_of(v)[0] != seq![']'] && tokens_of(v)[0] != seq![
            '}',
        ],
    decreases v, 0nat,
{
    let q = p as int;
    let part = tokens_of(v);
    let whole = tokens.subrange(q, q + part.len() as int);
    assert(tokens[q] == whole[0]);
    match v {
        Value::List(items) => {
            let inner = tokens_of_from(items, 0);
            let n = inner.len() as int;
            assert(tokens[q] == seq!['(']);
            assert(tokens.subrange(q + 1, q + 1 + n + 1) =~= inner + seq![seq![')']]) by {
                assert forall|i: int| 0 <= i < n + 1 implies tokens[q + 1 + i] == (inner
                    + seq![seq![')']])[i] by {
                    assert(tokens[q + 1 + i] == whole[1 + i]);
                }
            }
            assert(items.take(0) =~= Seq::<Value>::empty());
            items_read_back(tokens, p + 1, items, 0, SequenceDel::List);
        },
        Value::Vec(items) => {
            let inner = tokens_of_from(items, 0);
            let n = inner.len() as int;
            assert(tokens[q] == seq!['[']);
            assert(tokens.subrange(q + 1, q + 1 + n + 1) =~= inner + seq![seq![']']]) by {
                assert forall|i: int| 0 <= i < n + 1 implies tokens[q + 1 + i] == (inner
                    + seq![seq![']']])[i] by {
                    assert(tokens[q + 1 + i] == whole[1 + i]);
                }
            }
            assert(items.take(0) =~= Seq::<Value>::empty());
            items_read_back(tokens, p + 1, items, 0, SequenceDel::Vec);
        },
        Value::Dict(entries) => {
            let inner = tokens_of_entries(entries, 0);
            let n = inner.len() as int;
            assert(tokens[q] == seq!['{']);
            assert(tokens.subrange(q + 1, q + 1 + n + 1) =~= inner + seq![seq!['}']]) by {
                assert forall|i: int| 0 <= i < n + 1 implies tokens[q + 1 + i] == (inner
                    + seq![seq!['}']])[i] by {
                    assert(tokens[q + 1 + i] == whole[1 + i]);
                }
            }
            assert(body_of(entries.take(0)) =~= Seq::<Value>::empty());
            entries_read_back(tokens, p + 1, entries, 0);
            body_makes_dict(entries, entries.len());
            assert(entries.take(entries.len() as int) =~= entries);
        },
        _ => {
            atom_reads_back(v);
            assert(tokens[q] == print_spec(v));
        },
    }
}

/// The body of a plain dictionary makes the dictionary: its first `k`
/// pairs make its first `k` entries.
pub proof fn body_makes_dict(entries: Seq<(Seq<char>, Value)>, k: nat)
    requires
        plain(Value::Dict(entries)),
        k <= entries.len(),
    ensures
        dict_from(body_of(entries), k) == Ok::<Seq<(Seq<char>, Value)>, Failure>(
            entries.take(k as int),
        ),
        body_of(entries).len() == 2 * entries.len(),
    decreases k,
{
    if k == 0 {
        assert(entries.take(0) =~= Seq::empty());
    } else {
        body_makes_dict(entries, (k - 1) as nat);
        let front = entries.take(k - 1);
        let e = entries[k - 1];
        assert(body_of(entries)[2 * k - 2] == key_value(e.0));
        assert(body_of(entries)[2 * k - 1] == e.1);
        key_prints(e.0);
        key_position_is_first(front, e.0, 0);
        let p = key_position(front, e.0, 0);
        if p < front.len() {
            assert(front[p] == entries[p]);
            assert(entries[p].0 != entries[k - 1].0);
        }
        assert(front.push(e) =~= entries.take(k as int));
    }
}

/// Where the tokens of the entries of a plain dictionary stand before the
/// closing brace, reading them behind the first `k` entries gives the body
/// of the dictionary.
pub proof fn entries_read_back(
    tokens: Seq<Seq<char>>,
    p: nat,
    entries: Seq<(Seq<char>, Value)>,
    k: nat,
)
    requires
        plain(Value::Dict(entries)),
        k <= entries.len(),
        holds_at(tokens, p as int, tokens_of_entries(entries, k) + seq![seq!['}']]),
    ensures
        read_items_spec(tokens, p, seq!['}'], body_of(entries.take(k as int))) == (
            Ok::<Seq<Value>, Failure>(body_of(entries)),
            p + tokens_of_entries(entries, k).len() + 1,
        ),
    decreases entries, entries.len() - k,
{
    let q = p as int;
    let rest = tokens_of_entries(entries, k) + seq![seq!['}']];
    let whole = tokens.subrange(q, q + rest.len() as int);
    assert(tokens[q] == whole[0]);
    if k == entries.len() {
        assert(entries.take(k as int) =~= entries);
    } else {
        let key = entries[k as int].0;
        let value = entries[k as int].1;
        let first = tokens_of(value);
        let a = first.len() as int;
        let after = tokens_of_entries(entries, k + 1) + seq![seq!['}']];
        let b = after.len() as int;
        assert(rest =~= seq![key] + first + after);
        assert(tokens[q] == key);
        key_prints(key);
        atom_reads_back(key_value(key));
        assert(tokens.subrange(q + 1, q + 1 + a) =~= first) by {
            assert forall|i: int| 0 <= i < a implies tokens[q + 1 + i] == first[i] by {
                assert(tokens[q + 1 + i] == whole[1 + i]);
            }
        }
        form_reads_back(tokens, p + 1, value);
        assert(tokens.subrange(q + 1 + a, q + 1 + a + b) =~= after) by {
            assert forall|i: int| 0 <= i < b implies tokens[q + 1 + a + i] == after[i] by {
                assert(tokens[q + 1 + a + i] == whole[1 + a + i]);
            }
        }
        let acc = body_of(entries.take(k as int));
        let close = seq!['}'];
        assert(tokens[q + 1] == first[0]);
        assert(read_form_spec(tokens, p) == (Ok::<Value, Failure>(key_value(key)), p + 1));
        assert(read_items_spec(tokens, p, close, acc) == read_items_spec(
            tokens,
            p + 1,
            close,
            acc.push(key_value(key)),
        ));
        assert(read_items_spec(tokens, p + 1, close, acc.push(key_value(key)))
            == read_items_spec(
            tokens,
            p + 1 + first.len(),
            close,
            acc.push(key_value(key)).push(value),
        ));
        assert(acc.push(key_value(key)).push(value) =~= body_of(entries.take(k as int + 1)));
        entries_read_back(tokens, p + 1 + first.len(), entries, k + 1);
    }
}

/// A plain key stands for a plain keyword or string, is its text, and is
/// the key under which a dictionary holds it.
pub proof fn key_prints(key: Seq<char>)
    requires
        plain_key(key),
    ensures
        plain(key_value(key)),
        print_spec(key_value(key)) == key,
        key_text(key_value(key)) == Some(key),
{
    match key_value(key) {
        Value::Keyword(k) => {
            assert(seq![':'] + k =~= key);
        },
        Value::String(t) => {
            assert(seq!['"'] + t + seq!['"'] =~= key);
        },
        _ => {},
    }
}

/// Where the tokens of plain elements stand before the closing token,
/// reading them behind the first `k` gives all the elements.
pub proof fn items_read_back(
    tokens: Seq<Seq<char>>,
    p: nat,
    items: Seq<Value>,
    k: nat,
    end: SequenceDel,
)
    requires
        forall|i: int| 0 <= i < items.len() ==> plain(#[trigger] items[i]),
        k <= items.len(),
        end != SequenceDel::Dict,
        holds_at(tokens, p as int, tokens_of_from(items, k) + seq![closer(end)]),
    ensures
        read_items_spec(tokens, p, closer(end), items.take(k as int)) == (
            Ok::<Seq<Value>, Failure>(items),
            p + tokens_of_from(items, k).len() + 1,
        ),
    decreases items, items.len() - k,
{
    let q = p as int;
    let rest = tokens_of_from(items, k) + seq![closer(end)];
    let whole = tokens.subrange(q, q + rest.len() as int);
    assert(tokens[q] == whole[0]);
    if k == items.len() {
        assert(items.take(k as int) =~= items);
    } else {
        let first = tokens_of(items[k as int]);
        let a = first.len() as int;
        let after = tokens_of_from(items, k + 1) + seq![closer(end)];
        let b = after.len() as int;
        assert(rest =~= first + after);
        assert(tokens.subrange(q, q + a) =~= first) by {
            assert forall|i: int| 0 <= i < a implies tokens[q + i] == first[i] by {
                assert(tokens[q + i] == whole[i]);
            }
        }
        form_reads_back(tokens, p, items[k as int]);
        assert(tokens.subrange(q + a, q + a + b) =~= after) by {
            assert forall|i: int| 0 <= i < b implies tokens[q + a + i] == after[i] by {
                assert(tokens[q + a + i] == whole[a + i]);
            }
        }
        assert(items.take(k as int).push(items[k as int]) =~= items.take(k as int + 1));
        items_read_back(tokens, p + first.len(), items, k + 1, end);
    }
}

/// Whether the text `x` holds `part` from the place `i` on.
pub open spec fn text_at(x: Seq<char>, i: int, part: Seq<char>) -> bool {
    0 <= i && i + part.len() <= x.len() && x.subrange(i, i + part.len()) == part
}

/// What may stand behind the text of a value inside a sequence: a space, a
/// closing bracket, or the end of the text.
pub open spec fn boundary(x: Seq<char>, i: int) -> bool {
    i >= x.len() || x[i] == ' ' || x[i] == ')' || x[i] == ']' || x[i] == '}'
}

/// A text that holds two parts in a row holds each at its place.
pub proof fn text_at_split(x: Seq<char>, i: int, a: Seq<char>, b: Seq<char>)
    requires
        text_at(x, i, a + b),
    ensures
        text_at(x, i, a),
        text_at(x, i + a.len(), b),
        forall|j: int| 0 <= j < a.len() ==> x[i + j] == #[trigger] a[j],
        forall|j: int| 0 <= j < b.len() ==> x[i + a.len() + j] == #[trigger] b[j],
{
    let whole = x.subrange(i, i + (a + b).len());
    assert forall|j: int| 0 <= j < a.len() implies x[i + j] == #[trigger] a[j] by {
        assert(x[i + j] == whole[j]);
    }
    assert forall|j: int| 0 <= j < b.len() implies x[i + a.len() + j] == #[trigger] b[j] by {
        assert(x[i + a.len() + j] == whole[a.len() + j]);
    }
    assert(x.subrange(i, i + a.len()) =~= a);
    assert(x.subrange(i + a.len(), i + a.len() + b.len()) =~= b);
}

/// A run of bare characters ends where something else stands, or the text
/// ends.
pub proof fn bare_run_inside(x: Seq<char>, i: int, e: int)
    requires
        0 <= i <= e <= x.len(),
        forall|j: int| i <= j < e ==> is_bare(#[trigger] x[j]),
        e == x.len() || !is_bare(x[e]),
    ensures
        bare_end(x, i) == e,
    decreases e - i,
{
    if i < e {
        bare_run_inside(x, i + 1, e);
    }
}

/// A string without double quote and without backslash inside ends behind
/// its closing quote.
pub proof fn plain_string_inside(x: Seq<char>, i: int, e: int)
    requires
        0 <= i < e <= x.len(),
        x[e - 1] == '"',
        forall|j: int| i <= j < e - 1 ==> #[trigger] x[j] != '"' && x[j] != '\\',
    ensures
        string_end(x, i) == e,
    decreases e - i,
{
    if i < e - 1 {
        plain_string_inside(x, i + 1, e);
    }
}

/// A separator makes no token.
pub proof fn separator_skipped(x: Seq<char>, i: int)
    requires
        0 <= i < x.len(),
        is_separator(x[i]),
    ensures
        tokens_from(x, i) == tokens_from(x, i + 1),
{
    skip_separators_stops(x, i + 1);
}

/// A token that is no comment is the first of the tokens from its place.
pub proof fn token_at(x: Seq<char>, i: int, e: int)
    requires
        0 <= i < e <= x.len(),
        !is_separator(x[i]),
        x[i] != ';',
        token_end(x, i) == e,
    ensures
        tokens_from(x, i) == seq![x.subrange(i, e)] + tokens_from(x, e),
{
}

/// Joined parts begin with the first part; the others follow joined,
/// behind a separator.
pub proof fn join_left(parts: Seq<Seq<char>>, sep: Seq<char>)
    requires
        parts.len() >= 1,
    ensures
        join_spec(parts, sep) == if parts.len() == 1 {
            parts[0]
        } else {
            parts[0] + sep + join_spec(parts.skip(1), sep)
        },
    decreases parts.len(),
{
    if parts.len() >= 2 {
        let front = parts.drop_last();
        join_left(front, sep);
        let tail = parts.skip(1);
        assert(tail.last() == parts.last());
        if parts.len() == 2 {
            assert(tail.len() == 1);
            assert(front.len() == 1);
            assert(join_spec(tail, sep) == tail[0]);
            assert(join_spec(parts, sep) =~= parts[0] + sep + join_spec(tail, sep));
        } else {
            assert(tail.drop_last() =~= front.skip(1));
            assert(join_spec(tail, sep) == join_spec(tail.drop_last(), sep) + sep + tail.last());
            assert(join_spec(parts, sep) =~= parts[0] + sep + join_spec(tail, sep));
        }
    }
}

/// The text of a plain atom that is no string is made of bare characters,
/// and begins with none that is a token by itself.
pub proof fn atom_is_bare(v: Value)
    requires
        plain(v),
        v is Nil || v is True || v is False || v is Number || v is Sym || v is Keyword,
    ensures
        forall|j: int| 0 <= j < print_spec(v).len() ==> is_bare(#[trigger] print_spec(v)[j]),
        print_spec(v).len() > 0,
        !is_special(print_spec(v)[0]),
        print_spec(v)[0] != '"',
        print_spec(v)[0] != ';',
        !is_separator(print_spec(v)[0]),
{
    let p = print_spec(v);
    reveal_strlit("nil");
    reveal_strlit("true");
    reveal_strlit("false");
    match v {
        Value::Number(n) => {
            let m = (if n < 0 {
                -n
            } else {
                n
            }) as nat;
            crate::laws::digits_read_back(m);
            let d = digits_spec(m);
            assert(is_digit(d[0]));
            if n < 0 {
                assert(p =~= seq!['-'] + d);
                assert forall|j: int| 0 <= j < p.len() implies is_bare(#[trigger] p[j]) by {
                    if j > 0 {
                        assert(p[j] == d[j - 1]);
                    }
                }
            } else {
                assert(p == d);
            }
        },
        Value::Keyword(k) => {
            assert forall|j: int| 0 <= j < p.len() implies is_bare(#[trigger] p[j]) by {
                if j > 0 {
                    assert(p[j] == k[j - 1]);
                }
            }
        },
        Value::Sym(t) => {
            assert(is_bare(t[0]));
        },
        _ => {},
    }
}

/// Where the text of a plain atom stands before a boundary, it is the
/// first of the tokens from there.
pub proof fn atom_scans(x: Seq<char>, i: int, v: Value)
    requires
        plain(v),
        !(v is List),
        !(v is Vec),
        !(v is Dict),
        text_at(x, i, print_spec(v)),
        boundary(x, i + print_spec(v).len()),
    ensures
        tokens_from(x, i) == seq![print_spec(v)] + tokens_from(x, i + print_spec(v).len()),
        print_spec(v).len() > 0,
{
    let t = print_spec(v);
    let e = i + t.len();
    assert forall|j: int| 0 <= j < t.len() implies x[i + j] == t[j] by {
        assert(x[i + j] == x.subrange(i, e)[j]);
    }
    match v {
        Value::String(s) => {
            assert(t =~= seq!['"'] + s + seq!['"']);
            assert(x[i] == t[0]);
            assert(x[e - 1] == t[t.len() - 1]);
            assert forall|j: int| i + 1 <= j < e - 1 implies #[trigger] x[j] != '"' && x[j]
                != '\\' by {
                assert(x[j] == t[j - i]);
                assert(t[j - i] == s[j - i - 1]);
            }
            plain_string_inside(x, i + 1, e);
            token_at(x, i, e);
        },
        _ => {
            atom_is_bare(v);
            assert(x[i] == t[0]);
            assert forall|j: int| i + 1 <= j < e implies is_bare(#[trigger] x[j]) by {
                assert(x[j] == t[j - i]);
            }
            bare_run_inside(x, i + 1, e);
            token_at(x, i, e);
        },
    }
}

/// Where the text of a plain value stands before a boundary, its tokens
/// are the first of the tokens from there.
pub proof fn value_scans(x: Seq<char>, i: int, v: Value)
    requires
        plain(v),
        text_at(x, i, print_spec(v)),
        boundary(x, i + print_spec(v).len()),
    ensures
        tokens_from(x, i) == tokens_of(v) + tokens_from(x, i + print_spec(v).len()),
        print_spec(v).len() > 0,
    decreases v, 0nat,
{
    let t = print_spec(v);
    let e = i + t.len();
    reveal_strlit(" ");
    match v {
        Value::List(items) => {
            let inner = join_spec(prints(items), " "@);
            assert(t =~= seq!['('] + (inner + seq![')']));
            text_at_split(x, i, seq!['('], inner + seq![')']);
            assert(x[i] == seq!['('][0]);
            token_at(x, i, i + 1);
            assert(x.subrange(i, i + 1) =~= seq!['(']);
            assert(prints(items).skip(0) =~= prints(items));
            items_scan(x, i + 1, items, 0, SequenceDel::List);
        },
        Value::Vec(items) => {
            let inner = join_spec(prints(items), " "@);
            assert(t =~= seq!['['] + (inner + seq![']']));
            text_at_split(x, i, seq!['['], inner + seq![']']);
            assert(x[i] == seq!['['][0]);
            token_at(x, i, i + 1);
            assert(x.subrange(i, i + 1) =~= seq!['[']);
            assert(prints(items).skip(0) =~= prints(items));
            items_scan(x, i + 1, items, 0, SequenceDel::Vec);
        },
        Value::Dict(entries) => {
            let inner = join_spec(entry_prints(entries), " "@);
            assert(t =~= seq!['{'] + (inner + seq!['}']));
            text_at_split(x, i, seq!['{'], inner + seq!['}']);
            assert(x[i] == seq!['{'][0]);
            token_at(x, i, i + 1);
            assert(x.subrange(i, i + 1) =~= seq!['{']);
            assert(entry_prints(entries).skip(0) =~= entry_prints(entries));
            entries_scan(x, i + 1, entries, 0);
        },
        _ => {
            atom_scans(x, i, v);
        },
    }
}

/// Where the texts of plain elements stand, one space apart, before the
/// closing bracket, the tokens of the elements from the `k`-th on and the
/// closing token are the first of the tokens from there.
pub proof fn items_scan(x: Seq<char>, i: int, items: Seq<Value>, k: nat, end: SequenceDel)
    requires
        forall|j: int| 0 <= j < items.len() ==> plain(#[trigger] items[j]),
        k <= items.len(),
        end != SequenceDel::Dict,
        text_at(x, i, join_spec(prints(items).skip(k as int), " "@) + closer(end)),
    ensures
        tokens_from(x, i) == tokens_of_from(items, k) + seq![closer(end)] + tokens_from(
            x,
            i + join_spec(prints(items).skip(k as int), " "@).len() + 1,
        ),
    decreases items, items.len() - k,
{
    reveal_strlit(" ");
    let parts = prints(items).skip(k as int);
    let joined = join_spec(parts, " "@);
    text_at_split(x, i, joined, closer(end));
    if k == items.len() {
        assert(parts =~= Seq::<Seq<char>>::empty());
        assert(x[i] == closer(end)[0]);
        token_at(x, i, i + 1);
        assert(x.subrange(i, i + 1) =~= closer(end));
    } else {
        let first = print_spec(items[k as int]);
        let a = first.len() as int;
        assert(parts[0] == first);
        join_left(parts, " "@);
        assert(parts.skip(1) =~= prints(items).skip(k as int + 1));
        let after = join_spec(prints(items).skip(k as int + 1), " "@);
        if parts.len() == 1 {
            assert(prints(items).skip(k as int + 1) =~= Seq::<Seq<char>>::empty());
            assert(x[i + a] == closer(end)[0]);
            value_scans(x, i, items[k as int]);
            assert(after + closer(end) =~= closer(end));
            items_scan(x, i + a, items, k + 1, end);
        } else {
            assert(joined + closer(end) =~= first + (" "@ + (after + closer(end))));
            text_at_split(x, i, first, " "@ + (after + closer(end)));
            text_at_split(x, i + a, " "@, after + closer(end));
            assert(x[i + a] == " "@[0]);
            value_scans(x, i, items[k as int]);
            separator_skipped(x, i + a);
            items_scan(x, i + a + 1, items, k + 1, end);
        }
    }
}

/// Where the texts of the entries of a plain dictionary stand, one space
/// apart, before the closing brace, the tokens of the entries from the
/// `k`-th on and the closing token are the first of the tokens from there.
pub proof fn entries_scan(x: Seq<char>, i: int, entries: Seq<(Seq<char>, Value)>, k: nat)
    requires
        plain(Value::Dict(entries)),
        k <= entries.len(),
        text_at(x, i, join_spec(entry_prints(entries).skip(k as int), " "@) + seq!['}']),
    ensures
        tokens_from(x, i) == tokens_of_entries(entries, k) + seq![seq!['}']] + tokens_from(
            x,
            i + join_spec(entry_prints(entries).skip(k as int), " "@).len() + 1,
        ),
    decreases entries, entries.len() - k,
{
    reveal_strlit(" ");
    let close = seq!['}'];
    let parts = entry_prints(entries).skip(k as int);
    let joined = join_spec(parts, " "@);
    text_at_split(x, i, joined, close);
    if k == entries.len() {
        assert(parts =~= Seq::<Seq<char>>::empty());
        assert(x[i] == close[0]);
        token_at(x, i, i + 1);
        assert(x.subrange(i, i + 1) =~= close);
    } else {
        let key = entries[k as int].0;
        let value = entries[k as int].1;
        let kl = key.len() as int;
        let vt = print_spec(value);
        let vl = vt.len() as int;
        let first = key + " "@ + vt;
        assert(parts[0] == first);
        join_left(parts, " "@);
        assert(parts.skip(1) =~= entry_prints(entries).skip(k as int + 1));
        let after = join_spec(entry_prints(entries).skip(k as int + 1), " "@);
        key_prints(key);
        let tail = if parts.len() == 1 {
            close
        } else {
            " "@ + (after + close)
        };
        assert(joined + close =~= key + (" "@ + (vt + tail)));
        text_at_split(x, i, key, " "@ + (vt + tail));
        text_at_split(x, i + kl, " "@, vt + tail);
        text_at_split(x, i + kl + 1, vt, tail);
        assert(x[i + kl] == " "@[0]);
        atom_scans(x, i, key_value(key));
        separator_skipped(x, i + kl);
        assert(x[i + kl + 1 + vl] == tail[0]);
        value_scans(x, i + kl + 1, value);
        if parts.len() == 1 {
            assert(entry_prints(entries).skip(k as int + 1) =~= Seq::<Seq<char>>::empty());
            assert(after + close =~= close);
            entries_scan(x, i + kl + 1 + vl, entries, k + 1);
        } else {
            text_at_split(x, i + kl + 1 + vl, " "@, after + close);
            separator_skipped(x, i + kl + 1 + vl);
            entries_scan(x, i + kl + 1 + vl + 1, entries, k + 1);
        }
    }
}

/// A plain value comes back from its own text.
pub proof fn plain_value_reads_back(v: Value)
    requires
        plain(v),
    ensures
        read_spec(print_spec(v)) == Ok::<Value, Failure>(v),
{
    let x = print_spec(v);
    assert(x.subrange(0, x.len() as int) =~= x);
    value_scans(x, 0, v);
    assert(tokens_from(x, x.len() as int) =~= Seq::<Seq<char>>::empty());
    let tokens = tokens_of(v);
    assert(tokenize_spec(x) =~= tokens);
    assert(tokens.subrange(0, tokens.len() as int) =~= tokens);
    form_reads_back(tokens, 0, v);
}

} // verus!
