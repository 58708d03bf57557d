//! The printer: the text of a value.

use crate::outside::{join, push_char};
use crate::text::{decimal_spec, join_spec, push_decimal, texts};
use crate::types::{model_of_sequences, models, entry_models, Builtin, MalValue, Value};
use std::rc::Rc;
use vstd::prelude::*;
use vstd::string::StringExecFns;

verus! {

/// The name under which a host operation is known to the language.
pub open spec fn builtin_name(b: Builtin) -> Seq<char> {
    match b {
        Builtin::Add => "+"@,
        Builtin::Sub => "-"@,
        Builtin::Mult => "*"@,
        Builtin::Div => "/"@,
        Builtin::Prn => "prn"@,
        Builtin::List => "list"@,
        Builtin::IsList => "list?"@,
        Builtin::IsEmpty => "empty?"@,
        Builtin::Count => "count"@,
        Builtin::Eq => "="@,
        Builtin::LtEq => "<="@,
        Builtin::Lt => "<"@,
        Builtin::Gt => ">"@,
        Builtin::GtEq => ">="@,
    }
}

impl Builtin {
    /// The name under which this operation is known to the language.
    pub fn name(self) -> (r: &'static str)
        ensures
            r@ == builtin_name(self),
    {
        match self {
            Builtin::Add => "+",
            Builtin::Sub => "-",
            Builtin::Mult => "*",
            Builtin::Div => "/",
            Builtin::Prn => "prn",
            Builtin::List => "list",
            Builtin::IsList => "list?",
            Builtin::IsEmpty => "empty?",
            Builtin::Count => "count",
            Builtin::Eq => "=",
            Builtin::LtEq => "<=",
            Builtin::Lt => "<",
            Builtin::Gt => ">",
            Builtin::GtEq => ">=",
        }
    }
}

/// The text of a value: `nil`, `true`, `false`; a number in decimal; a
/// symbol as it is; a string between double quotes, with nothing escaped; a
/// keyword behind a colon; a list between round brackets and a vector
/// between square ones, the elements one space apart; a dictionary between
/// braces, each key one space before its value; a function as a
/// placeholder.
pub open spec fn print_spec(v: Value) -> Seq<char>
    decreases v, 0int,
{
    match v {
        Value::Nil => "nil"@,
        Value::True => "true"@,
        Value::False => "false"@,
        Value::Number(n) => decimal_spec(n),
        Value::Sym(s) => s,
        Value::String(s) => seq!['"'] + s + seq!['"'],
        Value::Keyword(s) => seq![':'] + s,
        Value::List(l) => seq_spec(l, '(', ')'),
        Value::Vec(l) => seq_spec(l, '[', ']'),
        Value::Dict(m) => seq!['{'] + join_spec(entry_prints(m), " "@) + seq!['}'],
        Value::Function(b) => "<fn "@ + builtin_name(b) + ">"@,
        Value::Closure { env, params, body } => "<fn closure>"@,
    }
}

/// The texts of the elements of `items`.
pub open spec fn prints(items: Seq<Value>) -> Seq<Seq<char>>
    decreases items, 0int,
{
    Seq::new(
        items.len(),
        |i: int|
            if 0 <= i < items.len() {
                print_spec(items[i])
            } else {
                Seq::empty()
            },
    )
}

/// The texts of the entries of a dictionary: the key, a space, the value.
pub open spec fn entry_prints(entries: Seq<(Seq<char>, Value)>) -> Seq<Seq<char>>
    decreases entries, 0int,
{
    Seq::new(
        entries.len(),
        |i: int|
            if 0 <= i < entries.len() {
                entries[i].0 + " "@ + print_spec(entries[i].1)
            } else {
                Seq::empty()
            },
    )
}

/// The text of a sequence: `start`, the elements one space apart, `end`.
pub open spec fn seq_spec(items: Seq<Value>, start: char, end: char) -> Seq<char>
    decreases items, 1int,
{
    seq![start] + join_spec(prints(items), " "@) + seq![end]
}

/// The text of a value.
pub fn pr_str(val: &MalValue) -> (r: String)
    ensures
        r@ == print_spec(val@),
    decreases val, 0int,
{
    proof {
        model_of_sequences(*val);
    }
    match val {
        MalValue::Nil => String::from_str("nil"),
        MalValue::True => String::from_str("true"),
        MalValue::False => String::from_str("false"),
        MalValue::Number(num) => {
            let mut s = String::new();
            push_decimal(&mut s, *num);
            assert(s@ =~= decimal_spec(*num as int));
            s
        },
        MalValue::Sym(sym) => sym.clone(),
        MalValue::String(text) => {
            let mut s = String::new();
            push_char(&mut s, '"');
            s.append(text.as_str());
            push_char(&mut s, '"');
            assert(s@ =~= seq!['"'] + text@ + seq!['"']);
            s
        },
        MalValue::Keyword(name) => {
            let mut s = String::new();
            push_char(&mut s, ':');
            s.append(name.as_str());
            assert(s@ =~= seq![':'] + name@);
            s
        },
        MalValue::List(list) => {
            proof {
                assert((*val)->List_0 == *list);
                assert(decreases_to!(*val => (*val)->List_0));
            }
            pr_items(list, '(', ')')
        },
        MalValue::Vec(list) => {
            proof {
                assert((*val)->Vec_0 == *list);
                assert(decreases_to!(*val => (*val)->Vec_0));
            }
            pr_items(list, '[', ']')
        },
        MalValue::Dict(map) => {
            let entries = map.entries();
            let mut parts: Vec<String> = Vec::new();
            let mut i: usize = 0;
            while i < entries.len()
                invariant
                    i <= entries.len(),
                    parts.len() == i,
                    *val == MalValue::Dict(*map),
                    decreases_to!(**map => *entries),
                    forall|k: int|
                        0 <= k < i ==> (#[trigger] parts@[k])@ == entry_prints(
                            entry_models(entries@),
                        )[k],
                decreases entries.len() - i,
            {
                proof {
                    assert((*val)->Dict_0 == *map);
                    assert(decreases_to!(*val => (*val)->Dict_0));
                    assert(decreases_to!(*entries => entries@));
                    assert(decreases_to!(entries@ => entries@[i as int]));
                    assert(decreases_to!(entries@[i as int] => entries@[i as int].1));
                }
                let mut part = entries[i].0.clone();
                part.append(" ");
                let value = pr_str(&entries[i].1);
                part.append(value.as_str());
                parts.push(part);
                i += 1;
            }
            let body = join(&parts, " ");
            let mut s = String::new();
            push_char(&mut s, '{');
            s.append(body.as_str());
            push_char(&mut s, '}');
            proof {
                assert(texts(parts@) =~= entry_prints(entry_models(entries@)));
                assert(s@ =~= seq!['{'] + body@ + seq!['}']);
            }
            s
        },
        MalValue::Function(fun) => {
            let mut s = String::from_str("<fn ");
            s.append(fun.name());
            s.append(">");
            s
        },
        MalValue::Closure { env, params, ast } => String::from_str("<fn closure>"),
    }
}

/// The text of a sequence of values: `start`, the texts of the values one
/// space apart, `end`.
pub fn pr_seq(vals: Rc<Vec<MalValue>>, start: char, end: char) -> (r: String)
    ensures
        r@ == seq_spec(models(vals@), start, end),
{
    pr_items(&vals, start, end)
}

/// `pr_seq` on a borrowed sequence.
pub fn pr_items(vals: &Vec<MalValue>, start: char, end: char) -> (r: String)
    ensures
        r@ == seq_spec(models(vals@), start, end),
    decreases vals, 1int,
{
    let mut parts: Vec<String> = Vec::new();
    let mut i: usize = 0;
    while i < vals.len()
        invariant
            i <= vals.len(),
            parts.len() == i,
            forall|k: int| 0 <= k < i ==> (#[trigger] parts@[k])@ == prints(models(vals@))[k],
        decreases vals.len() - i,
    {
        let part = pr_str(&vals[i]);
        parts.push(part);
        i += 1;
    }
    let body = join(&parts, " ");
    let mut s = String::new();
    push_char(&mut s, start);
    s.append(body.as_str());
    push_char(&mut s, end);
    proof {
        assert(texts(parts@) =~= prints(models(vals@)));
        assert(s@ =~= seq![start] + body@ + seq![end]);
    }
    s
}

} // verus!
