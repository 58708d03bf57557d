//! The value model: every datum and every piece of code is a `MalValue`.

use std::rc::Rc;
use vstd::prelude::*;

verus! {

/// The host operations that the language offers under fixed names.
#[derive(Clone, Copy, Debug, PartialEq, Eq, Structural)]
pub enum Builtin {
    Add,
    Sub,
    Mult,
    Div,
    Prn,
    List,
    IsList,
    IsEmpty,
    Count,
    Eq,
    LtEq,
    Lt,
    Gt,
    GtEq,
}

/// A value of the language.
///
/// Sequences are shared, never changed in place. A closure names the scope
/// it was made in by that scope's handle.
#[derive(Debug)]
pub enum MalValue {
    /// `nil`.
    Nil,
    /// `true`.
    True,
    /// `false`.
    False,
    /// A 64-bit signed integer.
    Number(i64),
    /// A symbol: it stands for the value that its name is bound to.
    Sym(String),
    /// A keyword, by its name without the colon.
    Keyword(String),
    /// A string, by its text without the quotes.
    String(String),
    /// A list: code, unless it is empty.
    List(Rc<Vec<MalValue>>),
    /// A vector: data, never code.
    Vec(Rc<Vec<MalValue>>),
    /// A dictionary.
    Dict(Rc<Dict>),
    /// A host operation.
    Function(Builtin),
    /// A function of the language: the scope it was made in, its parameter
    /// pattern and its body.
    Closure { env: usize, params: Rc<MalValue>, ast: Rc<MalValue> },
}

/// The entries of a dictionary, in the order in which their keys first
/// came. The keys are in printable form: a string in its quotes, a keyword
/// behind its colon. No key occurs twice.
#[derive(Debug)]
pub struct Dict {
    entries: Vec<(String, MalValue)>,
}

/// The mathematical model of a `MalValue`.
pub enum Value {
    Nil,
    True,
    False,
    Number(int),
    Sym(Seq<char>),
    Keyword(Seq<char>),
    String(Seq<char>),
    List(Seq<Value>),
    Vec(Seq<Value>),
    Dict(Seq<(Seq<char>, Value)>),
    Function(Builtin),
    Closure { env: nat, params: Box<Value>, body: Box<Value> },
}

/// The model of one value.
pub open spec fn model(v: MalValue) -> Value
    decreases v, 0nat,
{
    match v {
        MalValue::Nil => Value::Nil,
        MalValue::True => Value::True,
        MalValue::False => Value::False,
        MalValue::Number(n) => Value::Number(n as int),
        MalValue::Sym(s) => Value::Sym(s@),
        MalValue::Keyword(s) => Value::Keyword(s@),
        MalValue::String(s) => Value::String(s@),
        MalValue::List(l) => Value::List(
            Seq::new(
                l@.len(),
                |i: int|
                    if 0 <= i < l@.len() {
                        model(l@[i])
                    } else {
                        Value::Nil
                    },
            ),
        ),
        MalValue::Vec(l) => Value::Vec(
            Seq::new(
                l@.len(),
                |i: int|
                    if 0 <= i < l@.len() {
                        model(l@[i])
                    } else {
                        Value::Nil
                    },
            ),
        ),
        MalValue::Dict(m) => Value::Dict(m.model()),
        MalValue::Function(b) => Value::Function(b),
        MalValue::Closure { env, params, ast } => Value::Closure {
            env: env as nat,
            params: Box::new(model(*params)),
            body: Box::new(model(*ast)),
        },
    }
}

impl View for MalValue {
    type V = Value;

    open spec fn view(&self) -> Value {
        model(*self)
    }
}

/// The models of a sequence of values.
pub open spec fn models(s: Seq<MalValue>) -> Seq<Value> {
    Seq::new(s.len(), |i: int| model(s[i]))
}

/// The models of a sequence of dictionary entries.
pub open spec fn entry_models(s: Seq<(String, MalValue)>) -> Seq<(Seq<char>, Value)> {
    Seq::new(s.len(), |i: int| (s[i].0@, model(s[i].1)))
}

/// What the model of each kind of sequence is, over `models`.
pub proof fn model_of_sequences(v: MalValue)
    ensures
        v matches MalValue::List(l) ==> v@ == Value::List(models(l@)),
        v matches MalValue::Vec(l) ==> v@ == Value::Vec(models(l@)),
        v matches MalValue::Dict(m) ==> v@ == Value::Dict(m.model()),
{
    match v {
        MalValue::List(l) => {
            assert(v@->List_0 =~= models(l@));
        },
        MalValue::Vec(l) => {
            assert(v@->Vec_0 =~= models(l@));
        },
        _ => {},
    }
}

/// No key occurs twice among `entries`.
pub open spec fn keys_unique(entries: Seq<(Seq<char>, Value)>) -> bool {
    forall|i: int, j: int|
        0 <= i < j < entries.len() ==> (#[trigger] entries[i]).0 != (#[trigger] entries[j]).0
}

/// The first place from `i` on where `entries` holds `key`, or the length
/// of `entries`.
pub open spec fn key_position(entries: Seq<(Seq<char>, Value)>, key: Seq<char>, i: int) -> int
    decreases entries.len() - i,
{
    if 0 <= i < entries.len() && entries[i].0 != key {
        key_position(entries, key, i + 1)
    } else {
        i
    }
}

/// `entries` with `value` under `key`: in the place of the entry that had
/// the key, else at the end.
pub open spec fn dict_insert(entries: Seq<(Seq<char>, Value)>, key: Seq<char>, value: Value) -> Seq<
    (Seq<char>, Value),
> {
    let p = key_position(entries, key, 0);
    if 0 <= p < entries.len() {
        entries.update(p, (key, value))
    } else {
        entries.push((key, value))
    }
}

/// The dictionary that `pairs` make when they are inserted one by one.
pub open spec fn dict_of(pairs: Seq<(Seq<char>, Value)>) -> Seq<(Seq<char>, Value)>
    decreases pairs.len(),
{
    if pairs.len() == 0 {
        Seq::empty()
    } else {
        dict_insert(dict_of(pairs.drop_last()), pairs.last().0, pairs.last().1)
    }
}

/// Where `key_position` stops: at the first entry from `i` on that has the
/// key, or behind the last entry where none has it.
pub proof fn key_position_is_first(entries: Seq<(Seq<char>, Value)>, key: Seq<char>, i: int)
    requires
        0 <= i <= entries.len(),
    ensures
        i <= key_position(entries, key, i) <= entries.len(),
        key_position(entries, key, i) < entries.len() ==> entries[key_position(
            entries,
            key,
            i,
        )].0 == key,
        forall|j: int| i <= j < key_position(entries, key, i) ==> (#[trigger] entries[j]).0 != key,
    decreases entries.len() - i,
{
    if i < entries.len() && entries[i].0 != key {
        key_position_is_first(entries, key, i + 1);
    }
}

/// Pairs whose keys differ make the dictionary that holds just them, in
/// their order.
pub proof fn dict_of_unique(pairs: Seq<(Seq<char>, Value)>)
    requires
        keys_unique(pairs),
    ensures
        dict_of(pairs) == pairs,
    decreases pairs.len(),
{
    if pairs.len() > 0 {
        let front = pairs.drop_last();
        dict_of_unique(front);
        key_position_is_first(front, pairs.last().0, 0);
        let p = key_position(front, pairs.last().0, 0);
        if p < front.len() {
            assert(front[p] == pairs[p]);
            assert(pairs[p].0 != pairs[pairs.len() - 1].0);
        }
        assert(front.push(pairs.last()) =~= pairs);
    } else {
        assert(pairs =~= Seq::empty());
    }
}

impl Dict {
    #[verifier::type_invariant]
    spec fn keys_once(self) -> bool {
        forall|i: int, j: int|
            0 <= i < j < self.entries@.len() ==> (#[trigger] self.entries@[i]).0@ != (
            #[trigger] self.entries@[j]).0@
    }

    /// The entries, each key with the model of its value.
    pub closed spec fn model(&self) -> Seq<(Seq<char>, Value)>
        decreases self, 1nat,
    {
        Seq::new(
            self.entries@.len(),
            |i: int|
                if 0 <= i < self.entries@.len() {
                    (self.entries@[i].0@, model(self.entries@[i].1))
                } else {
                    (Seq::empty(), Value::Nil)
                },
        )
    }

    /// A dictionary without entries.
    pub fn new() -> (r: Self)
        ensures
            r.model() == Seq::<(Seq<char>, Value)>::empty(),
    {
        let r = Dict { entries: Vec::new() };
        assert(r.model() =~= Seq::<(Seq<char>, Value)>::empty());
        r
    }

    /// The entries in their order.
    pub fn entries(&self) -> (r: &Vec<(String, MalValue)>)
        ensures
            entry_models(r@) == self.model(),
            keys_unique(self.model()),
            decreases_to!(self => r),
    {
        proof {
            use_type_invariant(self);
            assert(entry_models(self.entries@) =~= self.model());
        }
        &self.entries
    }

    /// This dictionary with `value` under `key`: in the place of the entry
    /// that had the key, else at the end.
    pub fn insert(self, key: String, value: MalValue) -> (r: Self)
        ensures
            r.model() == dict_insert(self.model(), key@, value@),
    {
        proof {
            use_type_invariant(&self);
        }
        let ghost before = self.model();
        let mut entries = self.entries;
        let mut i: usize = 0;
        while i < entries.len() && entries[i].0 != key
            invariant
                i <= entries.len(),
                entries@ == self.entries@,
                before == self.model(),
                key_position(before, key@, i as int) == key_position(before, key@, 0),
                forall|k: int| 0 <= k < i ==> (#[trigger] entries@[k]).0@ != key@,
            decreases entries.len() - i,
        {
            i += 1;
        }
        if i < entries.len() {
            entries.set(i, (key, value));
        } else {
            entries.push((key, value));
        }
        let r = Dict { entries };
        proof {
            if i < before.len() {
                assert(r.model() =~= before.update(i as int, (key@, value@)));
            } else {
                assert(r.model() =~= before.push((key@, value@)));
            }
        }
        r
    }

    /// The dictionary that `pairs` make when they are inserted one by one.
    pub fn from_pairs(pairs: Vec<(String, MalValue)>) -> (r: Self)
        ensures
            r.model() == dict_of(entry_models(pairs@)),
    {
        let ghost all = entry_models(pairs@);
        let mut r = Dict::new();
        let mut i: usize = 0;
        proof {
            assert(all.take(0) =~= Seq::empty());
        }
        while i < pairs.len()
            invariant
                i <= pairs.len(),
                all == entry_models(pairs@),
                r.model() == dict_of(all.take(i as int)),
            decreases pairs.len() - i,
        {
            proof {
                let prefix = all.take(i + 1);
                assert(prefix.drop_last() =~= all.take(i as int));
                assert(prefix.last() == (pairs@[i as int].0@, pairs@[i as int].1@));
            }
            r = r.insert(pairs[i].0.clone(), pairs[i].1.clone());
            i += 1;
        }
        proof {
            assert(all.take(pairs.len() as int) =~= all);
        }
        r
    }
}

/// Equality of values as the language sees it: by structure, element by
/// element; two dictionaries are equal when they have as many entries and
/// each entry of the first has its key in the second with an equal value;
/// two functions are equal when they are the same host operation; two
/// closures when they were made in the same scope from equal parameters
/// and bodies.
pub open spec fn values_equal(a: Value, b: Value) -> bool
    decreases a,
{
    match (a, b) {
        (Value::Nil, Value::Nil) => true,
        (Value::True, Value::True) => true,
        (Value::False, Value::False) => true,
        (Value::Number(x), Value::Number(y)) => x == y,
        (Value::Sym(x), Value::Sym(y)) => x == y,
        (Value::Keyword(x), Value::Keyword(y)) => x == y,
        (Value::String(x), Value::String(y)) => x == y,
        (Value::List(x), Value::List(y)) => seqs_equal(x, y),
        (Value::Vec(x), Value::Vec(y)) => seqs_equal(x, y),
        (Value::Dict(x), Value::Dict(y)) => x.len() == y.len() && forall|i: int|
            0 <= i < x.len() ==> entry_in(#[trigger] x[i], y),
        (Value::Function(x), Value::Function(y)) => x == y,
        (
            Value::Closure { env: e1, params: p1, body: b1 },
            Value::Closure { env: e2, params: p2, body: b2 },
        ) => e1 == e2 && values_equal(*p1, *p2) && values_equal(*b1, *b2),
        _ => false,
    }
}

/// Two sequences of equal length whose elements are equal one by one.
pub open spec fn seqs_equal(x: Seq<Value>, y: Seq<Value>) -> bool
    decreases x,
{
    x.len() == y.len() && forall|i: int| 0 <= i < x.len() ==> values_equal(#[trigger] x[i], y[i])
}

/// Whether `entries` holds the key of `e` with a value equal to that of `e`.
pub open spec fn entry_in(e: (Seq<char>, Value), entries: Seq<(Seq<char>, Value)>) -> bool
    decreases e,
{
    exists|j: int|
        0 <= j < entries.len() && (#[trigger] entries[j]).0 == e.0 && values_equal(
            e.1,
            entries[j].1,
        )
}

impl Clone for MalValue {
    /// A copy that shares its sequences with the value it was made from.
    fn clone(&self) -> (r: Self)
        ensures
            r == *self,
    {
        match self {
            MalValue::Nil => MalValue::Nil,
            MalValue::True => MalValue::True,
            MalValue::False => MalValue::False,
            MalValue::Number(n) => MalValue::Number(*n),
            MalValue::Sym(s) => MalValue::Sym(s.clone()),
            MalValue::Keyword(s) => MalValue::Keyword(s.clone()),
            MalValue::String(s) => MalValue::String(s.clone()),
            MalValue::List(l) => MalValue::List(Rc::clone(l)),
            MalValue::Vec(l) => MalValue::Vec(Rc::clone(l)),
            MalValue::Dict(m) => MalValue::Dict(Rc::clone(m)),
            MalValue::Function(b) => MalValue::Function(*b),
            MalValue::Closure { env, params, ast } => MalValue::Closure {
                env: *env,
                params: Rc::clone(params),
                ast: Rc::clone(ast),
            },
        }
    }
}

/// Whether two sequences of values are equal one by one.
fn sequences_equal(x: &Vec<MalValue>, y: &Vec<MalValue>) -> (r: bool)
    ensures
        r == seqs_equal(models(x@), models(y@)),
    decreases x, 0int,
{
    if x.len() != y.len() {
        return false;
    }
    let mut i: usize = 0;
    while i < x.len()
        invariant
            i <= x.len(),
            x.len() == y.len(),
            forall|j: int| 0 <= j < i ==> values_equal(#[trigger] models(x@)[j], models(y@)[j]),
        decreases x.len() - i,
    {
        if !x[i].equals(&y[i]) {
            assert(!values_equal(models(x@)[i as int], models(y@)[i as int]));
            return false;
        }
        i += 1;
    }
    true
}

/// Whether `entries` holds `key` with a value equal to `value`.
fn entry_present(key: &String, value: &MalValue, entries: &Vec<(String, MalValue)>) -> (r: bool)
    ensures
        r == entry_in((key@, value@), entry_models(entries@)),
    decreases value, 1int,
{
    let mut j: usize = 0;
    while j < entries.len()
        invariant
            j <= entries.len(),
            forall|k: int|
                0 <= k < j ==> !((#[trigger] entry_models(entries@)[k]).0 == key@ && values_equal(
                    value@,
                    entry_models(entries@)[k].1,
                )),
        decreases entries.len() - j,
    {
        if *key == entries[j].0 && value.equals(&entries[j].1) {
            assert(entry_models(entries@)[j as int].0 == key@);
            return true;
        }
        j += 1;
    }
    false
}

impl MalValue {
    /// Equality as the language sees it.
    pub fn equals(&self, other: &MalValue) -> (r: bool)
        ensures
            r == values_equal(self@, other@),
        decreases self, 0int,
    {
        proof {
            model_of_sequences(*self);
            model_of_sequences(*other);
        }
        match (self, other) {
            (MalValue::Nil, MalValue::Nil) => true,
            (MalValue::True, MalValue::True) => true,
            (MalValue::False, MalValue::False) => true,
            (MalValue::Number(x), MalValue::Number(y)) => *x == *y,
            (MalValue::Sym(x), MalValue::Sym(y)) => *x == *y,
            (MalValue::Keyword(x), MalValue::Keyword(y)) => *x == *y,
            (MalValue::String(x), MalValue::String(y)) => *x == *y,
            (MalValue::List(x), MalValue::List(y)) => {
                proof {
                    assert((*self)->List_0 == *x);
                    assert(decreases_to!(*self => (*self)->List_0));
                }
                sequences_equal(x, y)
            },
            (MalValue::Vec(x), MalValue::Vec(y)) => {
                proof {
                    assert((*self)->Vec_0 == *x);
                    assert(decreases_to!(*self => (*self)->Vec_0));
                }
                sequences_equal(x, y)
            },
            (MalValue::Dict(a), MalValue::Dict(b)) => {
                let x = a.entries();
                let y = b.entries();
                if x.len() != y.len() {
                    return false;
                }
                let mut i: usize = 0;
                while i < x.len()
                    invariant
                        i <= x.len(),
                        x.len() == y.len(),
                        *self == MalValue::Dict(*a),
                        decreases_to!(**a => *x),
                        self@ == Value::Dict(entry_models(x@)),
                        other@ == Value::Dict(entry_models(y@)),
                        forall|k: int|
                            0 <= k < i ==> entry_in(
                                #[trigger] entry_models(x@)[k],
                                entry_models(y@),
                            ),
                    decreases x.len() - i,
                {
                    proof {
                        assert((*self)->Dict_0 == *a);
                        assert(decreases_to!(*self => (*self)->Dict_0));
                        assert(decreases_to!(*x => x@));
                        assert(decreases_to!(x@ => x@[i as int]));
                        assert(decreases_to!(x@[i as int] => x@[i as int].1));
                    }
                    if !entry_present(&x[i].0, &x[i].1, y) {
                        assert(!entry_in(entry_models(x@)[i as int], entry_models(y@)));
                        return false;
                    }
                    i += 1;
                }
                true
            },
            (MalValue::Function(x), MalValue::Function(y)) => *x == *y,
            (
                MalValue::Closure { env: e1, params: p1, ast: b1 },
                MalValue::Closure { env: e2, params: p2, ast: b2 },
            ) => *e1 == *e2 && p1.equals(p2) && b1.equals(b2),
            _ => false,
        }
    }
}

impl PartialEq for MalValue {
    fn eq(&self, other: &MalValue) -> (r: bool) {
        self.equals(other)
    }
}

impl vstd::std_specs::cmp::PartialEqSpecImpl for MalValue {
    open spec fn obeys_eq_spec() -> bool {
        true
    }

    open spec fn eq_spec(&self, other: &MalValue) -> bool {
        values_equal(self@, other@)
    }
}

} // verus!
