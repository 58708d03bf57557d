//! The host operations: arithmetic, comparison, equality, lists, printing.

use crate::env::{define_spec, env_set_sym, Interp, State};
use crate::error::{result_view, Failure, MalError};
use crate::printer::{builtin_name, pr_items, pr_str, prints, seq_spec};
use crate::outside::join;
use crate::text::{join_spec, texts};
use crate::types::{model_of_sequences, models, values_equal, Builtin, MalValue, Value};
use std::rc::Rc;
use vstd::prelude::*;
use vstd::string::StringExecFns;

verus! {

/// How a failure names the call that failed: the operation's name, then
/// its operands as a list.
pub open spec fn call_text(name: Seq<char>, args: Seq<Value>) -> Seq<char> {
    name + " "@ + seq_spec(args, '(', ')')
}

/// The text by which a failure names the call of `name` on `args`.
fn describe(name: &str, args: &Vec<MalValue>) -> (r: String)
    ensures
        r@ == call_text(name@, models(args@)),
{
    let mut s = String::from_str(name);
    s.append(" ");
    let operands = pr_items(args, '(', ')');
    s.append(operands.as_str());
    s
}

/// Whether `n` is a 64-bit signed integer.
pub open spec fn fits(n: int) -> bool {
    i64::MIN <= n <= i64::MAX
}

/// The quotient of `l` by `r`, rounded toward zero; `r` is not zero.
pub open spec fn quotient(l: int, r: int) -> int {
    if l >= 0 && r > 0 {
        l / r
    } else if l < 0 && r < 0 {
        (-l) / (-r)
    } else if l < 0 {
        -((-l) / r)
    } else {
        -(l / (-r))
    }
}

/// `true` or `false` as a value.
pub open spec fn truth(b: bool) -> Value {
    if b {
        Value::True
    } else {
        Value::False
    }
}

/// `true` or `false` as a value.
fn truth_value(b: bool) -> (r: MalValue)
    ensures
        r@ == truth(b),
{
    if b {
        MalValue::True
    } else {
        MalValue::False
    }
}

/// `+`: the sum of two numbers, where it is a 64-bit integer, or two
/// strings one after the other.
pub open spec fn add_spec(args: Seq<Value>) -> Result<Value, Failure> {
    if args.len() == 2 {
        match (args[0], args[1]) {
            (Value::Number(l), Value::Number(r)) => if fits(l + r) {
                Ok(Value::Number(l + r))
            } else {
                Err(Failure::Arithmetic(call_text("+"@, args)))
            },
            (Value::String(l), Value::String(r)) => Ok(Value::String(l + r)),
            _ => Err(Failure::TypeMismatch(call_text("+"@, args))),
        }
    } else {
        Err(Failure::TypeMismatch(call_text("+"@, args)))
    }
}

/// `-`: the difference of two numbers, where it is a 64-bit integer.
pub open spec fn sub_spec(args: Seq<Value>) -> Result<Value, Failure> {
    if args.len() == 2 {
        match (args[0], args[1]) {
            (Value::Number(l), Value::Number(r)) => if fits(l - r) {
                Ok(Value::Number(l - r))
            } else {
                Err(Failure::Arithmetic(call_text("-"@, args)))
            },
            _ => Err(Failure::TypeMismatch(call_text("-"@, args))),
        }
    } else {
        Err(Failure::TypeMismatch(call_text("-"@, args)))
    }
}

/// `*`: the product of two numbers, where it is a 64-bit integer.
pub open spec fn mult_spec(args: Seq<Value>) -> Result<Value, Failure> {
    if args.len() == 2 {
        match (args[0], args[1]) {
            (Value::Number(l), Value::Number(r)) => if fits(l * r) {
                Ok(Value::Number(l * r))
            } else {
                Err(Failure::Arithmetic(call_text("*"@, args)))
            },
            _ => Err(Failure::TypeMismatch(call_text("*"@, args))),
        }
    } else {
        Err(Failure::TypeMismatch(call_text("*"@, args)))
    }
}

/// `/`: the quotient of two numbers, rounded toward zero, where the divisor
/// is not zero and the quotient is a 64-bit integer.
pub open spec fn div_spec(args: Seq<Value>) -> Result<Value, Failure> {
    if args.len() == 2 {
        match (args[0], args[1]) {
            (Value::Number(l), Value::Number(r)) => if r != 0 && fits(quotient(l, r)) {
                Ok(Value::Number(quotient(l, r)))
            } else {
                Err(Failure::Arithmetic(call_text("/"@, args)))
            },
            _ => Err(Failure::TypeMismatch(call_text("/"@, args))),
        }
    } else {
        Err(Failure::TypeMismatch(call_text("/"@, args)))
    }
}

/// `list`: the operands as a list.
pub open spec fn list_spec(args: Seq<Value>) -> Result<Value, Failure> {
    Ok(Value::List(args))
}

/// `list?`: whether the one operand is a list.
pub open spec fn is_list_spec(args: Seq<Value>) -> Result<Value, Failure> {
    if args.len() == 1 {
        Ok(truth(args[0] is List))
    } else {
        Err(Failure::ArityMismatch(call_text("list?"@, args)))
    }
}

/// `empty?`: whether the one operand, a list, has no element.
pub open spec fn is_empty_spec(args: Seq<Value>) -> Result<Value, Failure> {
    if args.len() == 1 && args[0] is List {
        Ok(truth(args[0]->List_0.len() == 0))
    } else {
        Err(Failure::TypeMismatch(call_text("empty?"@, args)))
    }
}

/// `count`: how many elements the one operand, a list, has.
pub open spec fn count_spec(args: Seq<Value>) -> Result<Value, Failure> {
    if args.len() == 1 && args[0] is List {
        if fits(args[0]->List_0.len() as int) {
            Ok(Value::Number(args[0]->List_0.len() as int))
        } else {
            Err(Failure::Arithmetic(call_text("count"@, args)))
        }
    } else {
        Err(Failure::TypeMismatch(call_text("count"@, args)))
    }
}

/// `=`: whether the two operands are equal.
pub open spec fn eq_spec(args: Seq<Value>) -> Result<Value, Failure> {
    if args.len() == 2 {
        Ok(truth(values_equal(args[0], args[1])))
    } else {
        Err(Failure::ArityMismatch(call_text("="@, args)))
    }
}

/// The two numbers that a comparison is given.
pub open spec fn two_numbers(args: Seq<Value>) -> Option<(int, int)> {
    if args.len() == 2 {
        match (args[0], args[1]) {
            (Value::Number(l), Value::Number(r)) => Some((l, r)),
            _ => None,
        }
    } else {
        None
    }
}

/// `<=` on two numbers.
pub open spec fn lt_eq_spec(args: Seq<Value>) -> Result<Value, Failure> {
    match two_numbers(args) {
        Some((l, r)) => Ok(truth(l <= r)),
        None => Err(Failure::TypeMismatch(call_text("<="@, args))),
    }
}

/// `<` on two numbers.
pub open spec fn lt_spec(args: Seq<Value>) -> Result<Value, Failure> {
    match two_numbers(args) {
        Some((l, r)) => Ok(truth(l < r)),
        None => Err(Failure::TypeMismatch(call_text("<"@, args))),
    }
}

/// `>` on two numbers.
pub open spec fn gt_spec(args: Seq<Value>) -> Result<Value, Failure> {
    match two_numbers(args) {
        Some((l, r)) => Ok(truth(l > r)),
        None => Err(Failure::TypeMismatch(call_text(">"@, args))),
    }
}

/// `>=` on two numbers.
pub open spec fn gt_eq_spec(args: Seq<Value>) -> Result<Value, Failure> {
    match two_numbers(args) {
        Some((l, r)) => Ok(truth(l >= r)),
        None => Err(Failure::TypeMismatch(call_text(">="@, args))),
    }
}

/// The line that `prn` prints: the texts of the operands, one space apart.
pub open spec fn prn_line(args: Seq<Value>) -> Seq<char> {
    join_spec(prints(args), " "@)
}

/// The two numbers that `args` are, if they are just that.
fn numbers_of(args: &Vec<MalValue>) -> (r: Option<(i64, i64)>)
    ensures
        r is Some <==> two_numbers(models(args@)) is Some,
        r matches Some(p) ==> two_numbers(models(args@)) == Some((p.0 as int, p.1 as int)),
{
    if args.len() == 2 {
        match (&args[0], &args[1]) {
            (MalValue::Number(l), MalValue::Number(r)) => Some((*l, *r)),
            _ => None,
        }
    } else {
        None
    }
}

/// `+` on the operands `args`.
pub fn add(args: &Vec<MalValue>) -> (r: Result<MalValue, MalError>)
    ensures
        result_view(r) == add_spec(models(args@)),
{
    if args.len() == 2 {
        match (&args[0], &args[1]) {
            (MalValue::Number(l), MalValue::Number(r)) => {
                match l.checked_add(*r) {
                    Some(n) => Ok(MalValue::Number(n)),
                    None => Err(MalError::Arithmetic(describe("+", args))),
                }
            },
            (MalValue::String(l), MalValue::String(r)) => {
                let mut s = l.clone();
                s.append(r.as_str());
                Ok(MalValue::String(s))
            },
            _ => Err(MalError::TypeMismatch(describe("+", args))),
        }
    } else {
        Err(MalError::TypeMismatch(describe("+", args)))
    }
}

/// `-` on the operands `args`.
pub fn sub(args: &Vec<MalValue>) -> (r: Result<MalValue, MalError>)
    ensures
        result_view(r) == sub_spec(models(args@)),
{
    match numbers_of(args) {
        Some((l, r)) => {
            match l.checked_sub(r) {
                Some(n) => Ok(MalValue::Number(n)),
                None => Err(MalError::Arithmetic(describe("-", args))),
            }
        },
        None => Err(MalError::TypeMismatch(describe("-", args))),
    }
}

/// `*` on the operands `args`.
pub fn mult(args: &Vec<MalValue>) -> (r: Result<MalValue, MalError>)
    ensures
        result_view(r) == mult_spec(models(args@)),
{
    match numbers_of(args) {
        Some((l, r)) => {
            match l.checked_mul(r) {
                Some(n) => Ok(MalValue::Number(n)),
                None => Err(MalError::Arithmetic(describe("*", args))),
            }
        },
        None => Err(MalError::TypeMismatch(describe("*", args))),
    }
}

/// `/` on the operands `args`.
pub fn div(args: &Vec<MalValue>) -> (r: Result<MalValue, MalError>)
    ensures
        result_view(r) == div_spec(models(args@)),
{
    match numbers_of(args) {
        Some((l, r)) => {
            match l.checked_div(r) {
                Some(n) => Ok(MalValue::Number(n)),
                None => Err(MalError::Arithmetic(describe("/", args))),
            }
        },
        None => Err(MalError::TypeMismatch(describe("/", args))),
    }
}

/// `prn` on the operands `args`: records one printed line and gives `nil`.
pub fn prn(interp: &mut Interp, args: &Vec<MalValue>) -> (r: Result<MalValue, MalError>)
    ensures
        result_view(r) == Ok::<Value, Failure>(Value::Nil),
        final(interp)@ == (State {
            scopes: old(interp)@.scopes,
            out: old(interp)@.out.push(prn_line(models(args@))),
        }),
{
    let mut parts: Vec<String> = Vec::new();
    let mut i: usize = 0;
    while i < args.len()
        invariant
            i <= args.len(),
            parts.len() == i,
            forall|k: int| 0 <= k < i ==> (#[trigger] parts@[k])@ == prints(models(args@))[k],
        decreases args.len() - i,
    {
        parts.push(pr_str(&args[i]));
        i += 1;
    }
    proof {
        assert(texts(parts@) =~= prints(models(args@)));
    }
    let line = join(&parts, " ");
    interp.emit(line);
    Ok(MalValue::Nil)
}

/// `list` on the operands `args`.
pub fn list(args: &Vec<MalValue>) -> (r: Result<MalValue, MalError>)
    ensures
        result_view(r) == list_spec(models(args@)),
{
    let mut items: Vec<MalValue> = Vec::new();
    let mut i: usize = 0;
    while i < args.len()
        invariant
            i <= args.len(),
            items.len() == i,
            forall|k: int| 0 <= k < i ==> #[trigger] items@[k] == args@[k],
        decreases args.len() - i,
    {
        items.push(args[i].clone());
        i += 1;
    }
    let r = MalValue::List(Rc::new(items));
    proof {
        model_of_sequences(r);
        assert(models(items@) =~= models(args@));
    }
    Ok(r)
}

/// `list?` on the operands `args`.
pub fn is_list(args: &Vec<MalValue>) -> (r: Result<MalValue, MalError>)
    ensures
        result_view(r) == is_list_spec(models(args@)),
{
    if args.len() == 1 {
        match &args[0] {
            MalValue::List(_) => Ok(MalValue::True),
            _ => Ok(MalValue::False),
        }
    } else {
        Err(MalError::ArityMismatch(describe("list?", args)))
    }
}

/// `empty?` on the operands `args`.
pub fn is_empty(args: &Vec<MalValue>) -> (r: Result<MalValue, MalError>)
    ensures
        result_view(r) == is_empty_spec(models(args@)),
{
    if args.len() == 1 {
        proof {
            model_of_sequences(args@[0]);
        }
        match &args[0] {
            MalValue::List(l) => Ok(truth_value(l.len() == 0)),
            _ => Err(MalError::TypeMismatch(describe("empty?", args))),
        }
    } else {
        Err(MalError::TypeMismatch(describe("empty?", args)))
    }
}

/// `count` on the operands `args`.
pub fn count(args: &Vec<MalValue>) -> (r: Result<MalValue, MalError>)
    ensures
        result_view(r) == count_spec(models(args@)),
{
    if args.len() == 1 {
        proof {
            model_of_sequences(args@[0]);
        }
        match &args[0] {
            MalValue::List(l) => {
                let n: u64 = l.len() as u64;
                if n <= 0x7fff_ffff_ffff_ffff {
                    Ok(MalValue::Number(n as i64))
                } else {
                    Err(MalError::Arithmetic(describe("count", args)))
                }
            },
            _ => Err(MalError::TypeMismatch(describe("count", args))),
        }
    } else {
        Err(MalError::TypeMismatch(describe("count", args)))
    }
}

/// `=` on the operands `args`.
pub fn eq(args: &Vec<MalValue>) -> (r: Result<MalValue, MalError>)
    ensures
        result_view(r) == eq_spec(models(args@)),
{
    if args.len() == 2 {
        Ok(truth_value(args[0].equals(&args[1])))
    } else {
        Err(MalError::ArityMismatch(describe("=", args)))
    }
}

/// `<=` on the operands `args`.
pub fn lt_eq(args: &Vec<MalValue>) -> (r: Result<MalValue, MalError>)
    ensures
        result_view(r) == lt_eq_spec(models(args@)),
{
    match numbers_of(args) {
        Some((l, r)) => Ok(truth_value(l <= r)),
        None => Err(MalError::TypeMismatch(describe("<=", args))),
    }
}

/// `<` on the operands `args`.
pub fn lt(args: &Vec<MalValue>) -> (r: Result<MalValue, MalError>)
    ensures
        result_view(r) == lt_spec(models(args@)),
{
    match numbers_of(args) {
        Some((l, r)) => Ok(truth_value(l < r)),
        None => Err(MalError::TypeMismatch(describe("<", args))),
    }
}

/// `>` on the operands `args`.
pub fn gt(args: &Vec<MalValue>) -> (r: Result<MalValue, MalError>)
    ensures
        result_view(r) == gt_spec(models(args@)),
{
    match numbers_of(args) {
        Some((l, r)) => Ok(truth_value(l > r)),
        None => Err(MalError::TypeMismatch(describe(">", args))),
    }
}

/// `>=` on the operands `args`.
pub fn gt_eq(args: &Vec<MalValue>) -> (r: Result<MalValue, MalError>)
    ensures
        result_view(r) == gt_eq_spec(models(args@)),
{
    match numbers_of(args) {
        Some((l, r)) => Ok(truth_value(l >= r)),
        None => Err(MalError::TypeMismatch(describe(">=", args))),
    }
}

/// What the host operation `b` does on the operands `args`: `prn` adds a
/// line to what was printed; no other changes the state.
pub open spec fn builtin_spec(s: State, b: Builtin, args: Seq<Value>) -> (
    State,
    Result<Value, Failure>,
) {
    match b {
        Builtin::Add => (s, add_spec(args)),
        Builtin::Sub => (s, sub_spec(args)),
        Builtin::Mult => (s, mult_spec(args)),
        Builtin::Div => (s, div_spec(args)),
        Builtin::Prn => (State { scopes: s.scopes, out: s.out.push(prn_line(args)) }, Ok(Value::Nil)),
        Builtin::List => (s, list_spec(args)),
        Builtin::IsList => (s, is_list_spec(args)),
        Builtin::IsEmpty => (s, is_empty_spec(args)),
        Builtin::Count => (s, count_spec(args)),
        Builtin::Eq => (s, eq_spec(args)),
        Builtin::LtEq => (s, lt_eq_spec(args)),
        Builtin::Lt => (s, lt_spec(args)),
        Builtin::Gt => (s, gt_spec(args)),
        Builtin::GtEq => (s, gt_eq_spec(args)),
    }
}

/// Runs the host operation `b` on the operands `args`.
pub fn call_builtin(interp: &mut Interp, b: Builtin, args: &Vec<MalValue>) -> (r: Result<
    MalValue,
    MalError,
>)
    ensures
        (final(interp)@, result_view(r)) == builtin_spec(old(interp)@, b, models(args@)),
        final(interp)@.scopes == old(interp)@.scopes,
{
    match b {
        Builtin::Add => crate::base_fn::add(args),
        Builtin::Sub => crate::base_fn::sub(args),
        Builtin::Mult => mult(args),
        Builtin::Div => div(args),
        Builtin::Prn => prn(interp, args),
        Builtin::List => list(args),
        Builtin::IsList => is_list(args),
        Builtin::IsEmpty => is_empty(args),
        Builtin::Count => count(args),
        Builtin::Eq => eq(args),
        Builtin::LtEq => lt_eq(args),
        Builtin::Lt => lt(args),
        Builtin::Gt => gt(args),
        Builtin::GtEq => gt_eq(args),
    }
}

/// Every host operation, in the order in which `install` defines them.
pub open spec fn all_builtins() -> Seq<Builtin> {
    seq![
        Builtin::Add,
        Builtin::Sub,
        Builtin::Mult,
        Builtin::Div,
        Builtin::Prn,
        Builtin::List,
        Builtin::IsList,
        Builtin::IsEmpty,
        Builtin::Count,
        Builtin::Eq,
        Builtin::LtEq,
        Builtin::Lt,
        Builtin::Gt,
        Builtin::GtEq,
    ]
}

/// The state after the first `k` host operations were defined in the scope
/// `env`, each under its name.
pub open spec fn install_spec(s: State, env: nat, k: nat) -> State
    decreases k,
{
    if k == 0 {
        s
    } else {
        let b = all_builtins()[k - 1];
        define_spec(install_spec(s, env, (k - 1) as nat), env, builtin_name(b), Value::Function(b))
    }
}

/// Defines every host operation in the scope `env`, under its name.
pub fn install(interp: &mut Interp, env: usize)
    requires
        env < old(interp)@.scopes.len(),
    ensures
        final(interp)@ == install_spec(old(interp)@, env as nat, all_builtins().len()),
        final(interp)@.scopes.len() == old(interp)@.scopes.len(),
{
    let table: [Builtin; 14] = [
        Builtin::Add,
        Builtin::Sub,
        Builtin::Mult,
        Builtin::Div,
        Builtin::Prn,
        Builtin::List,
        Builtin::IsList,
        Builtin::IsEmpty,
        Builtin::Count,
        Builtin::Eq,
        Builtin::LtEq,
        Builtin::Lt,
        Builtin::Gt,
        Builtin::GtEq,
    ];
    assert(table@ =~= all_builtins());
    let mut k: usize = 0;
    while k < 14
        invariant
            k <= 14,
            table@ == all_builtins(),
            env < interp@.scopes.len(),
            interp@.scopes.len() == old(interp)@.scopes.len(),
            interp@ == install_spec(old(interp)@, env as nat, k as nat),
        decreases 14 - k,
    {
        let b = table[k];
        env_set_sym(interp, env, String::from_str(b.name()), MalValue::Function(b));
        k += 1;
    }
}

} // verus!
