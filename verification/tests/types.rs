use mal_rust::types::{Builtin, Dict, MalValue};
use std::rc::Rc;

fn num(n: i64) -> MalValue {
    MalValue::Number(n)
}

#[test]
fn a_dictionary_keeps_each_key_once() {
    let d = Dict::new()
        .insert(":a".to_string(), num(1))
        .insert(":b".to_string(), num(2))
        .insert(":a".to_string(), num(3));
    assert_eq!(
        d.entries(),
        &vec![(":a".to_string(), num(3)), (":b".to_string(), num(2))]
    );
    assert_eq!(Dict::new().entries(), &Vec::new());
}

#[test]
fn from_pairs_inserts_in_order() {
    let d = Dict::from_pairs(vec![
        (":x".to_string(), num(1)),
        (":y".to_string(), num(2)),
        (":x".to_string(), num(3)),
        (":z".to_string(), num(4)),
    ]);
    assert_eq!(
        d.entries(),
        &vec![
            (":x".to_string(), num(3)),
            (":y".to_string(), num(2)),
            (":z".to_string(), num(4)),
        ]
    );
}

#[test]
fn equality_is_by_structure() {
    let list = |items: Vec<MalValue>| MalValue::List(Rc::new(items));
    assert!(list(vec![num(1), list(vec![])]).equals(&list(vec![num(1), list(vec![])])));
    assert!(!list(vec![num(1)]).equals(&list(vec![num(2)])));
    assert!(!list(vec![]).equals(&MalValue::Vec(Rc::new(vec![]))));
    assert!(!MalValue::Nil.equals(&MalValue::False));
    assert!(MalValue::String("a".to_string()) == MalValue::String("a".to_string()));
    assert!(MalValue::String("a".to_string()) != MalValue::Sym("a".to_string()));
    assert!(MalValue::Function(Builtin::Eq) == MalValue::Function(Builtin::Eq));
}

#[test]
fn dictionaries_are_equal_in_any_order() {
    let a = MalValue::Dict(Rc::new(Dict::from_pairs(vec![
        (":a".to_string(), num(1)),
        (":b".to_string(), MalValue::Vec(Rc::new(vec![num(2)]))),
    ])));
    let b = MalValue::Dict(Rc::new(Dict::from_pairs(vec![
        (":b".to_string(), MalValue::Vec(Rc::new(vec![num(2)]))),
        (":a".to_string(), num(1)),
    ])));
    let shorter = MalValue::Dict(Rc::new(Dict::from_pairs(vec![(":a".to_string(), num(1))])));
    let other_key = MalValue::Dict(Rc::new(Dict::from_pairs(vec![
        (":a".to_string(), num(1)),
        (":c".to_string(), MalValue::Vec(Rc::new(vec![num(2)]))),
    ])));
    assert!(a.equals(&b));
    assert!(b.equals(&a));
    assert!(!a.equals(&shorter));
    assert!(!shorter.equals(&a));
    assert!(!a.equals(&other_key));
}

#[test]
fn a_clone_equals_what_it_was_made_from() {
    let v = MalValue::List(Rc::new(vec![
        num(1),
        MalValue::String("s".to_string()),
        MalValue::Closure {
            env: 3,
            params: Rc::new(MalValue::List(Rc::new(vec![]))),
            ast: Rc::new(MalValue::Nil),
        },
    ]));
    assert_eq!(v.clone(), v);
}
