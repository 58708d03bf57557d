use mal_rust::env::{
    env_bind, env_find, env_get, env_get_sym, env_set, env_set_sym, Env, Interp,
};
use mal_rust::error::MalError;
use mal_rust::types::MalValue;
use std::rc::Rc;

fn sym(name: &str) -> MalValue {
    MalValue::Sym(name.to_string())
}

#[test]
fn handles_count_up_from_zero() {
    let mut interp = Interp::new();
    assert_eq!(interp.scope_count(), 0);
    assert_eq!(interp.add_scope(Env::new()), 0);
    assert_eq!(interp.add_scope(Env::new_child(0)), 1);
    assert_eq!(interp.add_scope(Env::new_child(0)), 2);
    assert_eq!(interp.scope_count(), 3);
}

#[test]
fn define_then_look_up() {
    let mut interp = Interp::new();
    let root = interp.add_scope(Env::new());
    env_set_sym(&mut interp, root, "x".to_string(), MalValue::Number(5));
    assert_eq!(env_get_sym(&interp, root, &"x".to_string()), Some(MalValue::Number(5)));
    assert_eq!(env_get_sym(&interp, root, &"y".to_string()), None);
}

#[test]
fn define_overwrites_in_the_same_scope() {
    let mut interp = Interp::new();
    let root = interp.add_scope(Env::new());
    env_set_sym(&mut interp, root, "x".to_string(), MalValue::Number(1));
    env_set_sym(&mut interp, root, "x".to_string(), MalValue::Number(2));
    assert_eq!(env_get_sym(&interp, root, &"x".to_string()), Some(MalValue::Number(2)));
}

#[test]
fn lookup_walks_outward_and_the_nearest_scope_wins() {
    let mut interp = Interp::new();
    let root = interp.add_scope(Env::new());
    let middle = interp.add_scope(Env::new_child(root));
    let inner = interp.add_scope(Env::new_child(middle));
    env_set_sym(&mut interp, root, "x".to_string(), MalValue::Number(1));
    env_set_sym(&mut interp, root, "y".to_string(), MalValue::Number(10));
    env_set_sym(&mut interp, middle, "x".to_string(), MalValue::Number(2));
    assert_eq!(env_find(&interp, inner, &"x".to_string()), Some(middle));
    assert_eq!(env_find(&interp, inner, &"y".to_string()), Some(root));
    assert_eq!(env_find(&interp, inner, &"z".to_string()), None);
    assert_eq!(env_find(&interp, root, &"x".to_string()), Some(root));
    assert_eq!(env_get_sym(&interp, inner, &"x".to_string()), Some(MalValue::Number(2)));
    assert_eq!(env_get_sym(&interp, inner, &"y".to_string()), Some(MalValue::Number(10)));
    assert_eq!(env_get_sym(&interp, root, &"x".to_string()), Some(MalValue::Number(1)));
}

#[test]
fn a_definition_in_a_child_is_not_seen_from_its_parent() {
    let mut interp = Interp::new();
    let root = interp.add_scope(Env::new());
    let child = interp.add_scope(Env::new_child(root));
    env_set_sym(&mut interp, child, "x".to_string(), MalValue::Number(1));
    assert_eq!(env_get_sym(&interp, root, &"x".to_string()), None);
    assert_eq!(env_find(&interp, 7, &"x".to_string()), None);
}

#[test]
fn a_later_definition_in_the_parent_is_seen_from_the_child() {
    let mut interp = Interp::new();
    let root = interp.add_scope(Env::new());
    let child = interp.add_scope(Env::new_child(root));
    env_set_sym(&mut interp, root, "late".to_string(), MalValue::True);
    assert_eq!(env_get_sym(&interp, child, &"late".to_string()), Some(MalValue::True));
}

#[test]
fn keys_must_be_symbols() {
    let mut interp = Interp::new();
    let root = interp.add_scope(Env::new());
    assert_eq!(env_set(&mut interp, root, &sym("a"), MalValue::Number(1)), Ok(()));
    assert_eq!(env_get(&interp, root, &sym("a")), Ok(Some(MalValue::Number(1))));
    assert_eq!(env_get(&interp, root, &sym("b")), Ok(None));
    assert_eq!(
        env_set(&mut interp, root, &MalValue::Number(3), MalValue::Nil),
        Err(MalError::TypeMismatch("3".to_string()))
    );
    assert_eq!(
        env_get(&interp, root, &MalValue::Keyword("k".to_string())),
        Err(MalError::TypeMismatch(":k".to_string()))
    );
}

#[test]
fn bind_makes_a_child_with_each_parameter() {
    let mut interp = Interp::new();
    let root = interp.add_scope(Env::new());
    env_set_sym(&mut interp, root, "a".to_string(), MalValue::Number(100));
    let params = MalValue::List(Rc::new(vec![sym("a"), sym("b")]));
    let args = Rc::new(vec![MalValue::Number(1), MalValue::Number(2)]);
    let child = env_bind(&mut interp, root, &params, args).unwrap();
    assert_eq!(child, 1);
    assert_eq!(env_get_sym(&interp, child, &"a".to_string()), Some(MalValue::Number(1)));
    assert_eq!(env_get_sym(&interp, child, &"b".to_string()), Some(MalValue::Number(2)));
    assert_eq!(env_get_sym(&interp, root, &"a".to_string()), Some(MalValue::Number(100)));
    assert_eq!(env_find(&interp, child, &"a".to_string()), Some(child));
}

#[test]
fn bind_takes_a_vector_of_parameters_too() {
    let mut interp = Interp::new();
    let root = interp.add_scope(Env::new());
    let params = MalValue::Vec(Rc::new(vec![sym("x")]));
    let child = env_bind(&mut interp, root, &params, Rc::new(vec![MalValue::True])).unwrap();
    assert_eq!(env_get_sym(&interp, child, &"x".to_string()), Some(MalValue::True));
}

#[test]
fn bind_refuses_a_wrong_number_of_arguments() {
    let mut interp = Interp::new();
    let root = interp.add_scope(Env::new());
    let params = MalValue::List(Rc::new(vec![sym("a"), sym("b")]));
    assert_eq!(
        env_bind(&mut interp, root, &params, Rc::new(vec![MalValue::Number(1)])),
        Err(MalError::ArityMismatch("(a b)".to_string()))
    );
    assert_eq!(interp.scope_count(), 1);
}

#[test]
fn bind_refuses_a_pattern_that_is_no_sequence() {
    let mut interp = Interp::new();
    let root = interp.add_scope(Env::new());
    assert_eq!(
        env_bind(&mut interp, root, &sym("a"), Rc::new(Vec::new())),
        Err(MalError::TypeMismatch("a".to_string()))
    );
}

#[test]
fn bind_refuses_a_parameter_that_is_no_symbol() {
    let mut interp = Interp::new();
    let root = interp.add_scope(Env::new());
    let params = MalValue::List(Rc::new(vec![sym("a"), MalValue::Number(2)]));
    let args = Rc::new(vec![MalValue::Number(1), MalValue::Number(2)]);
    assert_eq!(
        env_bind(&mut interp, root, &params, args),
        Err(MalError::TypeMismatch("2".to_string()))
    );
}

#[test]
fn printed_lines_are_kept_until_taken() {
    let mut interp = Interp::new();
    interp.emit("one".to_string());
    interp.emit("two".to_string());
    assert_eq!(interp.take_output(), vec!["one".to_string(), "two".to_string()]);
    assert_eq!(interp.take_output(), Vec::<String>::new());
}
