use mal_rust::base_fn::install;
use mal_rust::env::{env_get_sym, Env, Interp};
use mal_rust::error::MalError;
use mal_rust::eval::{eval, eval_ast, let_binding};
use mal_rust::printer::pr_str;
use mal_rust::reader::read_str;
use mal_rust::types::{Builtin, Dict, MalValue};
use std::rc::Rc;

const DEPTH: usize = 200;

fn session() -> (Interp, usize) {
    let mut interp = Interp::new();
    let root = interp.add_scope(Env::new());
    install(&mut interp, root);
    (interp, root)
}

fn run(interp: &mut Interp, env: usize, source: &str) -> Result<MalValue, MalError> {
    let ast = read_str(source)?;
    eval(interp, env, &ast, DEPTH)
}

fn num(n: i64) -> MalValue {
    MalValue::Number(n)
}

fn sym(name: &str) -> MalValue {
    MalValue::Sym(name.to_string())
}

#[test]
fn adds_two_numbers() {
    let (mut interp, root) = session();
    assert_eq!(run(&mut interp, root, "(+ 1 2)"), Ok(num(3)));
}

#[test]
fn joins_two_strings() {
    let (mut interp, root) = session();
    assert_eq!(
        run(&mut interp, root, "(+ \"a\" \"b\")"),
        Ok(MalValue::String("ab".to_string()))
    );
}

#[test]
fn nested_calls() {
    let (mut interp, root) = session();
    assert_eq!(run(&mut interp, root, "(+ (* 2 3) (- 10 (/ 8 2)))"), Ok(num(12)));
}

#[test]
fn defines_and_finds_again() {
    let (mut interp, root) = session();
    assert_eq!(run(&mut interp, root, "(def! x 5)"), Ok(num(5)));
    assert_eq!(run(&mut interp, root, "x"), Ok(num(5)));
    assert_eq!(run(&mut interp, root, "(def! y (+ x 1))"), Ok(num(6)));
    assert_eq!(run(&mut interp, root, "(* x y)"), Ok(num(30)));
}

#[test]
fn later_bindings_see_earlier_ones() {
    let (mut interp, root) = session();
    assert_eq!(
        run(&mut interp, root, "(let* (a 1 b (+ a 1)) (+ a b))"),
        Ok(num(3))
    );
    assert_eq!(run(&mut interp, root, "(let* [a 2 b (* a a)] b)"), Ok(num(4)));
}

#[test]
fn let_bindings_end_with_the_form() {
    let (mut interp, root) = session();
    assert_eq!(run(&mut interp, root, "(let* (a 1) a)"), Ok(num(1)));
    assert_eq!(
        run(&mut interp, root, "a"),
        Err(MalError::SymbolNotFound("a".to_string()))
    );
}

#[test]
fn if_takes_the_right_branch() {
    let (mut interp, root) = session();
    assert_eq!(run(&mut interp, root, "(if false 1 2)"), Ok(num(2)));
    assert_eq!(run(&mut interp, root, "(if nil 1)"), Ok(MalValue::Nil));
    assert_eq!(run(&mut interp, root, "(if nil 1 2)"), Ok(num(2)));
    assert_eq!(run(&mut interp, root, "(if true 1 2)"), Ok(num(1)));
    assert_eq!(run(&mut interp, root, "(if 0 1 2)"), Ok(num(1)));
    assert_eq!(run(&mut interp, root, "(if \"\" 1 2)"), Ok(num(1)));
    assert_eq!(run(&mut interp, root, "(if () 1 2)"), Ok(num(1)));
}

#[test]
fn if_evaluates_only_the_branch_it_takes() {
    let (mut interp, root) = session();
    assert_eq!(run(&mut interp, root, "(if true 1 (undefined))"), Ok(num(1)));
    assert_eq!(run(&mut interp, root, "(if false (undefined) 2)"), Ok(num(2)));
}

#[test]
fn do_gives_the_last_value() {
    let (mut interp, root) = session();
    assert_eq!(run(&mut interp, root, "(do 1 2 3)"), Ok(num(3)));
    assert_eq!(run(&mut interp, root, "(do)"), Ok(MalValue::Nil));
    assert_eq!(run(&mut interp, root, "(do (def! a 1) (+ a 1))"), Ok(num(2)));
    assert_eq!(run(&mut interp, root, "a"), Ok(num(1)));
}

#[test]
fn closure_shadows_without_touching_the_outer_name() {
    let (mut interp, root) = session();
    assert_eq!(
        run(&mut interp, root, "(let* (x 1) (do (def! f (fn* (x) x)) (f 2)))"),
        Ok(num(2))
    );
    assert_eq!(run(&mut interp, root, "(def! x 1)"), Ok(num(1)));
    assert_eq!(run(&mut interp, root, "(def! f (fn* (x) x))"), Ok(MalValue::Closure {
        env: root,
        params: Rc::new(MalValue::List(Rc::new(vec![sym("x")]))),
        ast: Rc::new(sym("x")),
    }));
    assert_eq!(run(&mut interp, root, "(f 2)"), Ok(num(2)));
    assert_eq!(run(&mut interp, root, "x"), Ok(num(1)));
}

#[test]
fn let_takes_one_body_only() {
    let (mut interp, root) = session();
    assert_eq!(
        run(&mut interp, root, "(let* (x 1) (def! f (fn* (x) x)) (f 2))"),
        Err(MalError::ArityMismatch("let*".to_string()))
    );
}

#[test]
fn closure_sees_the_scope_it_was_made_in() {
    let (mut interp, root) = session();
    assert_eq!(
        run(&mut interp, root, "(def! make (fn* (n) (fn* (m) (+ n m))))").is_ok(),
        true
    );
    assert_eq!(run(&mut interp, root, "(def! add5 (make 5))").is_ok(), true);
    assert_eq!(run(&mut interp, root, "(add5 3)"), Ok(num(8)));
    assert_eq!(run(&mut interp, root, "((make 1) 2)"), Ok(num(3)));
}

#[test]
fn closure_sees_later_definitions_of_its_scope() {
    let (mut interp, root) = session();
    assert_eq!(run(&mut interp, root, "(def! g (fn* () later))").is_ok(), true);
    assert_eq!(
        run(&mut interp, root, "(g)"),
        Err(MalError::SymbolNotFound("later".to_string()))
    );
    assert_eq!(run(&mut interp, root, "(def! later 9)"), Ok(num(9)));
    assert_eq!(run(&mut interp, root, "(g)"), Ok(num(9)));
}

#[test]
fn recursion_through_a_definition() {
    let (mut interp, root) = session();
    let fact = "(def! fact (fn* (n) (if (<= n 1) 1 (* n (fact (- n 1))))))";
    assert_eq!(run(&mut interp, root, fact).is_ok(), true);
    assert_eq!(run(&mut interp, root, "(fact 10)"), Ok(num(3628800)));
}

#[test]
fn endless_recursion_exceeds_the_depth() {
    let (mut interp, root) = session();
    assert_eq!(run(&mut interp, root, "(def! loop (fn* () (loop)))").is_ok(), true);
    assert_eq!(run(&mut interp, root, "(loop)"), Err(MalError::DepthExceeded));
}

#[test]
fn depth_counts_nested_evaluations() {
    let (mut interp, root) = session();
    let ast = read_str("(+ 1 (+ 2 3))").unwrap();
    assert_eq!(eval(&mut interp, root, &ast, 0), Err(MalError::DepthExceeded));
    assert_eq!(eval(&mut interp, root, &ast, 1), Err(MalError::DepthExceeded));
    assert_eq!(eval(&mut interp, root, &ast, 2), Ok(num(6)));
    assert_eq!(eval(&mut interp, root, &ast, 3), Ok(num(6)));
    let flat = read_str("(+ 1 2)").unwrap();
    assert_eq!(eval(&mut interp, root, &flat, 0), Err(MalError::DepthExceeded));
    assert_eq!(eval(&mut interp, root, &flat, 1), Ok(num(3)));
}

#[test]
fn self_evaluating_values_need_no_depth() {
    let (mut interp, root) = session();
    let before = interp.scope_count();
    let closure = MalValue::Closure {
        env: root,
        params: Rc::new(MalValue::List(Rc::new(vec![]))),
        ast: Rc::new(MalValue::Nil),
    };
    for v in [
        MalValue::Nil,
        MalValue::True,
        MalValue::False,
        num(7),
        MalValue::String("s".to_string()),
        MalValue::Keyword("k".to_string()),
        MalValue::Function(Builtin::Add),
        closure,
        MalValue::List(Rc::new(vec![])),
    ] {
        assert_eq!(eval(&mut interp, root, &v, 0), Ok(v.clone()));
        assert_eq!(eval(&mut interp, root, &v, 0), Ok(v.clone()));
        assert_eq!(eval(&mut interp, root, &v, DEPTH), Ok(v.clone()));
    }
    assert_eq!(interp.scope_count(), before);
    assert_eq!(interp.take_output(), Vec::<String>::new());
}

#[test]
fn unknown_symbol_is_named() {
    let (mut interp, root) = session();
    assert_eq!(
        run(&mut interp, root, "undefined-sym"),
        Err(MalError::SymbolNotFound("undefined-sym".to_string()))
    );
    assert_eq!(
        run(&mut interp, root, "(undefined-fn 1 2)"),
        Err(MalError::SymbolNotFound("undefined-fn".to_string()))
    );
    assert_eq!(
        run(&mut interp, root, "(+ 1 nope)"),
        Err(MalError::SymbolNotFound("nope".to_string()))
    );
}

#[test]
fn applying_what_is_no_function_fails() {
    let (mut interp, root) = session();
    assert_eq!(
        run(&mut interp, root, "(1 2 3)"),
        Err(MalError::NotCallable("1".to_string()))
    );
    assert_eq!(
        run(&mut interp, root, "(\"f\" 1)"),
        Err(MalError::NotCallable("\"f\"".to_string()))
    );
    assert_eq!(
        run(&mut interp, root, "((list 1 2))"),
        Err(MalError::NotCallable("(1 2)".to_string()))
    );
}

#[test]
fn a_closure_over_a_missing_scope_is_not_callable() {
    let (mut interp, _root) = session();
    let dangling = MalValue::Closure {
        env: 99,
        params: Rc::new(MalValue::List(Rc::new(vec![]))),
        ast: Rc::new(num(1)),
    };
    assert_eq!(
        dangling.apply(&mut interp, Rc::new(vec![]), DEPTH),
        Err(MalError::NotCallable("<fn closure>".to_string()))
    );
}

#[test]
fn apply_runs_host_operations_and_closures() {
    let (mut interp, root) = session();
    assert_eq!(
        MalValue::Function(Builtin::Mult).apply(&mut interp, Rc::new(vec![num(6), num(7)]), 0),
        Ok(num(42))
    );
    let double = MalValue::Closure {
        env: root,
        params: Rc::new(MalValue::Vec(Rc::new(vec![sym("n")]))),
        ast: Rc::new(read_str("(+ n n)").unwrap()),
    };
    assert_eq!(double.apply(&mut interp, Rc::new(vec![num(21)]), DEPTH), Ok(num(42)));
    assert_eq!(
        double.apply(&mut interp, Rc::new(vec![num(21)]), 0),
        Err(MalError::DepthExceeded)
    );
    assert_eq!(
        double.apply(&mut interp, Rc::new(vec![]), DEPTH),
        Err(MalError::ArityMismatch("[n]".to_string()))
    );
    assert_eq!(
        num(3).apply(&mut interp, Rc::new(vec![]), DEPTH),
        Err(MalError::NotCallable("3".to_string()))
    );
}

#[test]
fn special_forms_want_their_operands() {
    let (mut interp, root) = session();
    let arity = |form: &str| Err(MalError::ArityMismatch(form.to_string()));
    assert_eq!(run(&mut interp, root, "(def! x)"), arity("def!"));
    assert_eq!(run(&mut interp, root, "(def! x 1 2)"), arity("def!"));
    assert_eq!(run(&mut interp, root, "(let* (a 1))"), arity("let*"));
    assert_eq!(run(&mut interp, root, "(let* (a 1) a a)"), arity("let*"));
    assert_eq!(run(&mut interp, root, "(if true)"), arity("if"));
    assert_eq!(run(&mut interp, root, "(if true 1 2 3)"), arity("if"));
    assert_eq!(run(&mut interp, root, "(fn* (a))"), arity("fn*"));
    assert_eq!(run(&mut interp, root, "(fn* (a) a a)"), arity("fn*"));
    assert_eq!(run(&mut interp, root, "(let* (a) a)"), arity("(a)"));
}

#[test]
fn def_and_let_want_symbols() {
    let (mut interp, root) = session();
    assert_eq!(
        run(&mut interp, root, "(def! 1 2)"),
        Err(MalError::TypeMismatch("1".to_string()))
    );
    assert_eq!(
        run(&mut interp, root, "(let* (:k 2) 3)"),
        Err(MalError::TypeMismatch(":k".to_string()))
    );
    assert_eq!(
        run(&mut interp, root, "(let* 5 3)"),
        Err(MalError::TypeMismatch("5".to_string()))
    );
}

#[test]
fn a_closure_wants_as_many_arguments_as_parameters() {
    let (mut interp, root) = session();
    assert_eq!(run(&mut interp, root, "(def! f (fn* (a b) a))").is_ok(), true);
    assert_eq!(
        run(&mut interp, root, "(f 1)"),
        Err(MalError::ArityMismatch("(a b)".to_string()))
    );
    assert_eq!(run(&mut interp, root, "(f 1 2)"), Ok(num(1)));
}

#[test]
fn vectors_and_dictionaries_are_data() {
    let (mut interp, root) = session();
    assert_eq!(
        run(&mut interp, root, "[1 (+ 1 1) [3]]"),
        Ok(MalValue::Vec(Rc::new(vec![
            num(1),
            num(2),
            MalValue::Vec(Rc::new(vec![num(3)])),
        ])))
    );
    assert_eq!(
        run(&mut interp, root, "{:a (+ 1 2) \"b\" [(* 2 2)]}"),
        Ok(MalValue::Dict(Rc::new(Dict::from_pairs(vec![
            (":a".to_string(), num(3)),
            ("\"b\"".to_string(), MalValue::Vec(Rc::new(vec![num(4)]))),
        ]))))
    );
    assert_eq!(
        run(&mut interp, root, "[+ 1 2]"),
        Ok(MalValue::Vec(Rc::new(vec![
            MalValue::Function(Builtin::Add),
            num(1),
            num(2),
        ])))
    );
}

#[test]
fn eval_ast_rebuilds_a_list_without_calling_it() {
    let (mut interp, root) = session();
    let ast = read_str("(+ 1 (+ 1 1))").unwrap();
    assert_eq!(
        eval_ast(&mut interp, root, &ast, DEPTH),
        Ok(MalValue::List(Rc::new(vec![
            MalValue::Function(Builtin::Add),
            num(1),
            num(2),
        ])))
    );
    assert_eq!(eval_ast(&mut interp, root, &sym("+"), 0), Ok(MalValue::Function(Builtin::Add)));
    assert_eq!(eval_ast(&mut interp, root, &num(4), 0), Ok(num(4)));
}

#[test]
fn let_binding_makes_the_scope_of_the_body() {
    let (mut interp, root) = session();
    let bindings = read_str("(a 1 b (+ a 1))").unwrap();
    let scope = let_binding(&mut interp, root, &bindings, DEPTH).unwrap();
    assert_eq!(scope, root + 1);
    assert_eq!(env_get_sym(&interp, scope, &"a".to_string()), Some(num(1)));
    assert_eq!(env_get_sym(&interp, scope, &"b".to_string()), Some(num(2)));
    assert_eq!(env_get_sym(&interp, root, &"a".to_string()), None);
}

#[test]
fn elements_are_evaluated_from_left_to_right() {
    let (mut interp, root) = session();
    assert_eq!(
        run(&mut interp, root, "(list (prn 1) (prn 2) (prn 3))"),
        Ok(MalValue::List(Rc::new(vec![MalValue::Nil, MalValue::Nil, MalValue::Nil])))
    );
    assert_eq!(
        interp.take_output(),
        vec!["1".to_string(), "2".to_string(), "3".to_string()]
    );
}

#[test]
fn prn_prints_its_operands_one_space_apart() {
    let (mut interp, root) = session();
    assert_eq!(run(&mut interp, root, "(prn \"a\" :b (list 1 2) nil)"), Ok(MalValue::Nil));
    assert_eq!(interp.take_output(), vec!["\"a\" :b (1 2) nil".to_string()]);
}

#[test]
fn what_ran_before_a_failure_stays() {
    let (mut interp, root) = session();
    assert_eq!(
        run(&mut interp, root, "(do (def! kept 1) (prn 2) (undefined))"),
        Err(MalError::SymbolNotFound("undefined".to_string()))
    );
    assert_eq!(run(&mut interp, root, "kept"), Ok(num(1)));
    assert_eq!(interp.take_output(), vec!["2".to_string()]);
}

#[test]
fn list_operations_from_source() {
    let (mut interp, root) = session();
    assert_eq!(run(&mut interp, root, "(count (list))"), Ok(num(0)));
    assert_eq!(run(&mut interp, root, "(empty? (list))"), Ok(MalValue::True));
    assert_eq!(run(&mut interp, root, "(count (list 1 2))"), Ok(num(2)));
    assert_eq!(run(&mut interp, root, "(empty? (list 1 2))"), Ok(MalValue::False));
    assert_eq!(
        run(&mut interp, root, "(count 5)"),
        Err(MalError::TypeMismatch("count (5)".to_string()))
    );
    assert_eq!(
        run(&mut interp, root, "(empty? \"\")"),
        Err(MalError::TypeMismatch("empty? (\"\")".to_string()))
    );
    assert_eq!(run(&mut interp, root, "(list? (list))"), Ok(MalValue::True));
    assert_eq!(run(&mut interp, root, "(= (list 1 2) (list 1 2))"), Ok(MalValue::True));
    assert_eq!(run(&mut interp, root, "(< 1 2)"), Ok(MalValue::True));
}

#[test]
fn the_names_of_special_forms_can_be_shadowed_only_as_values() {
    let (mut interp, root) = session();
    assert_eq!(run(&mut interp, root, "(def! if 3)"), Ok(num(3)));
    assert_eq!(run(&mut interp, root, "if"), Ok(num(3)));
    assert_eq!(run(&mut interp, root, "(if false 1 2)"), Ok(num(2)));
}

#[test]
fn results_print_as_expected() {
    let (mut interp, root) = session();
    let text = |r: Result<MalValue, MalError>| pr_str(&r.unwrap());
    assert_eq!(text(run(&mut interp, root, "(list 1 \"a\" :k nil [true])")), "(1 \"a\" :k nil [true])");
    assert_eq!(text(run(&mut interp, root, "+")), "<fn +>");
    assert_eq!(text(run(&mut interp, root, "(fn* (a) a)")), "<fn closure>");
}
