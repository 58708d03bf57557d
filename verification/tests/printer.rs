use mal_rust::printer::{pr_items, pr_seq, pr_str};
use mal_rust::reader::read_str;
use mal_rust::types::{Builtin, Dict, MalValue};
use std::rc::Rc;

#[test]
fn prints_atoms() {
    assert_eq!(pr_str(&MalValue::Nil), "nil");
    assert_eq!(pr_str(&MalValue::True), "true");
    assert_eq!(pr_str(&MalValue::False), "false");
    assert_eq!(pr_str(&MalValue::Sym("a-b".to_string())), "a-b");
    assert_eq!(pr_str(&MalValue::Keyword("kw".to_string())), ":kw");
    assert_eq!(pr_str(&MalValue::String("a b".to_string())), "\"a b\"");
    assert_eq!(pr_str(&MalValue::String("a\"b".to_string())), "\"a\"b\"");
}

#[test]
fn prints_numbers_in_decimal() {
    assert_eq!(pr_str(&MalValue::Number(0)), "0");
    assert_eq!(pr_str(&MalValue::Number(7)), "7");
    assert_eq!(pr_str(&MalValue::Number(10)), "10");
    assert_eq!(pr_str(&MalValue::Number(-305)), "-305");
    assert_eq!(pr_str(&MalValue::Number(i64::MAX)), "9223372036854775807");
    assert_eq!(pr_str(&MalValue::Number(i64::MIN)), "-9223372036854775808");
}

#[test]
fn prints_sequences() {
    let items = vec![MalValue::Number(1), MalValue::Nil, MalValue::Sym("x".to_string())];
    assert_eq!(pr_str(&MalValue::List(Rc::new(items.clone()))), "(1 nil x)");
    assert_eq!(pr_str(&MalValue::Vec(Rc::new(items.clone()))), "[1 nil x]");
    assert_eq!(pr_str(&MalValue::List(Rc::new(Vec::new()))), "()");
    assert_eq!(pr_str(&MalValue::Vec(Rc::new(vec![MalValue::True]))), "[true]");
    assert_eq!(pr_seq(Rc::new(items.clone()), '|', '|'), "|1 nil x|");
    assert_eq!(pr_items(&items, '<', '>'), "<1 nil x>");
}

#[test]
fn prints_dictionaries_in_the_order_of_their_entries() {
    let entries = vec![
        (":b".to_string(), MalValue::Number(2)),
        ("\"a\"".to_string(), MalValue::List(Rc::new(vec![MalValue::Number(1)]))),
    ];
    assert_eq!(
        pr_str(&MalValue::Dict(Rc::new(Dict::from_pairs(entries)))),
        "{:b 2 \"a\" (1)}"
    );
    assert_eq!(pr_str(&MalValue::Dict(Rc::new(Dict::new()))), "{}");
}

#[test]
fn prints_functions_as_placeholders() {
    assert_eq!(pr_str(&MalValue::Function(Builtin::Add)), "<fn +>");
    assert_eq!(pr_str(&MalValue::Function(Builtin::IsEmpty)), "<fn empty?>");
    let closure = MalValue::Closure {
        env: 0,
        params: Rc::new(MalValue::List(Rc::new(Vec::new()))),
        ast: Rc::new(MalValue::Nil),
    };
    assert_eq!(pr_str(&closure), "<fn closure>");
}

#[test]
fn names_of_the_host_operations() {
    let names: Vec<&str> = [
        Builtin::Add,
        Builtin::Sub,
        Builtin::Mult,
        Builtin::Div,
        Builtin::Prn,
        Builtin::List,
        Builtin::IsList,
        Builtin::IsEmpty,
        Builtin::Count,
        Builtin::Eq,
        Builtin::LtEq,
        Builtin::Lt,
        Builtin::Gt,
        Builtin::GtEq,
    ]
    .iter()
    .map(|b| b.name())
    .collect();
    assert_eq!(
        names,
        vec![
            "+", "-", "*", "/", "prn", "list", "list?", "empty?", "count", "=", "<=", "<", ">", ">="
        ]
    );
}

#[test]
fn literals_come_back_from_their_text() {
    let literals = vec![
        MalValue::Nil,
        MalValue::True,
        MalValue::False,
        MalValue::Number(0),
        MalValue::Number(-17),
        MalValue::Number(i64::MAX),
        MalValue::Number(i64::MIN),
        MalValue::Keyword("key-1".to_string()),
        MalValue::Keyword(String::new()),
        MalValue::String("plain text, (with) [brackets]; and more".to_string()),
        MalValue::String(String::new()),
        MalValue::String("a\\\"b".to_string()),
        MalValue::String("ends with a backslash\\".to_string()),
    ];
    for v in literals {
        assert_eq!(read_str(&pr_str(&v)), Ok(v));
    }
}

#[test]
fn some_strings_and_keywords_do_not_come_back() {
    let quoted = MalValue::String("a\"b".to_string());
    assert_ne!(read_str(&pr_str(&quoted)), Ok(quoted));
    let spaced = MalValue::Keyword("a b".to_string());
    assert_eq!(read_str(&pr_str(&spaced)), Ok(MalValue::Keyword("a".to_string())));
}

#[test]
fn what_was_read_prints_as_it_was_written() {
    for text in ["(1 2 (3 4) [5 :k \"s\"] nil true false sym)", "{:a (1 2) \"b\" [3]}", "()"] {
        assert_eq!(pr_str(&read_str(text).unwrap()), text);
    }
}

#[test]
fn plain_values_come_back_from_their_text() {
    let sym = |name: &str| MalValue::Sym(name.to_string());
    let inner = MalValue::Vec(Rc::new(vec![
        MalValue::Keyword("k".to_string()),
        MalValue::String("two words".to_string()),
        MalValue::List(Rc::new(vec![])),
        MalValue::Number(-3),
    ]));
    let dict = MalValue::Dict(Rc::new(Dict::from_pairs(vec![
        (":a".to_string(), MalValue::List(Rc::new(vec![sym("+"), MalValue::Number(1)]))),
        ("\"b c\"".to_string(), MalValue::Dict(Rc::new(Dict::new()))),
        (":".to_string(), MalValue::Nil),
    ])));
    let v = MalValue::List(Rc::new(vec![
        sym("def!"),
        sym("a~b"),
        sym("->x?"),
        inner,
        dict,
        MalValue::True,
        MalValue::False,
    ]));
    let text = pr_str(&v);
    assert_eq!(
        text,
        "(def! a~b ->x? [:k \"two words\" () -3] {:a (+ 1) \"b c\" {} : nil} true false)"
    );
    assert_eq!(read_str(&text), Ok(v));
}

#[test]
fn values_that_are_not_plain_may_not_come_back() {
    let odd = MalValue::List(Rc::new(vec![MalValue::Sym("a b".to_string())]));
    assert_ne!(read_str(&pr_str(&odd)), Ok(odd));
    let number_like = MalValue::Sym("12".to_string());
    assert_eq!(read_str(&pr_str(&number_like)), Ok(MalValue::Number(12)));
    let open = MalValue::List(Rc::new(vec![
        MalValue::String("ends with a backslash\\".to_string()),
        MalValue::Number(1),
    ]));
    assert_ne!(read_str(&pr_str(&open)), Ok(open));
}
