use mal_rust::error::MalError;
use mal_rust::reader::{
    hash_map, read_atom, read_form, read_seq, read_str, tokenize, Reader, SequenceDel,
};
use mal_rust::types::{Dict, MalValue};
use std::rc::Rc;

fn strings(items: &[&str]) -> Vec<String> {
    items.iter().map(|s| s.to_string()).collect()
}

fn list(items: Vec<MalValue>) -> MalValue {
    MalValue::List(Rc::new(items))
}

fn sym(name: &str) -> MalValue {
    MalValue::Sym(name.to_string())
}

#[test]
fn tokenize_splits_punctuation_and_atoms() {
    assert_eq!(tokenize("(+ 1 2)"), strings(&["(", "+", "1", "2", ")"]));
    assert_eq!(tokenize("[a,b , c]"), strings(&["[", "a", "b", "c", "]"]));
    assert_eq!(tokenize("{:a 1}"), strings(&["{", ":a", "1", "}"]));
}

#[test]
fn tokenize_knows_the_splice_marker() {
    assert_eq!(tokenize("~@x"), strings(&["~@", "x"]));
    assert_eq!(tokenize("~x"), strings(&["~", "x"]));
    assert_eq!(tokenize("'a `b ^c @d"), strings(&["'", "a", "`", "b", "^", "c", "@", "d"]));
}

#[test]
fn tokenize_keeps_tilde_inside_a_bare_token() {
    assert_eq!(tokenize("a~b@c^d"), strings(&["a~b@c^d"]));
}

#[test]
fn tokenize_reads_strings_with_escapes() {
    assert_eq!(tokenize("\"a b\" c"), strings(&["\"a b\"", "c"]));
    assert_eq!(tokenize("\"a\\\"b\""), strings(&["\"a\\\"b\""]));
    assert_eq!(tokenize("\"(;,\""), strings(&["\"(;,\""]));
}

#[test]
fn tokenize_keeps_an_unterminated_string_as_one_token() {
    assert_eq!(tokenize("\"abc"), strings(&["\"abc"]));
    assert_eq!(tokenize("x \"abc def"), strings(&["x", "\"abc def"]));
}

#[test]
fn tokenize_stops_a_string_at_a_backslash_before_a_line_feed() {
    assert_eq!(tokenize("\"a\\\nb"), strings(&["\"a", "\\", "b"]));
}

#[test]
fn tokenize_drops_comments() {
    assert_eq!(tokenize("1 ; one\n2"), strings(&["1", "2"]));
    assert_eq!(tokenize("; only a comment"), Vec::<String>::new());
    assert_eq!(tokenize("a;b"), strings(&["a"]));
}

#[test]
fn tokenize_makes_no_token_of_separators() {
    assert_eq!(tokenize(""), Vec::<String>::new());
    assert_eq!(tokenize("  ,\t\n "), Vec::<String>::new());
    assert_eq!(tokenize(" a "), strings(&["a"]));
    assert_eq!(tokenize("a\u{a0}b\u{3000}c"), strings(&["a", "b", "c"]));
}

#[test]
fn reader_peeks_and_moves_on() {
    let mut reader = Reader::new(strings(&["a", "b"]));
    assert_eq!(reader.peek(), Some(&"a".to_string()));
    assert_eq!(reader.peek(), Some(&"a".to_string()));
    assert_eq!(reader.next(), Some(&"a".to_string()));
    assert_eq!(reader.next(), Some(&"b".to_string()));
    assert_eq!(reader.peek(), None);
    assert_eq!(reader.next(), None);
    assert_eq!(reader.next(), None);
}

#[test]
fn atoms_are_classified_in_order() {
    assert_eq!(read_str("nil"), Ok(MalValue::Nil));
    assert_eq!(read_str("true"), Ok(MalValue::True));
    assert_eq!(read_str("false"), Ok(MalValue::False));
    assert_eq!(read_str("42"), Ok(MalValue::Number(42)));
    assert_eq!(read_str("-42"), Ok(MalValue::Number(-42)));
    assert_eq!(read_str("+7"), Ok(MalValue::Number(7)));
    assert_eq!(read_str("007"), Ok(MalValue::Number(7)));
    assert_eq!(read_str(":kw"), Ok(MalValue::Keyword("kw".to_string())));
    assert_eq!(read_str("\"hi\""), Ok(MalValue::String("hi".to_string())));
    assert_eq!(read_str("abc"), Ok(sym("abc")));
    assert_eq!(read_str("nilx"), Ok(sym("nilx")));
}

#[test]
fn numbers_at_the_ends_of_the_range() {
    assert_eq!(read_str("9223372036854775807"), Ok(MalValue::Number(i64::MAX)));
    assert_eq!(read_str("-9223372036854775808"), Ok(MalValue::Number(i64::MIN)));
    assert_eq!(read_str("9223372036854775808"), Ok(sym("9223372036854775808")));
    assert_eq!(read_str("-9223372036854775809"), Ok(sym("-9223372036854775809")));
    assert_eq!(
        read_str("123456789012345678901234567890"),
        Ok(sym("123456789012345678901234567890"))
    );
}

#[test]
fn signs_alone_and_mixed_tokens_are_symbols() {
    assert_eq!(read_str("+"), Ok(sym("+")));
    assert_eq!(read_str("-"), Ok(sym("-")));
    assert_eq!(read_str("1a"), Ok(sym("1a")));
    assert_eq!(read_str("--1"), Ok(sym("--1")));
}

#[test]
fn string_escapes_are_left_as_they_are() {
    assert_eq!(read_str("\"a\\nb\""), Ok(MalValue::String("a\\nb".to_string())));
    assert_eq!(read_str("\"\""), Ok(MalValue::String(String::new())));
}

#[test]
fn degenerate_string_tokens_are_symbols() {
    assert_eq!(read_str("\"abc"), Ok(sym("\"abc")));
    assert_eq!(read_str("\""), Ok(sym("\"")));
}

#[test]
fn empty_keyword_is_a_keyword() {
    assert_eq!(read_str(":"), Ok(MalValue::Keyword(String::new())));
}

#[test]
fn reading_nothing_gives_nil() {
    assert_eq!(read_str(""), Ok(MalValue::Nil));
    assert_eq!(read_str("   "), Ok(MalValue::Nil));
    assert_eq!(read_str("; nothing here"), Ok(MalValue::Nil));
    let mut reader = Reader::new(Vec::new());
    assert_eq!(read_atom(&mut reader), Ok(MalValue::Nil));
    assert_eq!(read_form(&mut reader), Ok(MalValue::Nil));
}

#[test]
fn sequences_nest() {
    assert_eq!(
        read_str("(1 (2 [3]) ())"),
        Ok(list(vec![
            MalValue::Number(1),
            list(vec![
                MalValue::Number(2),
                MalValue::Vec(Rc::new(vec![MalValue::Number(3)])),
            ]),
            list(vec![]),
        ]))
    );
}

#[test]
fn only_the_first_form_is_read() {
    assert_eq!(read_str("1 2 3"), Ok(MalValue::Number(1)));
    assert_eq!(read_str("(1) (2)"), Ok(list(vec![MalValue::Number(1)])));
}

#[test]
fn a_closing_token_of_another_kind_is_a_symbol() {
    assert_eq!(
        read_str("(1 ])"),
        Ok(list(vec![MalValue::Number(1), sym("]")]))
    );
}

#[test]
fn a_string_that_holds_the_closing_bracket_does_not_close() {
    assert_eq!(
        read_str("(\"a)b\" 1)"),
        Ok(list(vec![MalValue::String("a)b".to_string()), MalValue::Number(1)]))
    );
}

#[test]
fn unterminated_sequence_fails() {
    let expected = Err(MalError::ParseFailure("Sequence ended abruptly".to_string()));
    assert_eq!(read_str("(1 2"), expected);
    assert_eq!(read_str("["), expected);
    assert_eq!(read_str("{:a 1"), expected);
    assert_eq!(read_str("(1 (2)"), expected);
}

#[test]
fn odd_map_body_fails() {
    assert_eq!(
        read_str("{1}"),
        Err(MalError::MapKeyError("Odd number of elements".to_string()))
    );
    assert_eq!(
        read_str("{:a 1 :b}"),
        Err(MalError::MapKeyError("Odd number of elements".to_string()))
    );
}

#[test]
fn map_key_that_is_no_string_or_keyword_fails() {
    assert_eq!(read_str("{1 2}"), Err(MalError::MapKeyError("1".to_string())));
    assert_eq!(
        read_str("{:a 1 (b) 2}"),
        Err(MalError::MapKeyError("(b)".to_string()))
    );
}

#[test]
fn map_keys_are_kept_in_printable_form() {
    assert_eq!(
        read_str("{:a 1 \"b\" 2}"),
        Ok(MalValue::Dict(Rc::new(Dict::from_pairs(vec![
            (":a".to_string(), MalValue::Number(1)),
            ("\"b\"".to_string(), MalValue::Number(2)),
        ]))))
    );
}

#[test]
fn a_repeated_map_key_keeps_its_place_and_takes_the_last_value() {
    assert_eq!(
        read_str("{:a 1 :b 2 :a 3}"),
        Ok(MalValue::Dict(Rc::new(Dict::from_pairs(vec![
            (":a".to_string(), MalValue::Number(3)),
            (":b".to_string(), MalValue::Number(2)),
        ]))))
    );
}

#[test]
fn a_repeated_map_key_prints_once_at_its_first_place() {
    let v = read_str("{:a 1 :b 2 :a 3}").unwrap();
    assert_eq!(mal_rust::printer::pr_str(&v), "{:a 3 :b 2}");
}

#[test]
fn hash_map_pairs_keys_with_values() {
    let body = vec![
        MalValue::Keyword("k".to_string()),
        MalValue::Number(1),
        MalValue::String("s".to_string()),
        MalValue::Nil,
    ];
    assert_eq!(
        hash_map(body),
        Ok(MalValue::Dict(Rc::new(Dict::from_pairs(vec![
            (":k".to_string(), MalValue::Number(1)),
            ("\"s\"".to_string(), MalValue::Nil),
        ]))))
    );
    assert_eq!(hash_map(Vec::new()), Ok(MalValue::Dict(Rc::new(Dict::new()))));
}

#[test]
fn read_seq_reads_up_to_its_closing_token() {
    let mut reader = Reader::new(strings(&["[", "1", ")", "2", "]", "x"]));
    assert_eq!(
        read_seq(&mut reader, SequenceDel::Vec),
        Ok(MalValue::Vec(Rc::new(vec![
            MalValue::Number(1),
            sym(")"),
            MalValue::Number(2),
        ])))
    );
    assert_eq!(reader.peek(), Some(&"x".to_string()));
}

#[test]
fn read_seq_without_a_token_fails() {
    let mut reader = Reader::new(Vec::new());
    assert_eq!(
        read_seq(&mut reader, SequenceDel::List),
        Err(MalError::ParseFailure("Sequence ended abruptly".to_string()))
    );
}

#[test]
fn read_form_leaves_the_rest() {
    let mut reader = Reader::new(strings(&["(", "a", ")", "b"]));
    assert_eq!(read_form(&mut reader), Ok(list(vec![sym("a")])));
    assert_eq!(read_form(&mut reader), Ok(sym("b")));
    assert_eq!(read_form(&mut reader), Ok(MalValue::Nil));
}
