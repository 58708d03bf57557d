use mal_rust::text::{chars_of, parse_int, push_decimal, same_text, string_from};

fn chars(s: &str) -> Vec<char> {
    s.chars().collect()
}

#[test]
fn chars_and_back() {
    assert_eq!(chars_of("a(β"), vec!['a', '(', 'β']);
    assert_eq!(chars_of(""), Vec::<char>::new());
    assert_eq!(string_from(&chars("hello"), 1, 4), "ell");
    assert_eq!(string_from(&chars("hello"), 2, 2), "");
    assert_eq!(string_from(&chars("hello"), 0, 5), "hello");
}

#[test]
fn same_text_compares_characters() {
    assert!(same_text("def!", "def!"));
    assert!(!same_text("def!", "def"));
    assert!(!same_text("def!", "dez!"));
    assert!(same_text("", ""));
}

#[test]
fn parse_int_reads_signed_decimals() {
    assert_eq!(parse_int(&chars("0")), Some(0));
    assert_eq!(parse_int(&chars("123")), Some(123));
    assert_eq!(parse_int(&chars("-123")), Some(-123));
    assert_eq!(parse_int(&chars("+123")), Some(123));
    assert_eq!(parse_int(&chars("-0")), Some(0));
    assert_eq!(parse_int(&chars("0000000000000000000000012")), Some(12));
    assert_eq!(parse_int(&chars("9223372036854775807")), Some(i64::MAX));
    assert_eq!(parse_int(&chars("-9223372036854775808")), Some(i64::MIN));
}

#[test]
fn parse_int_refuses_the_rest() {
    for text in [
        "",
        "+",
        "-",
        "a",
        "1a",
        "a1",
        "1 ",
        " 1",
        "--1",
        "+-1",
        "1.5",
        "9223372036854775808",
        "-9223372036854775809",
        "99999999999999999999999999",
        "٣",
    ] {
        assert_eq!(parse_int(&chars(text)), None);
    }
}

#[test]
fn parse_int_agrees_with_the_standard_library() {
    for text in ["42", "-42", "+42", "-", "", "007", "18446744073709551616", "4x"] {
        assert_eq!(parse_int(&chars(text)), text.parse::<i64>().ok());
    }
}

#[test]
fn push_decimal_appends_the_numeral() {
    for n in [0i64, 5, 10, 99, 100, -1, -10, 1234567890, i64::MAX, i64::MIN] {
        let mut s = String::from("n=");
        push_decimal(&mut s, n);
        assert_eq!(s, format!("n={}", n));
    }
}
