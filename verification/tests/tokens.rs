use mal_rust::reader::tokenize;
use mal_rust::text::{parse_int, push_decimal};
use regex::Regex;

fn pattern() -> Regex {
    Regex::new(r##"[\s,]*(~@|[\[\]{}()'`~^@]|"(?:\\.|[^\\"])*"?|;.*|[^\s\[\]{}('"`,;)]*)"##)
        .unwrap()
}

fn scan(pattern: &Regex, text: &str) -> Vec<String> {
    pattern
        .captures_iter(text)
        .map(|c| c[1].to_string())
        .filter(|t| !t.starts_with(';') && !t.is_empty())
        .collect()
}

/// A small generator of numbers that gives the same run every time.
struct Dice(u64);

impl Dice {
    fn roll(&mut self, sides: u64) -> u64 {
        self.0 = self.0.wrapping_mul(6364136223846793005).wrapping_add(1442695040888963407);
        (self.0 >> 33) % sides
    }
}

#[test]
fn tokens_are_those_of_the_pattern() {
    let pattern = pattern();
    for text in [
        "",
        "   ",
        "(+ 1 2)",
        "( + 1,2 ) ",
        "[1 2 {:a \"b c\"}]",
        "~@(a b) ~x 'y `z ^m @n",
        "a~b a@b a^b",
        "\"unterminated",
        "\"with \\\" escape\" after",
        "\"backslash at end\\",
        "\"backslash then line\\\nfeed\"",
        "; comment only",
        "1 ; comment\n2 ;; more\n3",
        "a;b\nc",
        "(def! f (fn* (x) (if (< x 1) \"done\" (f (- x 1)))))",
        "x\ty\r\nz\u{b}w\u{c}v",
        "a\u{85}b\u{a0}c\u{1680}d\u{2003}e\u{2028}f\u{2029}g\u{202f}h\u{205f}i\u{3000}j",
        "a\u{200b}b",
        "λ → ∀x.(x) \"ü\"",
        "'(1 2)",
        "\"\"\"\"",
        "\"a\"b\"c",
        ")]}",
        ",,,a,,,",
        "\\",
        "\"\\",
        "\"\\\n",
    ] {
        assert_eq!(tokenize(text), scan(&pattern, text));
    }
}

#[test]
fn tokens_of_many_texts_are_those_of_the_pattern() {
    let alphabet: Vec<char> = " ,\n\t()[]{}'`~^@\"\\;a1:-\u{a0}\u{2028}λ".chars().collect();
    let pattern = pattern();
    let mut dice = Dice(2024);
    for _ in 0..4000 {
        let len = dice.roll(14);
        let text: String = (0..len)
            .map(|_| alphabet[dice.roll(alphabet.len() as u64) as usize])
            .collect();
        assert_eq!(tokenize(&text), scan(&pattern, &text), "text: {:?}", text);
    }
}

#[test]
fn numbers_are_read_as_the_standard_library_reads_them() {
    let alphabet: Vec<char> = "0123456789+-a ".chars().collect();
    let mut dice = Dice(7);
    for _ in 0..4000 {
        let len = dice.roll(22);
        let text: String = (0..len)
            .map(|_| alphabet[dice.roll(if dice.0 % 3 == 0 { 14 } else { 10 }) as usize])
            .collect();
        let chars: Vec<char> = text.chars().collect();
        assert_eq!(parse_int(&chars), text.parse::<i64>().ok(), "text: {:?}", text);
    }
}

#[test]
fn numbers_are_written_as_the_standard_library_writes_them() {
    let mut dice = Dice(99);
    for _ in 0..4000 {
        let bits = dice.roll(64);
        let n = ((dice.roll(u64::MAX) << 31) ^ dice.roll(u64::MAX)) as i64 >> bits;
        let mut s = String::new();
        push_decimal(&mut s, n);
        assert_eq!(s, n.to_string());
        let chars: Vec<char> = s.chars().collect();
        assert_eq!(parse_int(&chars), Some(n));
    }
}
