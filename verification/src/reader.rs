//! The reader: source text to tokens, tokens to a value.

use crate::error::{result_view, Failure, MalError};
use crate::printer::{pr_str, print_spec};
use crate::text::{chars_of, parse_int, parse_int_spec, string_from, texts};
use crate::types::{dict_insert, model_of_sequences, models, Dict, MalValue, Value};
use std::rc::Rc;
use vstd::prelude::*;
use vstd::string::StringExecFns;

verus! {

/// White space: the characters that Unicode gives the property of that
/// name.
pub open spec fn is_space(c: char) -> bool {
    let n = c as u32;
    (0x09 <= n <= 0x0d) || n == 0x20 || n == 0x85 || n == 0xa0 || n == 0x1680 || (0x2000 <= n
        <= 0x200a) || n == 0x2028 || n == 0x2029 || n == 0x202f || n == 0x205f || n == 0x3000
}

/// White space and commas stand between tokens.
pub open spec fn is_separator(c: char) -> bool {
    is_space(c) || c == ','
}

/// The punctuation that is a token by itself.
pub open spec fn is_special(c: char) -> bool {
    c == '[' || c == ']' || c == '{' || c == '}' || c == '(' || c == ')' || c == '\'' || c == '`'
        || c == '~' || c == '^' || c == '@'
}

/// The characters that a bare token, once begun, goes on with.
pub open spec fn is_bare(c: char) -> bool {
    !(is_space(c) || c == '[' || c == ']' || c == '{' || c == '}' || c == '(' || c == '\'' || c
        == '"' || c == '`' || c == ',' || c == ';' || c == ')')
}

/// Where the separators that begin at `i` end.
pub open spec fn skip_separators(s: Seq<char>, i: int) -> int
    decreases s.len() - i,
{
    if 0 <= i < s.len() && is_separator(s[i]) {
        skip_separators(s, i + 1)
    } else {
        i
    }
}

/// Where the run of bare characters that begins at `i` ends.
pub open spec fn bare_end(s: Seq<char>, i: int) -> int
    decreases s.len() - i,
{
    if 0 <= i < s.len() && is_bare(s[i]) {
        bare_end(s, i + 1)
    } else {
        i
    }
}

/// Where the line that `i` is in ends: at the next line feed, or at the end
/// of the text.
pub open spec fn comment_end(s: Seq<char>, i: int) -> int
    decreases s.len() - i,
{
    if 0 <= i < s.len() && s[i] != '\n' {
        comment_end(s, i + 1)
    } else {
        i
    }
}

/// Where a string ends whose inside goes on at `i`: behind its closing
/// quote; a backslash takes the next character with it, unless that is a
/// line feed. A string that is never closed ends where the text ends, or
/// before a backslash that has nothing to take.
pub open spec fn string_end(s: Seq<char>, i: int) -> int
    decreases s.len() - i,
{
    if 0 <= i < s.len() {
        if s[i] == '"' {
            i + 1
        } else if s[i] == '\\' {
            if i + 1 < s.len() && s[i + 1] != '\n' {
                string_end(s, i + 2)
            } else {
                i
            }
        } else {
            string_end(s, i + 1)
        }
    } else {
        i
    }
}

/// Where the token that begins at `i` ends: the splice marker `~@`; one
/// character of punctuation; a string; a comment, to the end of its line;
/// else a run of bare characters.
pub open spec fn token_end(s: Seq<char>, i: int) -> int {
    if s[i] == '~' && i + 1 < s.len() && s[i + 1] == '@' {
        i + 2
    } else if is_special(s[i]) {
        i + 1
    } else if s[i] == '"' {
        string_end(s, i + 1)
    } else if s[i] == ';' {
        comment_end(s, i + 1)
    } else {
        bare_end(s, i + 1)
    }
}

/// The tokens of `s` from `i` on: separators are passed over, comments are
/// left out.
pub open spec fn tokens_from(s: Seq<char>, i: int) -> Seq<Seq<char>>
    decreases s.len() - i,
{
    let j = skip_separators(s, i);
    if 0 <= j < s.len() {
        let k = token_end(s, j);
        if i <= j < k <= s.len() {
            if s[j] == ';' {
                tokens_from(s, k)
            } else {
                seq![s.subrange(j, k)] + tokens_from(s, k)
            }
        } else {
            Seq::empty()
        }
    } else {
        Seq::empty()
    }
}

/// The tokens of a source text.
pub open spec fn tokenize_spec(s: Seq<char>) -> Seq<Seq<char>> {
    tokens_from(s, 0)
}

/// Whether `c` is white space.
fn space(c: char) -> (r: bool)
    ensures
        r == is_space(c),
{
    let n: u32 = c as u32;
    (0x09 <= n && n <= 0x0d) || n == 0x20 || n == 0x85 || n == 0xa0 || n == 0x1680 || (0x2000 <= n
        && n <= 0x200a) || n == 0x2028 || n == 0x2029 || n == 0x202f || n == 0x205f || n == 0x3000
}

/// Whether `c` is punctuation that is a token by itself.
fn special(c: char) -> (r: bool)
    ensures
        r == is_special(c),
{
    c == '[' || c == ']' || c == '{' || c == '}' || c == '(' || c == ')' || c == '\'' || c == '`'
        || c == '~' || c == '^' || c == '@'
}

/// Whether a bare token goes on with `c`.
fn bare(c: char) -> (r: bool)
    ensures
        r == is_bare(c),
{
    !(space(c) || c == '[' || c == ']' || c == '{' || c == '}' || c == '(' || c == '\'' || c == '"'
        || c == '`' || c == ',' || c == ';' || c == ')')
}

/// Where the separators that begin at `i` end.
fn scan_separators(s: &Vec<char>, i: usize) -> (r: usize)
    requires
        i <= s.len(),
    ensures
        r == skip_separators(s@, i as int),
        i <= r <= s.len(),
{
    let mut j: usize = i;
    while j < s.len() && (space(s[j]) || s[j] == ',')
        invariant
            i <= j <= s.len(),
            skip_separators(s@, j as int) == skip_separators(s@, i as int),
        decreases s.len() - j,
    {
        j += 1;
    }
    j
}

/// Where the run of bare characters that begins at `i` ends.
fn scan_bare(s: &Vec<char>, i: usize) -> (r: usize)
    requires
        i <= s.len(),
    ensures
        r == bare_end(s@, i as int),
        i <= r <= s.len(),
{
    let mut j: usize = i;
    while j < s.len() && bare(s[j])
        invariant
            i <= j <= s.len(),
            bare_end(s@, j as int) == bare_end(s@, i as int),
        decreases s.len() - j,
    {
        j += 1;
    }
    j
}

/// Where the line that `i` is in ends.
fn scan_comment(s: &Vec<char>, i: usize) -> (r: usize)
    requires
        i <= s.len(),
    ensures
        r == comment_end(s@, i as int),
        i <= r <= s.len(),
{
    let mut j: usize = i;
    while j < s.len() && s[j] != '\n'
        invariant
            i <= j <= s.len(),
            comment_end(s@, j as int) == comment_end(s@, i as int),
        decreases s.len() - j,
    {
        j += 1;
    }
    j
}

/// Where a string ends whose inside goes on at `i`.
fn scan_string(s: &Vec<char>, i: usize) -> (r: usize)
    requires
        i <= s.len(),
    ensures
        r == string_end(s@, i as int),
        i <= r <= s.len(),
{
    let mut j: usize = i;
    while j < s.len()
        invariant
            i <= j <= s.len(),
            string_end(s@, j as int) == string_end(s@, i as int),
        decreases s.len() - j,
    {
        if s[j] == '"' {
            return j + 1;
        } else if s[j] == '\\' {
            if j + 1 < s.len() && s[j + 1] != '\n' {
                j += 2;
            } else {
                return j;
            }
        } else {
            j += 1;
        }
    }
    j
}

/// Where the token that begins at `i` ends.
fn scan_token(s: &Vec<char>, i: usize) -> (r: usize)
    requires
        i < s.len(),
        !is_separator(s@[i as int]),
    ensures
        r == token_end(s@, i as int),
        i < r <= s.len(),
{
    let c = s[i];
    if c == '~' && i + 1 < s.len() && s[i + 1] == '@' {
        i + 2
    } else if special(c) {
        i + 1
    } else if c == '"' {
        scan_string(s, i + 1)
    } else if c == ';' {
        scan_comment(s, i + 1)
    } else {
        scan_bare(s, i + 1)
    }
}

/// Splits a source text into its tokens.
pub fn tokenize(text: &str) -> (tokens: Vec<String>)
    ensures
        texts(tokens@) == tokenize_spec(text@),
{
    let s = chars_of(text);
    let mut tokens: Vec<String> = Vec::new();
    let mut i: usize = 0;
    proof {
        assert(texts(tokens@) =~= Seq::<Seq<char>>::empty());
    }
    loop
        invariant
            i <= s.len(),
            s@ == text@,
            texts(tokens@) + tokens_from(s@, i as int) == tokenize_spec(s@),
        decreases s.len() - i,
    {
        let j = scan_separators(&s, i);
        if j >= s.len() {
            proof {
                assert(texts(tokens@) + Seq::<Seq<char>>::empty() =~= texts(tokens@));
            }
            return tokens;
        }
        proof {
            skip_separators_stops(s@, i as int);
        }
        let k = scan_token(&s, j);
        if s[j] != ';' {
            let ghost before = texts(tokens@);
            let token = string_from(&s, j, k);
            tokens.push(token);
            proof {
                assert(texts(tokens@) =~= before.push(s@.subrange(j as int, k as int)));
                assert(before + (seq![s@.subrange(j as int, k as int)] + tokens_from(s@, k as int))
                    =~= texts(tokens@) + tokens_from(s@, k as int));
            }
        }
        i = k;
    }
}

/// Where the separators end, the text ends or something else begins.
pub proof fn skip_separators_stops(s: Seq<char>, i: int)
    requires
        0 <= i,
    ensures
        i <= skip_separators(s, i),
        skip_separators(s, i) < s.len() ==> !is_separator(s[skip_separators(s, i)]),
    decreases s.len() - i,
{
    if 0 <= i < s.len() && is_separator(s[i]) {
        skip_separators_stops(s, i + 1);
    }
}

/// The tokens of a text, and how many of them were read.
pub struct Reader {
    tokens: Vec<String>,
    position: usize,
}

/// The kind of a bracketed sequence.
#[derive(Clone, Copy, Debug, PartialEq, Eq, Structural)]
pub enum SequenceDel {
    List,
    Vec,
    Dict,
}

/// The token that closes a sequence of the kind `end`.
pub open spec fn closer(end: SequenceDel) -> Seq<char> {
    match end {
        SequenceDel::List => seq![')'],
        SequenceDel::Vec => seq![']'],
        SequenceDel::Dict => seq!['}'],
    }
}

/// The value that an atom token stands for, in this order: `nil`; `true`,
/// `false`; a number; behind a colon, a keyword; between double quotes, a
/// string, its escapes as they are; else a symbol.
pub open spec fn atom_spec(t: Seq<char>) -> Value {
    if t == "nil"@ {
        Value::Nil
    } else if t == "true"@ {
        Value::True
    } else if t == "false"@ {
        Value::False
    } else {
        match parse_int_spec(t) {
            Some(n) => Value::Number(n),
            None => if t.len() > 0 && t[0] == ':' {
                Value::Keyword(t.subrange(1, t.len() as int))
            } else if t.len() >= 2 && t[0] == '"' && t.last() == '"' {
                Value::String(t.subrange(1, t.len() - 1))
            } else {
                Value::Sym(t)
            },
        }
    }
}

/// The key under which a dictionary holds an entry: a string in its quotes,
/// a keyword behind its colon. No other value is a key.
pub open spec fn key_text(v: Value) -> Option<Seq<char>> {
    match v {
        Value::String(s) => Some(seq!['"'] + s + seq!['"']),
        Value::Keyword(s) => Some(seq![':'] + s),
        _ => None,
    }
}

/// The entries that the first `k` pairs of `items` make, a key and a value
/// each; a key that is neither string nor keyword is refused, by its
/// printed form.
pub open spec fn dict_from(items: Seq<Value>, k: nat) -> Result<Seq<(Seq<char>, Value)>, Failure>
    decreases k,
{
    if k == 0 {
        Ok(Seq::empty())
    } else {
        match dict_from(items, (k - 1) as nat) {
            Err(e) => Err(e),
            Ok(entries) => match key_text(items[2 * k - 2]) {
                Some(key) => Ok(dict_insert(entries, key, items[2 * k - 1])),
                None => Err(Failure::MapKeyError(print_spec(items[2 * k - 2]))),
            },
        }
    }
}

/// The dictionary that the body `items` of a `{ }` makes.
pub open spec fn hash_map_spec(items: Seq<Value>) -> Result<Value, Failure> {
    if items.len() % 2 != 0 {
        Err(Failure::MapKeyError("Odd number of elements"@))
    } else {
        match dict_from(items, items.len() / 2) {
            Ok(entries) => Ok(Value::Dict(entries)),
            Err(e) => Err(e),
        }
    }
}

/// The form that begins at token `pos`, and the place behind it: a
/// sequence, where the token begins with an opening bracket; else an atom.
/// Behind the last token there is `nil`.
pub open spec fn read_form_spec(tokens: Seq<Seq<char>>, pos: nat) -> (Result<Value, Failure>, nat)
    decreases tokens.len() - pos, 1nat,
{
    if pos >= tokens.len() {
        (Ok(Value::Nil), pos)
    } else {
        let t = tokens[pos as int];
        if t.len() > 0 && t[0] == '(' {
            read_seq_spec(tokens, pos, SequenceDel::List)
        } else if t.len() > 0 && t[0] == '[' {
            read_seq_spec(tokens, pos, SequenceDel::Vec)
        } else if t.len() > 0 && t[0] == '{' {
            read_seq_spec(tokens, pos, SequenceDel::Dict)
        } else {
            (Ok(atom_spec(t)), pos + 1)
        }
    }
}

/// The sequence of the kind `end` whose opening token is at `pos`.
pub open spec fn read_seq_spec(tokens: Seq<Seq<char>>, pos: nat, end: SequenceDel) -> (
    Result<Value, Failure>,
    nat,
)
    decreases tokens.len() - pos, 0nat,
{
    if pos >= tokens.len() {
        (Err(Failure::ParseFailure("Sequence ended abruptly"@)), pos)
    } else {
        let (r, p) = read_items_spec(tokens, pos + 1, closer(end), Seq::empty());
        match r {
            Err(e) => (Err(e), p),
            Ok(items) => match end {
                SequenceDel::List => (Ok(Value::List(items)), p),
                SequenceDel::Vec => (Ok(Value::Vec(items)), p),
                SequenceDel::Dict => (hash_map_spec(items), p),
            },
        }
    }
}

/// The forms from token `pos` up to the token `close`, behind the forms
/// `acc` that were read before; without that token, the sequence ends
/// abruptly.
pub open spec fn read_items_spec(
    tokens: Seq<Seq<char>>,
    pos: nat,
    close: Seq<char>,
    acc: Seq<Value>,
) -> (Result<Seq<Value>, Failure>, nat)
    decreases tokens.len() - pos, 2nat,
{
    if pos >= tokens.len() {
        (Err(Failure::ParseFailure("Sequence ended abruptly"@)), pos)
    } else if tokens[pos as int] == close {
        (Ok(acc), pos + 1)
    } else {
        let (r, p) = read_form_spec(tokens, pos);
        match r {
            Err(e) => (Err(e), p),
            Ok(v) => if pos < p <= tokens.len() {
                read_items_spec(tokens, p, close, acc.push(v))
            } else {
                (Err(Failure::ParseFailure("Sequence ended abruptly"@)), p)
            },
        }
    }
}

/// The value that a source text stands for: its first form.
pub open spec fn read_spec(text: Seq<char>) -> Result<Value, Failure> {
    read_form_spec(tokenize_spec(text), 0).0
}

/// Reading moves on: a form that begins at a token ends behind it, and no
/// form ends beyond the last token.
pub proof fn read_form_advances(tokens: Seq<Seq<char>>, pos: nat)
    ensures
        pos < tokens.len() ==> pos < read_form_spec(tokens, pos).1 <= tokens.len(),
        pos >= tokens.len() ==> read_form_spec(tokens, pos).1 == pos,
    decreases tokens.len() - pos, 1nat,
{
    if pos < tokens.len() {
        let t = tokens[pos as int];
        if t.len() > 0 && (t[0] == '(' || t[0] == '[' || t[0] == '{') {
            let end = if t[0] == '(' {
                SequenceDel::List
            } else if t[0] == '[' {
                SequenceDel::Vec
            } else {
                SequenceDel::Dict
            };
            read_items_advance(tokens, pos + 1, closer(end), Seq::empty());
        }
    }
}

/// Reading the elements of a sequence moves on likewise.
pub proof fn read_items_advance(tokens: Seq<Seq<char>>, pos: nat, close: Seq<char>, acc: Seq<Value>)
    requires
        pos <= tokens.len(),
    ensures
        pos <= read_items_spec(tokens, pos, close, acc).1 <= tokens.len(),
        pos < tokens.len() ==> pos < read_items_spec(tokens, pos, close, acc).1,
    decreases tokens.len() - pos, 2nat,
{
    if pos < tokens.len() && tokens[pos as int] != close {
        read_form_advances(tokens, pos);
        let (r, p) = read_form_spec(tokens, pos);
        match r {
            Ok(v) => {
                read_items_advance(tokens, p, close, acc.push(v));
            },
            Err(_) => {},
        }
    }
}

/// The mathematical model of a `Reader`: the tokens, and how many of them
/// were read.
pub struct Tokens {
    pub tokens: Seq<Seq<char>>,
    pub position: nat,
}

impl View for Reader {
    type V = Tokens;

    closed spec fn view(&self) -> Tokens {
        Tokens { tokens: texts(self.tokens@), position: self.position as nat }
    }
}

impl Reader {
    /// A reader at the first of `tokens`.
    pub fn new(tokens: Vec<String>) -> (r: Self)
        ensures
            r@ == (Tokens { tokens: texts(tokens@), position: 0 }),
    {
        Reader { tokens, position: 0 }
    }

    /// The token that comes next, if there is one; it stays the next.
    pub fn peek(&mut self) -> (r: Option<&String>)
        ensures
            *final(self) == *old(self),
            old(self)@.position < old(self)@.tokens.len() ==> r is Some && r->0@ == old(self)@.tokens[old(self)@.position as int],
            old(self)@.position >= old(self)@.tokens.len() ==> r is None,
    {
        if self.position < self.tokens.len() {
            Some(&self.tokens[self.position])
        } else {
            None
        }
    }

    /// The token that comes next, if there is one; the reader moves behind
    /// it.
    pub fn next(&mut self) -> (r: Option<&String>)
        ensures
            final(self)@.tokens == old(self)@.tokens,
            old(self)@.position < old(self)@.tokens.len() ==> r is Some && r->0@ == old(self)@.tokens[old(
                self,
            )@.position as int] && final(self)@.position == old(self)@.position + 1,
            old(self)@.position >= old(self)@.tokens.len() ==> r is None && final(self)@.position == old(self)@.position,
    {
        let position = self.position;
        if position < self.tokens.len() {
            self.position = position + 1;
            Some(&self.tokens[position])
        } else {
            None
        }
    }
}

/// The first of `chars`, if there is one.
fn first_char(chars: &Vec<char>) -> (r: Option<char>)
    ensures
        chars.len() > 0 ==> r == Some(chars@[0]),
        chars.len() == 0 ==> r is None,
{
    if chars.len() > 0 {
        Some(chars[0])
    } else {
        None
    }
}

/// Whether `chars` spell `word`.
fn is_text(chars: &Vec<char>, word: &str) -> (r: bool)
    ensures
        r == (chars@ == word@),
{
    let w = chars_of(word);
    if w.len() != chars.len() {
        return false;
    }
    let mut i: usize = 0;
    while i < w.len()
        invariant
            i <= w.len(),
            w.len() == chars.len(),
            w@ == word@,
            forall|j: int| 0 <= j < i ==> chars@[j] == w@[j],
        decreases w.len() - i,
    {
        if chars[i] != w[i] {
            return false;
        }
        i += 1;
    }
    assert(chars@ =~= w@);
    true
}

/// The value that the atom token `token` stands for.
fn atom_of(token: &String) -> (r: MalValue)
    ensures
        r@ == atom_spec(token@),
{
    let t = chars_of(token.as_str());
    if is_text(&t, "nil") {
        MalValue::Nil
    } else if is_text(&t, "true") {
        MalValue::True
    } else if is_text(&t, "false") {
        MalValue::False
    } else {
        match parse_int(&t) {
            Some(num) => MalValue::Number(num),
            None => {
                if t.len() > 0 && t[0] == ':' {
                    MalValue::Keyword(string_from(&t, 1, t.len()))
                } else if t.len() >= 2 && t[0] == '"' && t[t.len() - 1] == '"' {
                    MalValue::String(string_from(&t, 1, t.len() - 1))
                } else {
                    MalValue::Sym(token.clone())
                }
            },
        }
    }
}

/// Reads one atom: the next token, as the value it stands for; `nil` where
/// no token is left.
pub fn read_atom(reader: &mut Reader) -> (r: Result<MalValue, MalError>)
    ensures
        final(reader)@.tokens == old(reader)@.tokens,
        old(reader)@.position < old(reader)@.tokens.len() ==> result_view(r) == Ok::<Value, Failure>(
            atom_spec(old(reader)@.tokens[old(reader)@.position as int]),
        ) && final(reader)@.position == old(reader)@.position + 1,
        old(reader)@.position >= old(reader)@.tokens.len() ==> result_view(r) == Ok::<Value, Failure>(
            Value::Nil,
        ) && final(reader)@.position == old(reader)@.position,
{
    match reader.next() {
        Some(t) => Ok(atom_of(t)),
        None => Ok(MalValue::Nil),
    }
}

/// The key under which a dictionary holds an entry for `v`.
fn key_of(v: &MalValue) -> (r: Option<String>)
    ensures
        r is Some <==> key_text(v@) is Some,
        r matches Some(k) ==> key_text(v@) == Some(k@),
{
    match v {
        MalValue::String(s) => {
            let mut k = String::from_str("\"");
            k.append(s.as_str());
            k.append("\"");
            proof {
                reveal_strlit("\"");
                assert(k@ =~= seq!['"'] + s@ + seq!['"']);
            }
            Some(k)
        },
        MalValue::Keyword(s) => {
            let mut k = String::from_str(":");
            k.append(s.as_str());
            proof {
                reveal_strlit(":");
                assert(k@ =~= seq![':'] + s@);
            }
            Some(k)
        },
        _ => None,
    }
}

/// A failure among the first `k` pairs is the outcome for any `n` pairs
/// from `k` on.
pub proof fn dict_from_stops(items: Seq<Value>, k: nat, n: nat)
    requires
        k <= n,
        dict_from(items, k) is Err,
    ensures
        dict_from(items, n) == dict_from(items, k),
    decreases n,
{
    if k < n {
        dict_from_stops(items, k, (n - 1) as nat);
    }
}

/// Makes a dictionary of the body of a `{ }`: keys and values in turn.
pub fn hash_map(vec: Vec<MalValue>) -> (r: Result<MalValue, MalError>)
    ensures
        result_view(r) == hash_map_spec(models(vec@)),
{
    if vec.len() % 2 != 0 {
        return Err(MalError::MapKeyError(String::from_str("Odd number of elements")));
    }
    let pairs = crate::outside::tuples(&vec);
    let mut entries = Dict::new();
    let mut k: usize = 0;
    while k < pairs.len()
        invariant
            k <= pairs.len(),
            pairs.len() == vec.len() / 2,
            vec.len() % 2 == 0,
            forall|i: int|
                0 <= i < pairs@.len() ==> *(#[trigger] pairs@[i]).0 == vec@[2 * i] && *pairs@[i].1
                    == vec@[2 * i + 1],
            dict_from(models(vec@), k as nat) == Ok::<Seq<(Seq<char>, Value)>, Failure>(
                entries.model(),
            ),
        decreases pairs.len() - k,
    {
        let pair = pairs[k];
        proof {
            assert(*pairs@[k as int].0 == vec@[2 * k]);
            assert(models(vec@)[2 * (k + 1) - 2] == pair.0@);
            assert(models(vec@)[2 * (k + 1) - 1] == pair.1@);
        }
        match key_of(pair.0) {
            Some(key) => {
                entries = entries.insert(key, pair.1.clone());
            },
            None => {
                proof {
                    dict_from_stops(models(vec@), (k + 1) as nat, pairs.len() as nat);
                }
                return Err(MalError::MapKeyError(pr_str(pair.0)));
            },
        }
        k += 1;
    }
    Ok(MalValue::Dict(Rc::new(entries)))
}

/// Reads the sequence whose opening token comes next, up to the token that
/// closes a sequence of the kind `end`.
pub fn read_seq(reader: &mut Reader, end: SequenceDel) -> (r: Result<MalValue, MalError>)
    ensures
        final(reader)@.tokens == old(reader)@.tokens,
        (result_view(r), final(reader)@.position) == read_seq_spec(old(reader)@.tokens, old(reader)@.position, end),
    decreases old(reader)@.tokens.len() - old(reader)@.position, 0nat,
{
    let ghost tokens = reader@.tokens;
    let ghost start = reader@.position;
    let close = match end {
        SequenceDel::List => ")",
        SequenceDel::Vec => "]",
        SequenceDel::Dict => "}",
    };
    proof {
        reveal_strlit(")");
        reveal_strlit("]");
        reveal_strlit("}");
        assert(close@ =~= closer(end));
    }
    if reader.next().is_none() {
        return Err(MalError::ParseFailure(String::from_str("Sequence ended abruptly")));
    }
    let mut vec: Vec<MalValue> = Vec::new();
    proof {
        assert(models(vec@) =~= Seq::<Value>::empty());
    }
    loop
        invariant_except_break
            read_items_spec(tokens, reader@.position, closer(end), models(vec@)) == read_items_spec(
                tokens,
                start + 1,
                closer(end),
                Seq::empty(),
            ),
        invariant
            reader@.tokens == tokens,
            tokens == old(reader)@.tokens,
            start == old(reader)@.position,
            start < tokens.len(),
            start < reader@.position,
            close@ == closer(end),
        ensures
            read_items_spec(tokens, start + 1, closer(end), Seq::empty()) == (
                Ok::<Seq<Value>, Failure>(models(vec@)),
                reader@.position,
            ),
        decreases tokens.len() - reader@.position,
    {
        let closing = match reader.peek() {
            Some(token) => crate::text::same_text(token.as_str(), close),
            None => {
                return Err(MalError::ParseFailure(String::from_str("Sequence ended abruptly")));
            },
        };
        if closing {
            reader.next();
            break ;
        }
        proof {
            read_form_advances(tokens, reader@.position);
        }
        let ghost before = models(vec@);
        match read_form(reader) {
            Ok(val) => {
                vec.push(val);
                proof {
                    assert(models(vec@) =~= before.push(val@));
                }
            },
            Err(e) => {
                return Err(e);
            },
        }
    }
    match end {
        SequenceDel::List => {
            let r = MalValue::List(Rc::new(vec));
            proof {
                model_of_sequences(r);
            }
            Ok(r)
        },
        SequenceDel::Vec => {
            let r = MalValue::Vec(Rc::new(vec));
            proof {
                model_of_sequences(r);
            }
            Ok(r)
        },
        SequenceDel::Dict => hash_map(vec),
    }
}

/// Reads the form that comes next.
pub fn read_form(reader: &mut Reader) -> (r: Result<MalValue, MalError>)
    ensures
        final(reader)@.tokens == old(reader)@.tokens,
        (result_view(r), final(reader)@.position) == read_form_spec(old(reader)@.tokens, old(reader)@.position),
    decreases old(reader)@.tokens.len() - old(reader)@.position, 1nat,
{
    let first = match reader.peek() {
        Some(t) => first_char(&chars_of(t.as_str())),
        None => {
            return Ok(MalValue::Nil);
        },
    };
    match first {
        Some('(') => read_seq(reader, SequenceDel::List),
        Some('[') => read_seq(reader, SequenceDel::Vec),
        Some('{') => read_seq(reader, SequenceDel::Dict),
        _ => read_atom(reader),
    }
}

/// Reads the first form of a source text.
pub fn read_str(str: &str) -> (r: Result<MalValue, MalError>)
    ensures
        result_view(r) == read_spec(str@),
{
    let tokens = tokenize(str);
    let mut reader = Reader::new(tokens);
    read_form(&mut reader)
}

} // verus!
