//! Reading propositional formulas: symbol aliases, truth-value literals, and a
//! precedence-climbing parser that keeps grouping and source spans for teaching.

use vstd::prelude::*;

use crate::logic::formula::{spec_symbol, Formula, FormulaV, LogicOp};
use crate::teaching::ParseError;
use crate::text::{
    char_width, chars_of, is_ascii_alpha, is_space, is_whitespace, is_word_char, push_char,
    same_chars, string_of, trim, trim_chars, utf8_len, utf8_width, lemma_utf8_len_push,
};

verus! {

/// The truth-value literals a student may type: `True/False`, `true/false`, `T/F`,
/// `⊤/⊥` and `真/假`, after trimming white space.
pub open spec fn spec_truth(input: Seq<char>) -> Option<bool> {
    let t = trim(input);
    if t == seq!['T', 'r', 'u', 'e'] || t == seq!['t', 'r', 'u', 'e'] || t == seq!['T'] || t
        == seq!['⊤'] || t == seq!['真'] {
        Some(true)
    } else if t == seq!['F', 'a', 'l', 's', 'e'] || t == seq!['f', 'a', 'l', 's', 'e'] || t
        == seq!['F'] || t == seq!['⊥'] || t == seq!['假'] {
        Some(false)
    } else {
        None
    }
}

pub open spec fn truth_refusal() -> Seq<char> {
    "请输入真值 True / False（也接受 T / F、真 / 假）；0 和 1 不是本模式的答案。"@
}

/// Whether `t` is exactly the one character `a`.
fn spells1(t: &Vec<char>, a: char) -> (r: bool)
    ensures
        r == (t@ == seq![a]),
{
    let r: bool = t.len() == 1 && t[0] == a;
    proof {
        if r {
            assert(t@ =~= seq![a]);
        }
    }
    r
}

fn spells2(t: &Vec<char>, a: char, b: char) -> (r: bool)
    ensures
        r == (t@ == seq![a, b]),
{
    let r: bool = t.len() == 2 && t[0] == a && t[1] == b;
    proof {
        if r {
            assert(t@ =~= seq![a, b]);
        }
    }
    r
}

fn spells3(t: &Vec<char>, a: char, b: char, c: char) -> (r: bool)
    ensures
        r == (t@ == seq![a, b, c]),
{
    let r: bool = t.len() == 3 && t[0] == a && t[1] == b && t[2] == c;
    proof {
        if r {
            assert(t@ =~= seq![a, b, c]);
        }
    }
    r
}

fn spells4(t: &Vec<char>, a: char, b: char, c: char, d: char) -> (r: bool)
    ensures
        r == (t@ == seq![a, b, c, d]),
{
    let r: bool = t.len() == 4 && t[0] == a && t[1] == b && t[2] == c && t[3] == d;
    proof {
        if r {
            assert(t@ =~= seq![a, b, c, d]);
        }
    }
    r
}

fn spells5(t: &Vec<char>, a: char, b: char, c: char, d: char, e: char) -> (r: bool)
    ensures
        r == (t@ == seq![a, b, c, d, e]),
{
    let r: bool = t.len() == 5 && t[0] == a && t[1] == b && t[2] == c && t[3] == d && t[4] == e;
    proof {
        if r {
            assert(t@ =~= seq![a, b, c, d, e]);
        }
    }
    r
}

/// Read a typed truth value. Numbers are not truth values here.
pub fn parse_truth(input: &str) -> (value: Result<bool, ParseError>)
    ensures
        match spec_truth(input@) {
            Some(b) => value matches Ok(v) && v == b,
            None => value matches Err(e) && e.0@ == truth_refusal(),
        },
{
    let all: Vec<char> = chars_of(input);
    let t: Vec<char> = trim_chars(&all);
    if spells4(&t, 'T', 'r', 'u', 'e') || spells4(&t, 't', 'r', 'u', 'e')
        || spells1(&t, 'T') || spells1(&t, '⊤') || spells1(&t, '真') {
        Ok(true)
    } else if spells5(&t, 'F', 'a', 'l', 's', 'e') || spells5(&t, 'f', 'a', 'l', 's', 'e') || spells1(&t, 'F') || spells1(&t, '⊥') || spells1(&t, '假') {
        Ok(false)
    } else {
        Err(ParseError::from_str(
            "请输入真值 True / False（也接受 T / F、真 / 假）；0 和 1 不是本模式的答案。",
        ))
    }
}

/// One lexical unit of a formula.
#[derive(Debug)]
pub enum Token {
    Atom(String),
    Constant(bool),
    Not,
    Op(LogicOp),
    Left,
    Right,
}

pub enum TokenV {
    Atom(Seq<char>),
    Constant(bool),
    Not,
    Op(LogicOp),
    Left,
    Right,
}

pub open spec fn token_view(t: Token) -> TokenV {
    match t {
        Token::Atom(name) => TokenV::Atom(name@),
        Token::Constant(b) => TokenV::Constant(b),
        Token::Not => TokenV::Not,
        Token::Op(op) => TokenV::Op(op),
        Token::Left => TokenV::Left,
        Token::Right => TokenV::Right,
    }
}

/// A token with the byte span it came from.
#[derive(Debug)]
pub struct Lexeme {
    pub token: Token,
    pub start: usize,
    pub end: usize,
}

pub struct LexemeV {
    pub token: TokenV,
    pub start: nat,
    pub end: nat,
}

pub open spec fn lexeme_view(l: Lexeme) -> LexemeV {
    LexemeV { token: token_view(l.token), start: l.start as nat, end: l.end as nat }
}

pub open spec fn lexemes_view(ls: Seq<Lexeme>) -> Seq<LexemeV> {
    ls.map_values(|l: Lexeme| lexeme_view(l))
}

/// The symbol aliases, tried in this order; the first that starts the text wins.
pub open spec fn operators() -> Seq<(Seq<char>, TokenV)> {
    seq![
        (seq!['⇒'], TokenV::Op(LogicOp::Implies)),
        (seq!['⊃'], TokenV::Op(LogicOp::Implies)),
        (seq!['⇔'], TokenV::Op(LogicOp::Iff)),
        (seq!['≡'], TokenV::Op(LogicOp::Iff)),
        (seq!['<', '-', '>'], TokenV::Op(LogicOp::Iff)),
        (seq!['<', '=', '>'], TokenV::Op(LogicOp::Iff)),
        (seq!['-', '>'], TokenV::Op(LogicOp::Implies)),
        (seq!['=', '>'], TokenV::Op(LogicOp::Implies)),
        (seq!['&', '&'], TokenV::Op(LogicOp::And)),
        (seq!['|', '|'], TokenV::Op(LogicOp::Or)),
        (seq!['↔'], TokenV::Op(LogicOp::Iff)),
        (seq!['→'], TokenV::Op(LogicOp::Implies)),
        (seq!['∧'], TokenV::Op(LogicOp::And)),
        (seq!['∨'], TokenV::Op(LogicOp::Or)),
        (seq!['&'], TokenV::Op(LogicOp::And)),
        (seq!['|'], TokenV::Op(LogicOp::Or)),
        (seq!['¬'], TokenV::Not),
        (seq!['~'], TokenV::Not),
        (seq!['!'], TokenV::Not),
        (seq!['('], TokenV::Left),
        (seq![')'], TokenV::Right),
        (seq!['⊤'], TokenV::Constant(true)),
        (seq!['⊥'], TokenV::Constant(false)),
        (seq!['真'], TokenV::Constant(true)),
        (seq!['假'], TokenV::Constant(false)),
        (seq!['∼'], TokenV::Not),
    ]
}

/// The first alias, from position `k` of the table on, that starts `s`.
pub open spec fn match_operator(s: Seq<char>, k: nat) -> Option<(nat, TokenV)>
    decreases 26 - k,
{
    if k >= 26 {
        None
    } else if operators()[k as int].0.is_prefix_of(s) {
        Some((operators()[k as int].0.len(), operators()[k as int].1))
    } else {
        match_operator(s, k + 1)
    }
}

/// How many letters, digits and underscores start `s`.
pub open spec fn word_len(s: Seq<char>) -> nat
    decreases s.len(),
{
    if s.len() > 0 && is_word_char(s[0]) {
        1 + word_len(s.drop_first())
    } else {
        0
    }
}

/// A name that is a keyword stands for a constant or a connective; any other is a letter.
pub open spec fn keyword(name: Seq<char>) -> TokenV {
    if name == seq!['T', 'r', 'u', 'e'] || name == seq!['t', 'r', 'u', 'e'] || name == seq!['T'] {
        TokenV::Constant(true)
    } else if name == seq!['F', 'a', 'l', 's', 'e'] || name == seq!['f', 'a', 'l', 's', 'e']
        || name == seq!['F'] {
        TokenV::Constant(false)
    } else if name == seq!['n', 'o', 't'] {
        TokenV::Not
    } else if name == seq!['a', 'n', 'd'] {
        TokenV::Op(LogicOp::And)
    } else if name == seq!['o', 'r'] {
        TokenV::Op(LogicOp::Or)
    } else {
        TokenV::Atom(name)
    }
}

pub open spec fn unknown_symbol(c: char) -> Seq<char> {
    "无法识别的逻辑符号："@.push(c)
}

/// The token that starts `s` and how many characters it takes.
pub open spec fn scan(s: Seq<char>) -> Result<(TokenV, nat), Seq<char>> {
    match match_operator(s, 0) {
        Some((n, token)) => Ok((token, n)),
        None => {
            let n = word_len(s);
            if n == 0 || !is_ascii_alpha(s[0]) {
                Err(unknown_symbol(s[0]))
            } else {
                Ok((keyword(s.take(n as int)), n))
            }
        },
    }
}

pub open spec fn too_many_tokens() -> Seq<char> {
    "公式最多 128 个词法单元。"@
}

pub open spec fn too_long_formula() -> Seq<char> {
    "公式最多 2048 字节。"@
}

/// The tokens of `s`, which starts `offset` bytes into the source and follows `count`
/// tokens already read.
pub open spec fn lex(s: Seq<char>, offset: nat, count: nat) -> Result<Seq<LexemeV>, Seq<char>>
    decreases s.len(),
{
    if s.len() == 0 {
        Ok(Seq::empty())
    } else if is_space(s[0]) {
        lex(s.drop_first(), offset + utf8_width(s[0]), count)
    } else {
        match scan(s) {
            Err(e) => Err(e),
            Ok((token, n)) => if 0 < n <= s.len() {
                let end = offset + utf8_len(s.take(n as int));
                if count + 1 > 128 {
                    Err(too_many_tokens())
                } else {
                    match lex(s.skip(n as int), end, count + 1) {
                        Ok(rest) => Ok(seq![LexemeV { token, start: offset, end }] + rest),
                        Err(e) => Err(e),
                    }
                }
            } else {
                Err(Seq::empty())
            },
        }
    }
}

/// Every token of a formula with its byte span, or why there is none.
pub open spec fn spec_tokenize(source: Seq<char>) -> Result<Seq<LexemeV>, Seq<char>> {
    if utf8_len(source) > 2048 {
        Err(too_long_formula())
    } else {
        lex(source, 0, 0)
    }
}

fn operator_entry(k: usize) -> (entry: (Vec<char>, Token))
    requires
        k < 26,
    ensures
        entry.0@ == operators()[k as int].0,
        token_view(entry.1) == operators()[k as int].1,
{
    match k {
        0 => (vec!['⇒'], Token::Op(LogicOp::Implies)),
        1 => (vec!['⊃'], Token::Op(LogicOp::Implies)),
        2 => (vec!['⇔'], Token::Op(LogicOp::Iff)),
        3 => (vec!['≡'], Token::Op(LogicOp::Iff)),
        4 => (vec!['<', '-', '>'], Token::Op(LogicOp::Iff)),
        5 => (vec!['<', '=', '>'], Token::Op(LogicOp::Iff)),
        6 => (vec!['-', '>'], Token::Op(LogicOp::Implies)),
        7 => (vec!['=', '>'], Token::Op(LogicOp::Implies)),
        8 => (vec!['&', '&'], Token::Op(LogicOp::And)),
        9 => (vec!['|', '|'], Token::Op(LogicOp::Or)),
        10 => (vec!['↔'], Token::Op(LogicOp::Iff)),
        11 => (vec!['→'], Token::Op(LogicOp::Implies)),
        12 => (vec!['∧'], Token::Op(LogicOp::And)),
        13 => (vec!['∨'], Token::Op(LogicOp::Or)),
        14 => (vec!['&'], Token::Op(LogicOp::And)),
        15 => (vec!['|'], Token::Op(LogicOp::Or)),
        16 => (vec!['¬'], Token::Not),
        17 => (vec!['~'], Token::Not),
        18 => (vec!['!'], Token::Not),
        19 => (vec!['('], Token::Left),
        20 => (vec![')'], Token::Right),
        21 => (vec!['⊤'], Token::Constant(true)),
        22 => (vec!['⊥'], Token::Constant(false)),
        23 => (vec!['真'], Token::Constant(true)),
        24 => (vec!['假'], Token::Constant(false)),
        _ => (vec!['∼'], Token::Not),
    }
}

/// Whether `symbol` occurs in `v` at position `i`.
fn occurs_at(v: &Vec<char>, i: usize, symbol: &Vec<char>) -> (r: bool)
    requires
        i <= v.len(),
    ensures
        r == symbol@.is_prefix_of(v@.skip(i as int)),
{
    if symbol.len() > v.len() - i {
        return false;
    }
    let mut k: usize = 0;
    while k < symbol.len()
        invariant
            k <= symbol.len(),
            i + symbol.len() <= v.len(),
            forall|j: int| 0 <= j < k ==> symbol@[j] == v@[i + j],
        decreases symbol.len() - k,
    {
        if symbol[k] != v[i + k] {
            assert(v@.skip(i as int)[k as int] == v@[i + k]);
            return false;
        }
        k += 1;
    }
    assert(symbol@ =~= v@.skip(i as int).take(symbol.len() as int));
    true
}

/// The alias that starts `v[i..]`, if any, as `match_operator` finds it.
fn operator_at(v: &Vec<char>, i: usize) -> (found: Option<(usize, Token)>)
    requires
        i <= v.len(),
    ensures
        match match_operator(v@.skip(i as int), 0) {
            Some((n, token)) => found matches Some((m, t)) && m == n && token_view(t) == token,
            None => found is None,
        },
{
    let mut k: usize = 0;
    while k < 26
        invariant
            k <= 26,
            i <= v.len(),
            match_operator(v@.skip(i as int), 0) == match_operator(v@.skip(i as int), k as nat),
        decreases 26 - k,
    {
        let (symbol, token) = operator_entry(k);
        if occurs_at(v, i, &symbol) {
            return Some((symbol.len(), token));
        }
        k += 1;
    }
    None
}

fn word_length(v: &Vec<char>, i: usize) -> (n: usize)
    requires
        i <= v.len(),
    ensures
        n == word_len(v@.skip(i as int)),
        i + n <= v.len(),
{
    let mut j: usize = i;
    while j < v.len() && (('a' <= v[j] && v[j] <= 'z') || ('A' <= v[j] && v[j] <= 'Z') || ('0'
        <= v[j] && v[j] <= '9') || v[j] == '_')
        invariant
            i <= j <= v.len(),
            word_len(v@.skip(i as int)) == (j - i) + word_len(v@.skip(j as int)),
        decreases v.len() - j,
    {
        assert(v@.skip(j as int).drop_first() =~= v@.skip(j + 1));
        j += 1;
    }
    j - i
}

fn keyword_token(name: Vec<char>) -> (token: Token)
    ensures
        token_view(token) == keyword(name@),
{
    if spells4(&name, 'T', 'r', 'u', 'e') || spells4(&name, 't', 'r', 'u', 'e')
        || spells1(&name, 'T') {
        Token::Constant(true)
    } else if spells5(&name, 'F', 'a', 'l', 's', 'e') || spells5(&name, 'f', 'a', 'l', 's', 'e') || spells1(&name, 'F') {
        Token::Constant(false)
    } else if spells3(&name, 'n', 'o', 't') {
        Token::Not
    } else if spells3(&name, 'a', 'n', 'd') {
        Token::Op(LogicOp::And)
    } else if spells2(&name, 'o', 'r') {
        Token::Op(LogicOp::Or)
    } else {
        Token::Atom(string_of(&name))
    }
}

/// Prepend tokens already read to the outcome of reading the rest.
pub open spec fn after(read: Seq<LexemeV>, rest: Result<Seq<LexemeV>, Seq<char>>) -> Result<
    Seq<LexemeV>,
    Seq<char>,
> {
    match rest {
        Ok(r) => Ok(read + r),
        Err(e) => Err(e),
    }
}

/// The byte length of `v`, or `None` once it passes `limit`.
fn utf8_length_within(v: &Vec<char>, limit: usize) -> (n: Option<usize>)
    ensures
        match n {
            Some(m) => m == utf8_len(v@) && m <= limit,
            None => utf8_len(v@) > limit,
        },
{
    let mut total: usize = 0;
    let mut i: usize = 0;
    while i < v.len()
        invariant
            i <= v.len(),
            total == utf8_len(v@.take(i as int)),
            total <= limit,
        decreases v.len() - i,
    {
        let w: usize = char_width(v[i]);
        proof {
            lemma_utf8_len_push(v@.take(i as int), v@[i as int]);
            assert(v@.take(i as int).push(v@[i as int]) =~= v@.take(i + 1));
        }
        if w > limit - total {
            proof {
                crate::text::lemma_utf8_len_concat(v@.take(i + 1), v@.skip(i + 1));
                assert(v@.take(i + 1) + v@.skip(i + 1) =~= v@);
            }
            return None;
        }
        total = total + w;
        i += 1;
    }
    assert(v@.take(v.len() as int) =~= v@);
    Some(total)
}

/// Split a formula into tokens with their byte spans.
pub fn tokenize(source: &str) -> (result: Result<Vec<Lexeme>, ParseError>)
    ensures
        match spec_tokenize(source@) {
            Ok(tokens) => result matches Ok(r) && lexemes_view(r@) == tokens,
            Err(e) => result matches Err(err) && err.0@ == e,
        },
{
    let v: Vec<char> = chars_of(source);
    if utf8_length_within(&v, 2048).is_none() {
        return Err(ParseError::from_str("公式最多 2048 字节。"));
    }
    let mut tokens: Vec<Lexeme> = Vec::new();
    let mut i: usize = 0;
    let mut offset: usize = 0;
    proof {
        assert(v@.skip(0) =~= v@);
        assert(v@.take(0) =~= Seq::<char>::empty());
        assert(lexemes_view(tokens@) =~= Seq::<LexemeV>::empty());
        assert(Seq::<LexemeV>::empty() + Seq::<LexemeV>::empty() =~= Seq::<LexemeV>::empty());
        match lex(v@, 0, 0) {
            Ok(r) => assert(Seq::<LexemeV>::empty() + r =~= r),
            Err(_) => {},
        }
    }
    while i < v.len()
        invariant
            i <= v.len(),
            v@ == source@,
            utf8_len(v@) <= 2048,
            offset == utf8_len(v@.take(i as int)),
            tokens@.len() <= 128,
            lex(v@, 0, 0) == after(
                lexemes_view(tokens@),
                lex(v@.skip(i as int), offset as nat, tokens@.len()),
            ),
        decreases v.len() - i,
    {
        proof {
            crate::text::lemma_utf8_len_concat(v@.take(i as int), v@.skip(i as int));
            assert(v@.take(i as int) + v@.skip(i as int) =~= v@);
        }
        let c: char = v[i];
        let ghost rest = v@.skip(i as int);
        assert(rest[0] == c);
        if is_whitespace(c) {
            proof {
                assert(rest.drop_first() =~= v@.skip(i + 1));
                lemma_utf8_len_push(v@.take(i as int), c);
                assert(v@.take(i as int).push(c) =~= v@.take(i + 1));
                crate::text::lemma_utf8_len_concat(v@.take(i + 1), v@.skip(i + 1));
                assert(v@.take(i + 1) + v@.skip(i + 1) =~= v@);
            }
            offset = offset + char_width(c);
            i += 1;
        } else {
            let (token, n): (Token, usize) = match operator_at(&v, i) {
                Some((n, token)) => (token, n),
                None => {
                    let n: usize = word_length(&v, i);
                    if n == 0 || !(('a' <= c && c <= 'z') || ('A' <= c && c <= 'Z')) {
                        let mut message: String = String::from_str("无法识别的逻辑符号：");
                        push_char(&mut message, c);
                        return Err(ParseError(message));
                    }
                    let name: Vec<char> = crate::text::slice_of(&v, i, i + n);
                    proof {
                        assert(name@ =~= rest.take(n as int));
                    }
                    (keyword_token(name), n)
                },
            };
            proof {
                crate::text::lemma_utf8_len_bounds(rest.take(n as int));
            }
            assert(0 < n <= rest.len()) by {
                if match_operator(rest, 0) is Some {
                    lemma_operator_nonempty(rest, 0);
                }
            }
            let width: usize = span_width(&v, i, n);
            if tokens.len() + 1 > 128 {
                return Err(ParseError::from_str("公式最多 128 个词法单元。"));
            }
            let ghost before = lexemes_view(tokens@);
            tokens.push(Lexeme { token, start: offset, end: offset + width });
            proof {
                assert(rest.skip(n as int) =~= v@.skip(i + n));
                crate::text::lemma_utf8_len_concat(v@.take(i as int), rest.take(n as int));
                assert(v@.take(i as int) + rest.take(n as int) =~= v@.take(i + n));
                assert(lexemes_view(tokens@) =~= before.push(lexeme_view(tokens@.last())));
                match lex(v@.skip(i + n), (offset + width) as nat, tokens@.len()) {
                    Ok(r) => {
                        assert(before + (seq![lexeme_view(tokens@.last())] + r) =~= lexemes_view(
                            tokens@,
                        ) + r);
                    },
                    Err(_) => {},
                }
            }
            offset = offset + width;
            i = i + n;
        }
    }
    proof {
        assert(v@.skip(v.len() as int) =~= Seq::<char>::empty());
        assert(lexemes_view(tokens@) + Seq::<LexemeV>::empty() =~= lexemes_view(tokens@));
    }
    Ok(tokens)
}

proof fn lemma_operator_nonempty(s: Seq<char>, k: nat)
    requires
        match_operator(s, k) is Some,
    ensures
        0 < match_operator(s, k).unwrap().0 <= s.len(),
    decreases 26 - k,
{
    if k < 26 && !operators()[k as int].0.is_prefix_of(s) {
        lemma_operator_nonempty(s, k + 1);
    }
}

/// The byte length of `v[i..i + n]`.
fn span_width(v: &Vec<char>, i: usize, n: usize) -> (w: usize)
    requires
        i + n <= v.len(),
        utf8_len(v@) <= 2048,
    ensures
        w == utf8_len(v@.skip(i as int).take(n as int)),
        w <= 2048,
{
    proof {
        crate::text::lemma_utf8_len_concat(v@.take(i as int), v@.skip(i as int).take(n as int));
        crate::text::lemma_utf8_len_concat(
            v@.take(i as int) + v@.skip(i as int).take(n as int),
            v@.skip(i + n),
        );
        assert(v@.take(i as int) + v@.skip(i as int).take(n as int) + v@.skip(i + n) =~= v@);
    }
    let mut w: usize = 0;
    let mut k: usize = 0;
    while k < n
        invariant
            k <= n,
            i + n <= v.len(),
            w == utf8_len(v@.skip(i as int).take(k as int)),
            utf8_len(v@.skip(i as int).take(n as int)) <= 2048,
        decreases n - k,
    {
        proof {
            lemma_utf8_len_push(v@.skip(i as int).take(k as int), v@[i + k]);
            assert(v@.skip(i as int).take(k as int).push(v@[i + k]) =~= v@.skip(i as int).take(
                k + 1,
            ));
            crate::text::lemma_utf8_len_concat(
                v@.skip(i as int).take(k + 1),
                v@.skip(i as int).take(n as int).skip(k + 1),
            );
            assert(v@.skip(i as int).take(k + 1) + v@.skip(i as int).take(n as int).skip(k + 1)
                =~= v@.skip(i as int).take(n as int));
        }
        w = w + char_width(v[i + k]);
        k += 1;
    }
    w
}

} // verus!

verus! {

/// The concrete syntax of a formula: it keeps grouping and the byte span of every part,
/// which teaching needs; a proof formula erases only the grouping.
#[derive(Debug)]
pub struct Syntax {
    pub kind: SyntaxKind,
    pub start: usize,
    pub end: usize,
}

#[derive(Debug)]
pub enum SyntaxKind {
    Atom(String),
    Constant(bool),
    Not(Box<Syntax>),
    Group(Box<Syntax>),
    Binary(LogicOp, Box<Syntax>, Box<Syntax>),
}

pub struct Tree {
    pub kind: TreeKind,
    pub start: nat,
    pub end: nat,
}

pub enum TreeKind {
    Atom(Seq<char>),
    Constant(bool),
    Not(Box<Tree>),
    Group(Box<Tree>),
    Binary(LogicOp, Box<Tree>, Box<Tree>),
}

pub open spec fn syntax_view(s: Syntax) -> Tree
    decreases s,
{
    Tree {
        kind: match s.kind {
            SyntaxKind::Atom(name) => TreeKind::Atom(name@),
            SyntaxKind::Constant(b) => TreeKind::Constant(b),
            SyntaxKind::Not(child) => TreeKind::Not(Box::new(syntax_view(*child))),
            SyntaxKind::Group(child) => TreeKind::Group(Box::new(syntax_view(*child))),
            SyntaxKind::Binary(op, left, right) => TreeKind::Binary(
                op,
                Box::new(syntax_view(*left)),
                Box::new(syntax_view(*right)),
            ),
        },
        start: s.start as nat,
        end: s.end as nat,
    }
}

/// How tightly a connective binds on its left and on its right: equivalence loosest,
/// then implication (right-associative), disjunction, conjunction.
pub open spec fn binding(op: LogicOp) -> (u8, u8) {
    match op {
        LogicOp::Iff => (1, 2),
        LogicOp::Implies => (3, 3),
        LogicOp::Or => (5, 6),
        LogicOp::And => (7, 8),
    }
}

pub open spec fn too_deep() -> Seq<char> {
    "公式最多嵌套 32 层。"@
}

pub open spec fn needs_operand() -> Seq<char> {
    "这里需要一个命题或子公式。"@
}

pub open spec fn needs_atom() -> Seq<char> {
    "这里需要一个命题或左括号。"@
}

pub open spec fn needs_right() -> Seq<char> {
    "缺少右括号。"@
}

pub open spec fn trailing() -> Seq<char> {
    "公式后有多余内容或括号。"@
}

/// One operand at `pos` (a letter, a constant, a negation or a bracketed formula), then
/// every connective binding at least `minimum` after it.
pub open spec fn spec_expression(toks: Seq<LexemeV>, pos: int, minimum: u8, depth: nat) -> Result<
    (Tree, int),
    Seq<char>,
>
    decreases toks.len() - pos, 1nat,
{
    if depth > 32 {
        Err(too_deep())
    } else if pos < 0 || pos >= toks.len() {
        Err(needs_operand())
    } else {
        let lx = toks[pos];
        match lx.token {
            TokenV::Atom(name) => spec_climb(
                toks,
                pos + 1,
                minimum,
                depth,
                Tree { kind: TreeKind::Atom(name), start: lx.start, end: lx.end },
            ),
            TokenV::Constant(b) => spec_climb(
                toks,
                pos + 1,
                minimum,
                depth,
                Tree { kind: TreeKind::Constant(b), start: lx.start, end: lx.end },
            ),
            TokenV::Not => match spec_expression(toks, pos + 1, 9, depth + 1) {
                Ok((inner, p)) => if pos < p <= toks.len() {
                    spec_climb(
                        toks,
                        p,
                        minimum,
                        depth,
                        Tree {
                            kind: TreeKind::Not(Box::new(inner)),
                            start: lx.start,
                            end: toks[p - 1].end,
                        },
                    )
                } else {
                    Err(needs_operand())
                },
                Err(e) => Err(e),
            },
            TokenV::Left => match spec_expression(toks, pos + 1, 0, depth + 1) {
                Ok((inside, p)) => if pos < p <= toks.len() {
                    if p < toks.len() && toks[p].token is Right {
                        spec_climb(
                            toks,
                            p + 1,
                            minimum,
                            depth,
                            Tree {
                                kind: TreeKind::Group(Box::new(inside)),
                                start: lx.start,
                                end: toks[p].end,
                            },
                        )
                    } else {
                        Err(needs_right())
                    }
                } else {
                    Err(needs_operand())
                },
                Err(e) => Err(e),
            },
            _ => Err(needs_atom()),
        }
    }
}

/// Extend `left` by every connective at `pos` on that binds at least `minimum`.
pub open spec fn spec_climb(toks: Seq<LexemeV>, pos: int, minimum: u8, depth: nat, left: Tree) -> Result<
    (Tree, int),
    Seq<char>,
>
    decreases toks.len() - pos, 0nat,
{
    if 0 <= pos < toks.len() && toks[pos].token is Op {
        let op = toks[pos].token->Op_0;
        if binding(op).0 < minimum {
            Ok((left, pos))
        } else {
            match spec_expression(toks, pos + 1, binding(op).1, depth + 1) {
                Ok((right, p)) => if pos < p <= toks.len() {
                    spec_climb(
                        toks,
                        p,
                        minimum,
                        depth,
                        Tree {
                            kind: TreeKind::Binary(op, Box::new(left), Box::new(right)),
                            start: left.start,
                            end: right.end,
                        },
                    )
                } else {
                    Err(needs_operand())
                },
                Err(e) => Err(e),
            }
        }
    } else {
        Ok((left, pos))
    }
}

/// The concrete syntax of a whole formula, or why it is not one.
pub open spec fn spec_parse_syntax(source: Seq<char>) -> Result<Tree, Seq<char>> {
    match spec_tokenize(source) {
        Err(e) => Err(e),
        Ok(toks) => match spec_expression(toks, 0, 0, 0) {
            Err(e) => Err(e),
            Ok((tree, p)) => if p == toks.len() {
                Ok(tree)
            } else {
                Err(trailing())
            },
        },
    }
}

/// A formula with its grouping erased.
pub open spec fn tree_formula(t: Tree) -> FormulaV
    decreases t,
{
    match t.kind {
        TreeKind::Atom(name) => FormulaV::Atom(name),
        TreeKind::Constant(b) => FormulaV::Constant(b),
        TreeKind::Not(child) => FormulaV::Not(Box::new(tree_formula(*child))),
        TreeKind::Group(child) => tree_formula(*child),
        TreeKind::Binary(op, left, right) => FormulaV::Binary(
            op,
            Box::new(tree_formula(*left)),
            Box::new(tree_formula(*right)),
        ),
    }
}

pub open spec fn spec_parse_formula(source: Seq<char>) -> Result<FormulaV, Seq<char>> {
    match spec_parse_syntax(source) {
        Ok(tree) => Ok(tree_formula(tree)),
        Err(e) => Err(e),
    }
}

fn left_binding(op: LogicOp) -> (b: (u8, u8))
    ensures
        b == binding(op),
{
    match op {
        LogicOp::Iff => (1, 2),
        LogicOp::Implies => (3, 3),
        LogicOp::Or => (5, 6),
        LogicOp::And => (7, 8),
    }
}

fn clone_name(name: &String) -> (r: String)
    ensures
        r@ == name@,
{
    name.clone()
}

/// Every lexeme's span ends where the source still has bytes.
pub open spec fn spans_bounded(toks: Seq<LexemeV>) -> bool {
    forall|k: int| 0 <= k < toks.len() ==> #[trigger] toks[k].end <= 2048 && toks[k].start <= 2048
}

fn expression(toks: &Vec<Lexeme>, position: &mut usize, minimum: u8, depth: usize) -> (result:
    Result<Syntax, ParseError>)
    requires
        *old(position) <= toks@.len(),
        spans_bounded(lexemes_view(toks@)),
        depth <= 33,
    ensures
        match spec_expression(lexemes_view(toks@), *old(position) as int, minimum, depth as nat) {
            Ok((tree, p)) => result matches Ok(s) && syntax_view(s) == tree && *final(position)
                == p,
            Err(e) => result matches Err(err) && err.0@ == e,
        },
        result is Ok ==> *old(position) < *final(position) <= toks@.len(),
    decreases toks@.len() - *old(position),
{
    let ghost tv = lexemes_view(toks@);
    let ghost pos0 = *position as int;
    if depth > 32 {
        return Err(ParseError::from_str("公式最多嵌套 32 层。"));
    }
    if *position >= toks.len() {
        return Err(ParseError::from_str("这里需要一个命题或子公式。"));
    }
    let here: usize = *position;
    let start: usize = toks[here].start;
    assert(tv[here as int] == lexeme_view(toks@[here as int]));
    *position = here + 1;
    let kind: SyntaxKind = match &toks[here].token {
        Token::Atom(name) => SyntaxKind::Atom(clone_name(name)),
        Token::Constant(b) => SyntaxKind::Constant(*b),
        Token::Not => {
            let inner: Syntax = match expression(toks, position, 9, depth + 1) {
                Ok(inner) => inner,
                Err(e) => return Err(e),
            };
            SyntaxKind::Not(Box::new(inner))
        },
        Token::Left => {
            let inside: Syntax = match expression(toks, position, 0, depth + 1) {
                Ok(inside) => inside,
                Err(e) => return Err(e),
            };
            let closed: bool = *position < toks.len() && match &toks[*position].token {
                Token::Right => true,
                _ => false,
            };
            if !closed {
                proof {
                    if *position < toks.len() {
                        assert(tv[*position as int] == lexeme_view(toks@[*position as int]));
                    }
                }
                return Err(ParseError::from_str("缺少右括号。"));
            }
            proof {
                assert(tv[*position as int] == lexeme_view(toks@[*position as int]));
            }
            *position = *position + 1;
            SyntaxKind::Group(Box::new(inside))
        },
        _ => {
            return Err(ParseError::from_str("这里需要一个命题或左括号。"));
        },
    };
    let last: usize = *position - 1;
    assert(tv[last as int] == lexeme_view(toks@[last as int]));
    let mut left: Syntax = Syntax { kind, start, end: toks[last].end };
    // Every connective that binds tightly enough extends `left`; the spec's recursion on
    // what remains is unchanged by each step.
    loop
        invariant
            tv == lexemes_view(toks@),
            spans_bounded(tv),
            depth <= 32,
            pos0 == *old(position) as int,
            pos0 < *position <= toks@.len(),
            spec_expression(tv, pos0, minimum, depth as nat) == spec_climb(
                tv,
                *position as int,
                minimum,
                depth as nat,
                syntax_view(left),
            ),
        ensures
            pos0 < *position <= toks@.len(),
            spec_expression(tv, pos0, minimum, depth as nat) == Ok::<(Tree, int), Seq<char>>(
                (syntax_view(left), *position as int),
            ),
        decreases toks@.len() - *position,
    {
        if *position >= toks.len() {
            break;
        }
        let at: usize = *position;
        assert(tv[at as int] == lexeme_view(toks@[at as int]));
        let op: LogicOp = match &toks[at].token {
            Token::Op(op) => *op,
            _ => {
                break;
            },
        };
        let (lb, rb): (u8, u8) = left_binding(op);
        if lb < minimum {
            break;
        }
        *position = at + 1;
        let right: Syntax = match expression(toks, position, rb, depth + 1) {
            Ok(right) => right,
            Err(e) => {
                assert(spec_climb(tv, at as int, minimum, depth as nat, syntax_view(left)) == Err::<
                    (Tree, int),
                    Seq<char>,
                >(e.0@));
                return Err(e);
            },
        };
        let left_start: usize = left.start;
        let right_end: usize = right.end;
        left = Syntax {
            kind: SyntaxKind::Binary(op, Box::new(left), Box::new(right)),
            start: left_start,
            end: right_end,
        };
    }
    Ok(left)
}

/// Read the concrete syntax of a whole formula.
pub fn parse_syntax(source: &str) -> (result: Result<Syntax, ParseError>)
    ensures
        match spec_parse_syntax(source@) {
            Ok(tree) => result matches Ok(s) && syntax_view(s) == tree,
            Err(e) => result matches Err(err) && err.0@ == e,
        },
{
    let toks: Vec<Lexeme> = tokenize(source)?;
    proof {
        lemma_spans_bounded(source@);
    }
    let mut position: usize = 0;
    let tree: Syntax = expression(&toks, &mut position, 0, 0)?;
    if position != toks.len() {
        return Err(ParseError::from_str("公式后有多余内容或括号。"));
    }
    Ok(tree)
}

proof fn lemma_spans_bounded(source: Seq<char>)
    requires
        spec_tokenize(source) is Ok,
    ensures
        spans_bounded(spec_tokenize(source)->Ok_0),
{
    lemma_lex_spans(source, 0, 0);
}

/// Every span `lex` reports lies between `offset` and the byte length of what it read.
proof fn lemma_lex_spans(s: Seq<char>, offset: nat, count: nat)
    requires
        lex(s, offset, count) is Ok,
        offset + utf8_len(s) <= 2048,
    ensures
        forall|k: int|
            0 <= k < lex(s, offset, count)->Ok_0.len() ==> offset <= (#[trigger] lex(
                s,
                offset,
                count,
            )->Ok_0[k]).start && lex(s, offset, count)->Ok_0[k].end <= offset + utf8_len(s)
                && lex(s, offset, count)->Ok_0[k].start <= offset + utf8_len(s),
    decreases s.len(),
{
    if s.len() == 0 {
    } else if is_space(s[0]) {
        crate::text::lemma_utf8_len_concat(seq![s[0]], s.drop_first());
        assert(seq![s[0]] + s.drop_first() =~= s);
        assert(seq![s[0]].drop_last() =~= Seq::<char>::empty());
        lemma_lex_spans(s.drop_first(), offset + utf8_width(s[0]), count);
    } else {
        let (token, n) = scan(s)->Ok_0;
        let end = offset + utf8_len(s.take(n as int));
        crate::text::lemma_utf8_len_concat(s.take(n as int), s.skip(n as int));
        assert(s.take(n as int) + s.skip(n as int) =~= s);
        lemma_lex_spans(s.skip(n as int), end, count + 1);
        let rest = lex(s.skip(n as int), end, count + 1)->Ok_0;
        let all = lex(s, offset, count)->Ok_0;
        assert(all =~= seq![LexemeV { token, start: offset, end }] + rest);
        assert forall|k: int| 0 <= k < all.len() implies offset <= (#[trigger] all[k]).start
            && all[k].end <= offset + utf8_len(s) && all[k].start <= offset + utf8_len(s) by {
            if k > 0 {
                assert(all[k] == rest[k - 1]);
            }
        }
    }
}

/// Read a formula, erasing its grouping.
pub fn parse_formula(source: &str) -> (result: Result<Formula, ParseError>)
    ensures
        match spec_parse_formula(source@) {
            Ok(f) => result matches Ok(r) && r@ == f,
            Err(e) => result matches Err(err) && err.0@ == e,
        },
{
    let syntax: Syntax = parse_syntax(source)?;
    Ok(syntax.formula())
}

impl Syntax {
    /// The formula this syntax writes, grouping erased.
    pub fn formula(&self) -> (f: Formula)
        ensures
            f@ == tree_formula(syntax_view(*self)),
        decreases self,
    {
        match &self.kind {
            SyntaxKind::Atom(name) => Formula::Atom(clone_name(name)),
            SyntaxKind::Constant(b) => Formula::Constant(*b),
            SyntaxKind::Not(child) => Formula::Not(Box::new(child.formula())),
            SyntaxKind::Group(child) => child.formula(),
            SyntaxKind::Binary(op, left, right) => Formula::Binary(
                *op,
                Box::new(left.formula()),
                Box::new(right.formula()),
            ),
        }
    }
}


proof fn lemma_letter_is_no_symbol(s: Seq<char>, k: nat)
    requires
        s.len() > 0,
        is_ascii_alpha(s[0]),
        k <= 26,
    ensures
        match_operator(s, k) is None,
    decreases 26 - k,
{
    if k < 26 {
        let entry = operators()[k as int].0;
        assert(entry.len() > 0 && !is_ascii_alpha(entry[0]));
        assert(!entry.is_prefix_of(s)) by {
            if entry.is_prefix_of(s) {
                assert(s.subrange(0, entry.len() as int)[0] == s[0]);
            }
        }
        lemma_letter_is_no_symbol(s, k + 1);
    }
}

pub open spec fn symbol_char(op: LogicOp) -> char {
    match op {
        LogicOp::And => '∧',
        LogicOp::Or => '∨',
        LogicOp::Implies => '→',
        LogicOp::Iff => '↔',
    }
}

spec fn symbol_entry(op: LogicOp) -> nat {
    match op {
        LogicOp::And => 12,
        LogicOp::Or => 13,
        LogicOp::Implies => 11,
        LogicOp::Iff => 10,
    }
}

proof fn lemma_symbol_scans(s: Seq<char>, op: LogicOp, k: nat)
    requires
        s.len() > 0,
        s[0] == symbol_char(op),
        k <= symbol_entry(op),
    ensures
        match_operator(s, k) == Some((1nat, TokenV::Op(op))),
    decreases 26 - k,
{
    let entry = operators()[k as int].0;
    if k == symbol_entry(op) {
        assert(entry =~= s.subrange(0, 1));
        assert(entry.is_prefix_of(s));
    } else {
        assert(entry.len() > 0 && entry[0] != s[0]);
        assert(!entry.is_prefix_of(s)) by {
            if entry.is_prefix_of(s) {
                assert(s.subrange(0, entry.len() as int)[0] == s[0]);
            }
        }
        lemma_symbol_scans(s, op, k + 1);
    }
}

proof fn lemma_letter_scans(s: Seq<char>)
    requires
        s.len() > 0,
        s[0] == 'P' || s[0] == 'Q' || s[0] == 'R',
        s.len() == 1 || s[1] == ' ',
    ensures
        scan(s) == Ok::<(TokenV, nat), Seq<char>>((TokenV::Atom(seq![s[0]]), 1nat)),
{
    lemma_letter_is_no_symbol(s, 0);
    if s.len() > 1 {
        assert(word_len(s.drop_first()) == 0);
    } else {
        assert(word_len(s.drop_first()) == 0);
    }
    assert(word_len(s) == 1);
    assert(s.take(1) =~= seq![s[0]]);
    assert(seq![s[0]] != seq!['T', 'r', 'u', 'e'] && seq![s[0]] != seq!['t', 'r', 'u', 'e']);
    assert(seq![s[0]] != seq!['T']) by {
        assert(seq![s[0]][0] != seq!['T'][0]);
    }
    assert(seq![s[0]] != seq!['F']) by {
        assert(seq![s[0]][0] != seq!['F'][0]);
    }
    assert(seq![s[0]] != seq!['F', 'a', 'l', 's', 'e'] && seq![s[0]] != seq!['f', 'a', 'l', 's', 'e']);
    assert(seq![s[0]] != seq!['n', 'o', 't'] && seq![s[0]] != seq!['a', 'n', 'd']);
    assert(seq![s[0]] != seq!['o', 'r']);
}

/// Each connective's symbol, as `LogicOp::symbol` prints it, parses back to that
/// connective: `parse_formula` reads `P sym Q` as the connective between the letters `P`
/// and `Q`, and no two connectives share a symbol.
pub proof fn law_connective_symbols_parse_back(op: LogicOp)
    ensures
        spec_parse_formula("P "@ + spec_symbol(op) + " Q"@) == Ok::<FormulaV, Seq<char>>(
            FormulaV::Binary(op, Box::new(FormulaV::Atom("P"@)), Box::new(FormulaV::Atom("Q"@))),
        ),
        forall|other: LogicOp| other != op ==> spec_symbol(other) != spec_symbol(op),
{
    reveal_strlit("P ");
    reveal_strlit(" Q");
    reveal_strlit("P");
    reveal_strlit("Q");
    assert("P "@ =~= seq!['P', ' ']);
    assert(" Q"@ =~= seq![' ', 'Q']);
    assert("P"@ =~= seq!['P']);
    assert("Q"@ =~= seq!['Q']);
    assert forall|other: LogicOp| other != op implies spec_symbol(other) != spec_symbol(op) by {
        reveal_strlit("∧");
        reveal_strlit("∨");
        reveal_strlit("→");
        reveal_strlit("↔");
        assert(spec_symbol(other)[0] != spec_symbol(op)[0]);
    }
    lemma_symbol_reads_back(op);
}

proof fn lemma_symbol_reads_back(op: LogicOp)
    ensures
        spec_parse_formula(seq!['P', ' '] + spec_symbol(op) + seq![' ', 'Q'])
            == Ok::<FormulaV, Seq<char>>(
            FormulaV::Binary(
                op,
                Box::new(FormulaV::Atom(seq!['P'])),
                Box::new(FormulaV::Atom(seq!['Q'])),
            ),
        ),
{
    reveal_strlit("∧");
    reveal_strlit("∨");
    reveal_strlit("→");
    reveal_strlit("↔");
    let c = symbol_char(op);
    let s = seq!['P', ' ', c, ' ', 'Q'];
    assert(seq!['P', ' '] + spec_symbol(op) + seq![' ', 'Q'] =~= s);
    reveal_with_fuel(utf8_len, 6);
    assert(utf8_len(s) == 7);
    // The five characters read as a letter, the connective and a letter.
    let s1 = s.skip(1);
    let s2 = s.skip(2);
    let s3 = s.skip(3);
    let s4 = s.skip(4);
    let s5 = s.skip(5);
    assert(s1 =~= seq![' ', c, ' ', 'Q']);
    assert(s2 =~= seq![c, ' ', 'Q']);
    assert(s3 =~= seq![' ', 'Q']);
    assert(s4 =~= seq!['Q']);
    assert(s5.len() == 0);
    assert(s1.drop_first() =~= s2);
    assert(s3.drop_first() =~= s4);
    lemma_letter_scans(s);
    lemma_letter_scans(s4);
    lemma_symbol_scans(s2, op, 0);
    assert(scan(s2) == Ok::<(TokenV, nat), Seq<char>>((TokenV::Op(op), 1nat)));
    assert(s.take(1) =~= seq!['P']);
    assert(s2.take(1) =~= seq![c]);
    assert(s4.take(1) =~= seq!['Q']);
    assert(utf8_len(seq!['P']) == 1);
    assert(utf8_len(seq!['Q']) == 1);
    assert(utf8_len(seq![c]) == 3);
    let tp = LexemeV { token: TokenV::Atom(seq!['P']), start: 0, end: 1 };
    let to = LexemeV { token: TokenV::Op(op), start: 2, end: 5 };
    let tq = LexemeV { token: TokenV::Atom(seq!['Q']), start: 6, end: 7 };
    assert(lex(s5, 7, 3) == Ok::<Seq<LexemeV>, Seq<char>>(Seq::empty()));
    assert(s4.skip(1) =~= s5);
    assert(lex(s4, 6, 2) == Ok::<Seq<LexemeV>, Seq<char>>(seq![tq]));
    assert(lex(s3, 5, 2) == Ok::<Seq<LexemeV>, Seq<char>>(seq![tq]));
    assert(s2.skip(1) =~= s3);
    assert(lex(s2, 2, 1) == Ok::<Seq<LexemeV>, Seq<char>>(seq![to, tq])) by {
        assert(seq![to] + seq![tq] =~= seq![to, tq]);
    }
    assert(lex(s1, 1, 1) == Ok::<Seq<LexemeV>, Seq<char>>(seq![to, tq]));
    assert(lex(s, 0, 0) == Ok::<Seq<LexemeV>, Seq<char>>(seq![tp, to, tq])) by {
        assert(seq![tp] + seq![to, tq] =~= seq![tp, to, tq]);
    }
    let toks = seq![tp, to, tq];
    assert(spec_tokenize(s) == Ok::<Seq<LexemeV>, Seq<char>>(toks));
    // Then the connective joins the two letters.
    let p = Tree { kind: TreeKind::Atom(seq!['P']), start: 0, end: 1 };
    let q = Tree { kind: TreeKind::Atom(seq!['Q']), start: 6, end: 7 };
    let joined = Tree {
        kind: TreeKind::Binary(op, Box::new(p), Box::new(q)),
        start: 0,
        end: 7,
    };
    assert(spec_climb(toks, 3, binding(op).1, 1, q) == Ok::<(Tree, int), Seq<char>>((q, 3)));
    assert(spec_expression(toks, 2, binding(op).1, 1) == Ok::<(Tree, int), Seq<char>>((q, 3)));
    assert(spec_climb(toks, 3, 0, 0, joined) == Ok::<(Tree, int), Seq<char>>((joined, 3)));
    assert(spec_climb(toks, 1, 0, 0, p) == Ok::<(Tree, int), Seq<char>>((joined, 3)));
    assert(spec_expression(toks, 0, 0, 0) == Ok::<(Tree, int), Seq<char>>((joined, 3)));
    assert(spec_parse_syntax(s) == Ok::<Tree, Seq<char>>(joined));
    assert(tree_formula(p) == FormulaV::Atom(seq!['P']));
    assert(tree_formula(q) == FormulaV::Atom(seq!['Q']));
    assert(tree_formula(joined) == FormulaV::Binary(
        op,
        Box::new(FormulaV::Atom(seq!['P'])),
        Box::new(FormulaV::Atom(seq!['Q'])),
    ));
}


/// Where a connective stands in the order the parser follows: negation binds tightest,
/// then conjunction, disjunction, implication and equivalence.
pub open spec fn connective_rank(op: LogicOp) -> nat {
    match op {
        LogicOp::And => 4,
        LogicOp::Or => 3,
        LogicOp::Implies => 2,
        LogicOp::Iff => 1,
    }
}

/// Whether `P a Q b R` reads as `(P a Q) b R`: when `a` binds at least as tightly as `b`,
/// except that implication chains to the right.
pub open spec fn groups_left(a: LogicOp, b: LogicOp) -> bool {
    connective_rank(a) > connective_rank(b) || (connective_rank(a) == connective_rank(b) && a
        != LogicOp::Implies)
}

pub open spec fn letter_formula(c: char) -> FormulaV {
    FormulaV::Atom(seq![c])
}

spec fn three(a: LogicOp, b: LogicOp) -> Seq<char> {
    seq!['P', ' ', symbol_char(a), ' ', 'Q', ' ', symbol_char(b), ' ', 'R']
}

spec fn three_tokens(a: LogicOp, b: LogicOp) -> Seq<LexemeV> {
    seq![
        LexemeV { token: TokenV::Atom(seq!['P']), start: 0, end: 1 },
        LexemeV { token: TokenV::Op(a), start: 2, end: 5 },
        LexemeV { token: TokenV::Atom(seq!['Q']), start: 6, end: 7 },
        LexemeV { token: TokenV::Op(b), start: 8, end: 11 },
        LexemeV { token: TokenV::Atom(seq!['R']), start: 12, end: 13 },
    ]
}

#[verifier::rlimit(50)]
proof fn lemma_three_tokens(a: LogicOp, b: LogicOp)
    ensures
        spec_tokenize(three(a, b)) == Ok::<Seq<LexemeV>, Seq<char>>(three_tokens(a, b)),
{
    let ca = symbol_char(a);
    let cb = symbol_char(b);
    let s = three(a, b);
    assert(utf8_len(s) == 13) by {
        reveal_with_fuel(utf8_len, 10);
        assert(s.drop_last().drop_last().drop_last().drop_last().drop_last().drop_last().drop_last().drop_last().drop_last().len() == 0);
    }
    let s1 = s.skip(1);
    let s2 = s.skip(2);
    let s3 = s.skip(3);
    let s4 = s.skip(4);
    let s5 = s.skip(5);
    let s6 = s.skip(6);
    let s7 = s.skip(7);
    let s8 = s.skip(8);
    let s9 = s.skip(9);
    assert(s1 =~= seq![' ', ca, ' ', 'Q', ' ', cb, ' ', 'R']);
    assert(s2 =~= seq![ca, ' ', 'Q', ' ', cb, ' ', 'R']);
    assert(s3 =~= seq![' ', 'Q', ' ', cb, ' ', 'R']);
    assert(s4 =~= seq!['Q', ' ', cb, ' ', 'R']);
    assert(s5 =~= seq![' ', cb, ' ', 'R']);
    assert(s6 =~= seq![cb, ' ', 'R']);
    assert(s7 =~= seq![' ', 'R']);
    assert(s8 =~= seq!['R']);
    assert(s9.len() == 0);
    let toks = three_tokens(a, b);
    let tp = toks[0];
    let ta = toks[1];
    let tq = toks[2];
    let tb = toks[3];
    let tr = toks[4];
    assert(lex(s9, 13, 5) == Ok::<Seq<LexemeV>, Seq<char>>(Seq::empty()));
    assert(lex(s8, 12, 4) == Ok::<Seq<LexemeV>, Seq<char>>(seq![tr])) by {
        lemma_letter_scans(s8);
        assert(s8.take(1) =~= seq!['R']);
        reveal_with_fuel(utf8_len, 2);
        assert(s8.skip(1) =~= s9);
    }
    assert(lex(s7, 11, 4) == Ok::<Seq<LexemeV>, Seq<char>>(seq![tr])) by {
        assert(s7.drop_first() =~= s8);
    }
    assert(lex(s6, 8, 3) == Ok::<Seq<LexemeV>, Seq<char>>(seq![tb, tr])) by {
        lemma_symbol_scans(s6, b, 0);
        assert(s6.take(1) =~= seq![cb]);
        reveal_with_fuel(utf8_len, 2);
        assert(s6.skip(1) =~= s7);
        assert(seq![tb] + seq![tr] =~= seq![tb, tr]);
    }
    assert(lex(s5, 7, 3) == Ok::<Seq<LexemeV>, Seq<char>>(seq![tb, tr])) by {
        assert(s5.drop_first() =~= s6);
    }
    assert(lex(s4, 6, 2) == Ok::<Seq<LexemeV>, Seq<char>>(seq![tq, tb, tr])) by {
        lemma_letter_scans(s4);
        assert(s4.take(1) =~= seq!['Q']);
        reveal_with_fuel(utf8_len, 2);
        assert(s4.skip(1) =~= s5);
        assert(seq![tq] + seq![tb, tr] =~= seq![tq, tb, tr]);
    }
    assert(lex(s3, 5, 2) == Ok::<Seq<LexemeV>, Seq<char>>(seq![tq, tb, tr])) by {
        assert(s3.drop_first() =~= s4);
    }
    assert(lex(s2, 2, 1) == Ok::<Seq<LexemeV>, Seq<char>>(seq![ta, tq, tb, tr])) by {
        lemma_symbol_scans(s2, a, 0);
        assert(s2.take(1) =~= seq![ca]);
        reveal_with_fuel(utf8_len, 2);
        assert(s2.skip(1) =~= s3);
        assert(seq![ta] + seq![tq, tb, tr] =~= seq![ta, tq, tb, tr]);
    }
    assert(lex(s1, 1, 1) == Ok::<Seq<LexemeV>, Seq<char>>(seq![ta, tq, tb, tr])) by {
        assert(s1.drop_first() =~= s2);
    }
    assert(lex(s, 0, 0) == Ok::<Seq<LexemeV>, Seq<char>>(toks)) by {
        lemma_letter_scans(s);
        assert(s.take(1) =~= seq!['P']);
        reveal_with_fuel(utf8_len, 2);
        assert(s.skip(1) =~= s1);
        assert(seq![tp] + seq![ta, tq, tb, tr] =~= toks);
    }
}

/// Two connectives between three letters group by precedence, for every pair: `P a Q b R`
/// reads as `(P a Q) b R` when `a` binds at least as tightly as `b` (so `P ∧ Q ∨ R` is
/// `(P ∧ Q) ∨ R` and `P ∨ Q ∨ R` is `(P ∨ Q) ∨ R`), and as `P a (Q b R)` otherwise (so
/// `P ∨ Q ∧ R` is `P ∨ (Q ∧ R)`, and `P → Q → R` is `P → (Q → R)`).
pub proof fn law_connectives_group_by_precedence(a: LogicOp, b: LogicOp)
    ensures
        spec_parse_formula(
            seq!['P', ' '] + spec_symbol(a) + seq![' ', 'Q', ' '] + spec_symbol(b) + seq![' ', 'R'],
        ) == Ok::<FormulaV, Seq<char>>(
            if groups_left(a, b) {
                FormulaV::Binary(
                    b,
                    Box::new(
                        FormulaV::Binary(
                            a,
                            Box::new(letter_formula('P')),
                            Box::new(letter_formula('Q')),
                        ),
                    ),
                    Box::new(letter_formula('R')),
                )
            } else {
                FormulaV::Binary(
                    a,
                    Box::new(letter_formula('P')),
                    Box::new(
                        FormulaV::Binary(
                            b,
                            Box::new(letter_formula('Q')),
                            Box::new(letter_formula('R')),
                        ),
                    ),
                )
            },
        ),
        binding(LogicOp::And).0 > binding(LogicOp::Or).1,
        binding(LogicOp::Or).0 > binding(LogicOp::Implies).1,
        binding(LogicOp::Implies).0 > binding(LogicOp::Iff).1,
{
    reveal_strlit("∧");
    reveal_strlit("∨");
    reveal_strlit("→");
    reveal_strlit("↔");
    let s = three(a, b);
    assert(seq!['P', ' '] + spec_symbol(a) + seq![' ', 'Q', ' '] + spec_symbol(b) + seq![' ', 'R']
        =~= s);
    lemma_three_tokens(a, b);
    let toks = three_tokens(a, b);
    let p = Tree { kind: TreeKind::Atom(seq!['P']), start: 0, end: 1 };
    let q = Tree { kind: TreeKind::Atom(seq!['Q']), start: 6, end: 7 };
    let r = Tree { kind: TreeKind::Atom(seq!['R']), start: 12, end: 13 };
    assert(tree_formula(p) == letter_formula('P'));
    assert(tree_formula(q) == letter_formula('Q'));
    assert(tree_formula(r) == letter_formula('R'));
    if binding(b).0 < binding(a).1 {
        let pq = Tree { kind: TreeKind::Binary(a, Box::new(p), Box::new(q)), start: 0, end: 7 };
        let whole = Tree { kind: TreeKind::Binary(b, Box::new(pq), Box::new(r)), start: 0, end: 13 };
        assert(spec_climb(toks, 3, binding(a).1, 1, q) == Ok::<(Tree, int), Seq<char>>((q, 3)));
        assert(spec_expression(toks, 2, binding(a).1, 1) == Ok::<(Tree, int), Seq<char>>((q, 3)));
        assert(spec_climb(toks, 5, binding(b).1, 1, r) == Ok::<(Tree, int), Seq<char>>((r, 5)));
        assert(spec_expression(toks, 4, binding(b).1, 1) == Ok::<(Tree, int), Seq<char>>((r, 5)));
        assert(spec_climb(toks, 5, 0, 0, whole) == Ok::<(Tree, int), Seq<char>>((whole, 5)));
        assert(spec_climb(toks, 3, 0, 0, pq) == Ok::<(Tree, int), Seq<char>>((whole, 5)));
        assert(spec_climb(toks, 1, 0, 0, p) == Ok::<(Tree, int), Seq<char>>((whole, 5)));
        assert(spec_expression(toks, 0, 0, 0) == Ok::<(Tree, int), Seq<char>>((whole, 5)));
        assert(spec_parse_syntax(s) == Ok::<Tree, Seq<char>>(whole));
        assert(tree_formula(pq) == FormulaV::Binary(
            a,
            Box::new(letter_formula('P')),
            Box::new(letter_formula('Q')),
        ));
        assert(groups_left(a, b));
    } else {
        let qr = Tree { kind: TreeKind::Binary(b, Box::new(q), Box::new(r)), start: 6, end: 13 };
        let whole = Tree { kind: TreeKind::Binary(a, Box::new(p), Box::new(qr)), start: 0, end: 13 };
        assert(spec_climb(toks, 5, binding(b).1, 2, r) == Ok::<(Tree, int), Seq<char>>((r, 5)));
        assert(spec_expression(toks, 4, binding(b).1, 2) == Ok::<(Tree, int), Seq<char>>((r, 5)));
        assert(spec_climb(toks, 5, binding(a).1, 1, qr) == Ok::<(Tree, int), Seq<char>>((qr, 5)));
        assert(spec_climb(toks, 3, binding(a).1, 1, q) == Ok::<(Tree, int), Seq<char>>((qr, 5)));
        assert(spec_expression(toks, 2, binding(a).1, 1) == Ok::<(Tree, int), Seq<char>>((qr, 5)));
        assert(spec_climb(toks, 5, 0, 0, whole) == Ok::<(Tree, int), Seq<char>>((whole, 5)));
        assert(spec_climb(toks, 1, 0, 0, p) == Ok::<(Tree, int), Seq<char>>((whole, 5)));
        assert(spec_expression(toks, 0, 0, 0) == Ok::<(Tree, int), Seq<char>>((whole, 5)));
        assert(spec_parse_syntax(s) == Ok::<Tree, Seq<char>>(whole));
        assert(tree_formula(qr) == FormulaV::Binary(
            b,
            Box::new(letter_formula('Q')),
            Box::new(letter_formula('R')),
        ));
        assert(!groups_left(a, b));
    }
}

} // verus!
