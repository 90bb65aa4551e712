//! What a random question is called, how its source is spelled, and the draws each
//! language's grammar makes on a seeded ChaCha8 stream. A generated question is named by a
//! versioned seed, so the question in hand resumes from its name alone.

use vstd::prelude::*;

use rand::Rng;
use rand_chacha::ChaCha8Rng;

use crate::exercises::Exercise;
use crate::teaching::{spec_from_key, spec_language_key, Language, ParseError};
use crate::text::{chars_of, decimal, parse_u64, parse_u64_chars, push_decimal_u64, string_of};

verus! {

#[verifier::external_type_specification]
#[verifier::external_body]
pub struct ExChaCha8Rng(ChaCha8Rng);

/// A number below `bound`. A half-open integer range draws what the closed range ending
/// one lower draws, so this is the stream's `gen_range(0..bound)`.
pub(crate) fn draw_below(rng: &mut ChaCha8Rng, bound: u32) -> (r: u32)
    requires
        bound > 0,
    ensures
        r < bound,
{
    draw_through(rng, 0, bound - 1)
}

/// `rand::Rng::gen_ratio`: true with a chance of `numerator` in `denominator`, drawn from
/// the stream's state; nothing is said of which way it falls. A ratio gives the same
/// threshold, and so the same draw, as the probability it spells.
#[verifier::external_body]
pub(crate) fn chance(rng: &mut ChaCha8Rng, numerator: u32, denominator: u32) -> bool
    requires
        0 < numerator < denominator,
{
    rng.gen_ratio(numerator, denominator)
}

/// `rand::Rng::gen_range` over `low..=high` on the stream: a number from `low` to `high`.
/// Which one depends on the stream's state, and nothing more is said of it.
#[verifier::external_body]
pub(crate) fn draw_through(rng: &mut ChaCha8Rng, low: u32, high: u32) -> (r: u32)
    requires
        low <= high,
    ensures
        low <= r <= high,
{
    rng.gen_range(low..=high)
}

/// `rand::Rng::gen_range` over `low..=high` for signed numbers, as `draw_through` says.
#[verifier::external_body]
pub(crate) fn draw_signed(rng: &mut ChaCha8Rng, low: i32, high: i32) -> (r: i32)
    requires
        low <= high,
    ensures
        low <= r <= high,
{
    rng.gen_range(low..=high)
}


/// Versioned with the seed protocol: the grammar, the sampling and the acceptance rules.
pub const PREFIX: &'static str = "random-v1-";

/// Every generated question's name starts with this, whatever its version.
pub open spec fn random_prefix() -> Seq<char> {
    "random-"@
}

pub open spec fn starts_with(s: Seq<char>, prefix: Seq<char>) -> bool {
    s.len() >= prefix.len() && s.subrange(0, prefix.len() as int) == prefix
}

/// The name belongs to a generated question.
pub open spec fn is_random(id: Seq<char>) -> bool {
    starts_with(id, random_prefix())
}

pub fn has_prefix(s: &str, prefix: &str) -> (r: bool)
    ensures
        r == starts_with(s@, prefix@),
{
    let chars: Vec<char> = chars_of(s);
    let wanted: Vec<char> = chars_of(prefix);
    if chars.len() < wanted.len() {
        return false;
    }
    let mut i: usize = 0;
    while i < wanted.len()
        invariant
            i <= wanted.len() <= chars.len(),
            wanted@ == prefix@,
            chars@ == s@,
            forall|j: int| 0 <= j < i ==> chars@[j] == wanted@[j],
        decreases wanted.len() - i,
    {
        if chars[i] != wanted[i] {
            assert(s@.subrange(0, prefix@.len() as int)[i as int] != prefix@[i as int]);
            return false;
        }
        i += 1;
    }
    assert(s@.subrange(0, prefix@.len() as int) =~= prefix@);
    true
}

/// The name of the question drawn from `seed` in `language`.
pub open spec fn spec_random_name(language: Language, seed: nat) -> Seq<char> {
    PREFIX@ + spec_language_key(language) + "-"@ + decimal(seed)
}

/// The first position of `c` in `s`.
pub open spec fn first_index(s: Seq<char>, c: char) -> Option<int>
    decreases s.len(),
{
    if s.len() == 0 {
        None
    } else if s[0] == c {
        Some(0)
    } else {
        match first_index(s.drop_first(), c) {
            Some(k) => Some(k + 1),
            None => None,
        }
    }
}

pub open spec fn old_version() -> Seq<char> {
    "无法恢复这个版本的随机题。请用 --random 开始新题，原进度保留。"@
}

pub open spec fn missing_seed() -> Seq<char> {
    "随机题编号缺少种子。"@
}

pub open spec fn bad_language() -> Seq<char> {
    "随机题语言无效。"@
}

pub open spec fn bad_seed() -> Seq<char> {
    "随机题种子无效。"@
}

/// What a saved name says about the random question it names: nothing when it is no
/// random question's name; otherwise its language and seed, or why they cannot be read.
pub open spec fn spec_restore_name(name: Seq<char>) -> Result<Option<(Language, nat)>, Seq<char>> {
    if !is_random(name) {
        Ok(None)
    } else if !starts_with(name, PREFIX@) {
        Err(old_version())
    } else {
        let suffix = name.skip(PREFIX@.len() as int);
        match first_index(suffix, '-') {
            None => Err(missing_seed()),
            Some(k) => match spec_from_key(suffix.take(k)) {
                None => Err(bad_language()),
                Some(language) => match parse_u64(suffix.skip(k + 1)) {
                    None => Err(bad_seed()),
                    Some(seed) => Ok(Some((language, seed))),
                },
            },
        }
    }
}

/// The name of the question drawn from `seed` in `language`.
pub fn random_name(language: Language, seed: u64) -> (name: String)
    ensures
        name@ == spec_random_name(language, seed as nat),
{
    let mut name: String = String::from_str(PREFIX);
    name.append(language.key());
    name.append("-");
    push_decimal_u64(&mut name, seed);
    name
}

/// Where `c` first occurs in `v`, if it does.
pub fn find_char(v: &Vec<char>, c: char) -> (k: Option<usize>)
    ensures
        match first_index(v@, c) {
            Some(i) => 0 <= i < v.len() && k == Some(i as usize),
            None => k is None,
        },
{
    let mut i: usize = 0;
    assert(v@.skip(0) =~= v@);
    while i < v.len()
        invariant
            i <= v.len(),
            first_index(v@, c) == match first_index(v@.skip(i as int), c) {
                Some(k) => Some(k + i),
                None => None::<int>,
            },
        decreases v.len() - i,
    {
        proof {
            assert(v@.skip(i as int).drop_first() =~= v@.skip(i + 1));
        }
        if v[i] == c {
            return Some(i);
        }
        i += 1;
    }
    assert(v@.skip(v.len() as int) =~= Seq::<char>::empty());
    None
}

/// Read the language and the seed back out of a saved name.
pub fn restore_name(name: &str) -> (result: Result<Option<(Language, u64)>, ParseError>)
    ensures
        match spec_restore_name(name@) {
            Ok(Some((language, seed))) => result matches Ok(Some((l, s))) && l == language && s
                == seed,
            Ok(None) => result matches Ok(None),
            Err(e) => result matches Err(err) && err.0@ == e,
        },
{
    proof {
        reveal_strlit("random-");
        reveal_strlit("random-v1-");
    }
    if !has_prefix(name, "random-") {
        return Ok(None);
    }
    if !has_prefix(name, PREFIX) {
        return Err(ParseError::from_str(
            "无法恢复这个版本的随机题。请用 --random 开始新题，原进度保留。",
        ));
    }
    let chars: Vec<char> = chars_of(name);
    let mut suffix: Vec<char> = Vec::new();
    let mut i: usize = 10;
    assert(PREFIX@.len() == 10);
    while i < chars.len()
        invariant
            10 <= i <= chars.len(),
            chars@ == name@,
            suffix@ == name@.skip(10).take(i - 10),
        decreases chars.len() - i,
    {
        suffix.push(chars[i]);
        assert(name@.skip(10).take(i + 1 - 10) =~= name@.skip(10).take(i - 10).push(chars@[i as int]));
        i += 1;
    }
    assert(name@.skip(10).take(chars.len() - 10) =~= name@.skip(10));
    let dash: usize = match find_char(&suffix, '-') {
        Some(k) => k,
        None => {
            return Err(ParseError::from_str("随机题编号缺少种子。"));
        },
    };
    let key: String = string_of(&crate::text::slice_of(&suffix, 0, dash));
    let language: Language = match Language::from_key(key.as_str()) {
        Some(language) => language,
        None => {
            return Err(ParseError::from_str("随机题语言无效。"));
        },
    };
    let digits: Vec<char> = crate::text::slice_of(&suffix, dash + 1, suffix.len());
    assert(digits@ =~= suffix@.skip(dash + 1));
    match parse_u64_chars(&digits) {
        Some(seed) => Ok(Some((language, seed))),
        None => Err(ParseError::from_str("随机题种子无效。")),
    }
}

/// The question a saved name restores to: none for a name that is no random question's,
/// else the question `generate` draws again from the language and seed the name records.
/// In particular the name a question was drawn under, `random_name(language, seed)`,
/// restores exactly what `generate(language, seed)` answers, and a name that is not a
/// generated question's draws nothing.
pub fn restore<G: FnOnce(Language, u64) -> Result<Exercise, ParseError>>(name: &str, generate: G) -> (result: Result<Option<Exercise>, ParseError>)
    requires
        forall|language: Language, seed: u64| call_requires(generate, (language, seed)),
    ensures
        match spec_restore_name(name@) {
            Ok(Some((language, seed))) => match result {
                Ok(Some(e)) => call_ensures(
                    generate,
                    (language, seed as u64),
                    Ok::<Exercise, ParseError>(e),
                ),
                Ok(None) => false,
                Err(err) => call_ensures(
                    generate,
                    (language, seed as u64),
                    Err::<Exercise, ParseError>(err),
                ),
            },
            Ok(None) => result matches Ok(None),
            Err(e) => result matches Err(err) && err.0@ == e,
        },
        forall|language: Language, seed: u64|
            #![trigger spec_random_name(language, seed as nat)]
            name@ == spec_random_name(language, seed as nat) ==> match result {
                Ok(Some(e)) => call_ensures(generate, (language, seed), Ok::<Exercise, ParseError>(e)),
                Ok(None) => false,
                Err(err) => call_ensures(generate, (language, seed), Err::<Exercise, ParseError>(err)),
            },
        !is_random(name@) ==> result matches Ok(None),
{
    let result = match restore_name(name) {
        Err(error) => Err(error),
        Ok(None) => Ok(None),
        Ok(Some((language, seed))) => match generate(language, seed) {
            Ok(exercise) => Ok(Some(exercise)),
            Err(error) => Err(error),
        },
    };
    proof {
        assert forall|language: Language, seed: u64|
            #![trigger spec_random_name(language, seed as nat)]
            name@ == spec_random_name(language, seed as nat) implies match result {
                Ok(Some(e)) => call_ensures(generate, (language, seed), Ok::<Exercise, ParseError>(e)),
                Ok(None) => false,
                Err(err) => call_ensures(generate, (language, seed), Err::<Exercise, ParseError>(err)),
            } by {
            law_random_name_round_trip(language, seed);
        }
    }
    result
}

/// The name of a drawn question reads back as the language and seed it was drawn from, so
/// the question in hand resumes without a second store.
pub proof fn law_random_name_round_trip(language: Language, seed: u64)
    ensures
        spec_restore_name(spec_random_name(language, seed as nat)) == Ok::<
            Option<(Language, nat)>,
            Seq<char>,
        >(Some((language, seed as nat))),
{
    reveal_strlit("random-");
    reveal_strlit("random-v1-");
    reveal_strlit("python");
    reveal_strlit("logic");
    reveal_strlit("-");
    let name = spec_random_name(language, seed as nat);
    let key = spec_language_key(language);
    let digits = decimal(seed as nat);
    crate::text::lemma_decimal_digits(seed as nat);
    assert(name.subrange(0, 7) =~= random_prefix());
    assert(name.subrange(0, 10) =~= PREFIX@);
    let suffix = name.skip(10);
    assert(suffix =~= key + "-"@ + digits);
    lemma_first_dash(key, digits);
    assert(suffix.take(key.len() as int) =~= key);
    assert(suffix.skip((key.len() + 1) as int) =~= digits);
    crate::teaching::law_language_key_round_trip(language);
    assert(digits[0] != '+');
}

proof fn lemma_first_dash(key: Seq<char>, digits: Seq<char>)
    requires
        forall|k: int| 0 <= k < key.len() ==> key[k] != '-',
    ensures
        first_index(key + "-"@ + digits, '-') == Some(key.len() as int),
    decreases key.len(),
{
    reveal_strlit("-");
    let whole = key + "-"@ + digits;
    if key.len() == 0 {
        assert(whole[0] == '-');
    } else {
        assert(whole.drop_first() =~= key.drop_first() + "-"@ + digits);
        lemma_first_dash(key.drop_first(), digits);
    }
}

/// Source text plus the precedence it binds at, so a language only brackets what it must.
#[derive(Debug)]
pub struct Fragment {
    pub text: String,
    pub precedence: u8,
}

/// An operand bracketed only when it binds looser than the operator around it needs.
pub open spec fn spec_operand(text: Seq<char>, precedence: u8, minimum: nat) -> Seq<char> {
    if precedence < minimum {
        "("@ + text + ")"@
    } else {
        text
    }
}

impl Fragment {
    /// A name or a literal: binds tighter than any operator.
    pub fn atom(text: String) -> (f: Fragment)
        ensures
            f.text@ == text@,
            f.precedence == 100,
    {
        Fragment { text, precedence: 100 }
    }

    /// The fragment in brackets, which binds like an atom.
    pub fn grouped(self) -> (f: Fragment)
        ensures
            f.text@ == "("@ + self.text@ + ")"@,
            f.precedence == 100,
    {
        let mut text: String = String::from_str("(");
        text.append(self.text.as_str());
        text.append(")");
        Fragment::atom(text)
    }

    fn operand(self, minimum: u8) -> (text: String)
        ensures
            text@ == spec_operand(self.text@, self.precedence, minimum as nat),
    {
        if self.precedence < minimum {
            self.grouped().text
        } else {
            self.text
        }
    }

    /// `left symbol right` at `precedence`; the side an operator does not associate to
    /// needs a strictly tighter operand.
    pub fn binary(self, symbol: &str, precedence: u8, right: Fragment, right_associative: bool) -> (f: Fragment)
        requires
            precedence < 255,
        ensures
            f.text@ == spec_operand(
                self.text@,
                self.precedence,
                (precedence + if right_associative {
                    1nat
                } else {
                    0nat
                }) as nat,
            ) + " "@ + symbol@ + " "@ + spec_operand(
                right.text@,
                right.precedence,
                (precedence + if right_associative {
                    0nat
                } else {
                    1nat
                }) as nat,
            ),
            f.precedence == precedence,
    {
        let left_minimum: u8 = if right_associative {
            precedence + 1
        } else {
            precedence
        };
        let right_minimum: u8 = if right_associative {
            precedence
        } else {
            precedence + 1
        };
        let mut text: String = self.operand(left_minimum);
        text.append(" ");
        text.append(symbol);
        text.append(" ");
        let right_text: String = right.operand(right_minimum);
        text.append(right_text.as_str());
        Fragment { text, precedence }
    }

    /// `symbol operand` at `precedence`.
    pub fn unary(self, symbol: &str, precedence: u8) -> (f: Fragment)
        ensures
            f.text@ == symbol@ + spec_operand(self.text@, self.precedence, precedence as nat),
            f.precedence == precedence,
    {
        let mut text: String = String::from_str(symbol);
        let operand: String = self.operand(precedence);
        text.append(operand.as_str());
        Fragment { text, precedence }
    }
}

} // verus!
