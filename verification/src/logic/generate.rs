//! Random propositional questions: connectives over the letters P, Q, R and S, each letter
//! bound to a literal the first time it is drawn. The draws come from a seeded ChaCha8
//! stream, so a seed always spells the same question.

use vstd::prelude::*;

use rand_chacha::ChaCha8Rng;

use crate::generate::{chance, draw_below, spec_operand, Fragment};
use crate::logic::formula::{strictly_sorted, text_less};

verus! {

/// How a generated formula was built: a letter (0 to 3 for P, Q, R, S), a negation, a
/// connective (0 to 3 for ∧, ∨, →, ↔) between two formulas, or a pair of brackets.
pub enum Sketch {
    Letter(usize),
    Not(Box<Sketch>),
    Connective(usize, Box<Sketch>, Box<Sketch>),
    Brackets(Box<Sketch>),
}

pub open spec fn letter(i: usize) -> Seq<char> {
    if i == 0 {
        "P"@
    } else if i == 1 {
        "Q"@
    } else if i == 2 {
        "R"@
    } else {
        "S"@
    }
}

pub open spec fn symbol(o: usize) -> Seq<char> {
    if o == 0 {
        "∧"@
    } else if o == 1 {
        "∨"@
    } else if o == 2 {
        "→"@
    } else {
        "↔"@
    }
}

/// How tightly each connective binds; the conditional associates to the right.
pub open spec fn binding(o: usize) -> u8 {
    if o == 0 {
        70
    } else if o == 1 {
        50
    } else if o == 2 {
        30
    } else {
        10
    }
}

/// The number of connectives, negation included.
pub open spec fn size(s: Sketch) -> nat
    decreases s,
{
    match s {
        Sketch::Letter(_) => 0,
        Sketch::Not(x) => size(*x) + 1,
        Sketch::Connective(_, l, r) => size(*l) + size(*r) + 1,
        Sketch::Brackets(x) => size(*x),
    }
}

/// The precedence the rendered formula binds at.
pub open spec fn rank(s: Sketch) -> u8 {
    match s {
        Sketch::Letter(_) => 100,
        Sketch::Not(_) => 90,
        Sketch::Connective(o, _, _) => binding(o),
        Sketch::Brackets(_) => 100,
    }
}

/// The source text of a formula, with only the brackets its precedence needs plus those
/// it was drawn with.
pub open spec fn render(s: Sketch) -> Seq<char>
    decreases s,
{
    match s {
        Sketch::Letter(i) => letter(i),
        Sketch::Not(x) => "¬"@ + spec_operand(render(*x), rank(*x), 90),
        Sketch::Connective(o, l, r) => spec_operand(
            render(*l),
            rank(*l),
            (binding(o) + if o == 2 {
                1nat
            } else {
                0nat
            }) as nat,
        ) + " "@ + symbol(o) + " "@ + spec_operand(
            render(*r),
            rank(*r),
            (binding(o) + if o == 2 {
                0nat
            } else {
                1nat
            }) as nat,
        ),
        Sketch::Brackets(x) => "("@ + render(*x) + ")"@,
    }
}

/// Every letter of the formula is one of the four and has its literal, every connective is
/// one of the four, and brackets are drawn only around a connective or a negation.
pub open spec fn well_drawn(s: Sketch, literals: Seq<Option<bool>>) -> bool
    decreases s,
{
    match s {
        Sketch::Letter(i) => i < 4 && i < literals.len() && literals[i as int] is Some,
        Sketch::Not(x) => well_drawn(*x, literals),
        Sketch::Connective(o, l, r) => o < 4 && well_drawn(*l, literals) && well_drawn(*r, literals),
        Sketch::Brackets(x) => !(*x is Letter) && !(*x is Brackets) && well_drawn(*x, literals),
    }
}

/// A literal once drawn for a letter stays.
pub open spec fn keeps(before: Seq<Option<bool>>, after: Seq<Option<bool>>) -> bool {
    &&& after.len() == before.len()
    &&& forall|i: int| 0 <= i < before.len() && before[i] is Some ==> after[i] == before[i]
}

proof fn lemma_keeps_well_drawn(s: Sketch, before: Seq<Option<bool>>, after: Seq<Option<bool>>)
    requires
        well_drawn(s, before),
        keeps(before, after),
    ensures
        well_drawn(s, after),
    decreases s,
{
    match s {
        Sketch::Letter(_) => {},
        Sketch::Not(x) => lemma_keeps_well_drawn(*x, before, after),
        Sketch::Connective(_, l, r) => {
            lemma_keeps_well_drawn(*l, before, after);
            lemma_keeps_well_drawn(*r, before, after);
        },
        Sketch::Brackets(x) => lemma_keeps_well_drawn(*x, before, after),
    }
}

fn letter_text(i: u32) -> (text: String)
    requires
        i < 4,
    ensures
        text@ == letter(i as usize),
{
    if i == 0 {
        String::from_str("P")
    } else if i == 1 {
        String::from_str("Q")
    } else if i == 2 {
        String::from_str("R")
    } else {
        String::from_str("S")
    }
}

/// Draw a letter, then draw its literal only the first time that letter appears.
fn variable(rng: &mut ChaCha8Rng, literals: &mut Vec<Option<bool>>) -> (r: (Fragment, Ghost<Sketch>))
    requires
        old(literals).len() == 4,
    ensures
        keeps(old(literals)@, final(literals)@),
        well_drawn(r.1@, final(literals)@),
        size(r.1@) == 0,
        render(r.1@) == r.0.text@,
        rank(r.1@) == r.0.precedence,
{
    let i: u32 = draw_below(rng, 4);
    let k: usize = i as usize;
    if literals[k].is_none() {
        let truth: bool = chance(rng, 1, 2);
        literals.set(k, Some(truth));
    }
    (Fragment::atom(letter_text(i)), Ghost(Sketch::Letter(k)))
}

fn connective(o: u32) -> (text: &'static str)
    requires
        o < 4,
    ensures
        text@ == symbol(o as usize),
{
    if o == 0 {
        "∧"
    } else if o == 1 {
        "∨"
    } else if o == 2 {
        "→"
    } else {
        "↔"
    }
}

fn binding_of(o: u32) -> (p: u8)
    requires
        o < 4,
    ensures
        p == binding(o as usize),
{
    if o == 0 {
        70
    } else if o == 1 {
        50
    } else if o == 2 {
        30
    } else {
        10
    }
}

/// A formula with `count` connectives: a negation one time in five, else a connective
/// between two formulas that share the rest; then brackets around it, three times in twenty.
fn formula(rng: &mut ChaCha8Rng, literals: &mut Vec<Option<bool>>, count: u32) -> (r: (
    Fragment,
    Ghost<Sketch>,
))
    requires
        old(literals).len() == 4,
    ensures
        keeps(old(literals)@, final(literals)@),
        well_drawn(r.1@, final(literals)@),
        size(r.1@) == count,
        render(r.1@) == r.0.text@,
        rank(r.1@) == r.0.precedence,
    decreases count,
{
    if count == 0 {
        return variable(rng, literals);
    }
    let (expression, sketch): (Fragment, Ghost<Sketch>) = if chance(rng, 1, 5) {
        let (inner, inner_sketch) = formula(rng, literals, count - 1);
        let negated: Fragment = inner.unary("¬", 90);
        let ghost built = Sketch::Not(Box::new(inner_sketch@));
        assert(size(built) == count && render(built) == negated.text@ && rank(built) == 90);
        assert(well_drawn(built, literals@));
        (negated, Ghost(built))
    } else {
        let left_count: u32 = draw_below(rng, count);
        let (left, left_sketch) = formula(rng, literals, left_count);
        let ghost middle = literals@;
        let (right, right_sketch) = formula(rng, literals, count - 1 - left_count);
        proof {
            lemma_keeps_well_drawn(left_sketch@, middle, literals@);
        }
        let o: u32 = draw_below(rng, 4);
        let precedence: u8 = binding_of(o);
        let joined: Fragment = left.binary(connective(o), precedence, right, o == 2);
        let ghost built = Sketch::Connective(
            o as usize,
            Box::new(left_sketch@),
            Box::new(right_sketch@),
        );
        assert(size(built) == count && render(built) == joined.text@ && rank(built)
            == joined.precedence);
        assert(well_drawn(built, literals@));
        (joined, Ghost(built))
    };
    assert(!(sketch@ is Letter) && !(sketch@ is Brackets));
    if chance(rng, 3, 20) {
        let bracketed: Fragment = expression.grouped();
        let ghost built = Sketch::Brackets(Box::new(sketch@));
        assert(size(built) == count && render(built) == bracketed.text@ && rank(built) == 100);
        (bracketed, Ghost(built))
    } else {
        (expression, sketch)
    }
}

/// A propositional question with `count` connectives. `literals` holds, for P, Q, R and S,
/// the literal bound to each letter drawn so far; a letter drawn for the first time gets one.
/// Whatever the stream draws, the text is the rendering of a formula with exactly `count`
/// connectives whose every letter is bound.
pub fn sample(rng: &mut ChaCha8Rng, literals: &mut Vec<Option<bool>>, count: u32) -> (f: Fragment)
    requires
        old(literals).len() == 4,
    ensures
        keeps(old(literals)@, final(literals)@),
        exists|s: Sketch|
            well_drawn(s, final(literals)@) && size(s) == count && render(s) == f.text@ && rank(s)
                == f.precedence,
{
    let (f, s) = formula(rng, literals, count);
    assert(well_drawn(s@, literals@) && size(s@) == count && render(s@) == f.text@ && rank(s@)
        == f.precedence);
    f
}

pub open spec fn spec_bindings(literals: Seq<Option<bool>>) -> Seq<(Seq<char>, Seq<char>)>
    decreases literals.len(),
{
    if literals.len() == 0 {
        Seq::empty()
    } else {
        let rest = spec_bindings(literals.drop_last());
        match literals.last() {
            Some(truth) => rest.push(
                (
                    letter((literals.len() - 1) as usize),
                    if truth {
                        "True"@
                    } else {
                        "False"@
                    },
                ),
            ),
            None => rest,
        }
    }
}

proof fn lemma_letters_ordered(i: usize, j: usize)
    requires
        i < j < 4,
    ensures
        text_less(letter(i), letter(j)),
{
    reveal_strlit("P");
    reveal_strlit("Q");
    reveal_strlit("R");
    reveal_strlit("S");
    assert(letter(i).len() == 1 && letter(j).len() == 1);
    assert(letter(i)[0] < letter(j)[0]);
}

/// The names of a list of bindings, in order.
pub open spec fn names(b: Seq<(String, String)>) -> Seq<Seq<char>> {
    b.map_values(|p: (String, String)| p.0@)
}

/// The bindings a question's letters were drawn with, in alphabetical order, each letter
/// once.
pub fn bindings(literals: &Vec<Option<bool>>) -> (b: Vec<(String, String)>)
    requires
        literals.len() <= 4,
    ensures
        b@.len() == spec_bindings(literals@).len(),
        forall|k: int|
            0 <= k < b@.len() ==> b@[k].0@ == spec_bindings(literals@)[k].0 && b@[k].1@
                == spec_bindings(literals@)[k].1,
        strictly_sorted(names(b@)),
{
    let mut b: Vec<(String, String)> = Vec::new();
    let ghost mut from: Seq<usize> = Seq::empty();
    let mut i: usize = 0;
    while i < literals.len()
        invariant
            i <= literals.len() <= 4,
            b@.len() == spec_bindings(literals@.take(i as int)).len(),
            forall|k: int|
                0 <= k < b@.len() ==> b@[k].0@ == spec_bindings(literals@.take(i as int))[k].0
                    && b@[k].1@ == spec_bindings(literals@.take(i as int))[k].1,
            from.len() == b@.len(),
            forall|k: int| 0 <= k < from.len() ==> from[k] < i && b@[k].0@ == letter(from[k]),
            forall|k: int, m: int| 0 <= k < m < from.len() ==> from[k] < from[m],
        decreases literals.len() - i,
    {
        assert(literals@.take(i + 1).drop_last() =~= literals@.take(i as int));
        match literals[i] {
            Some(truth) => {
                let value: String = if truth {
                    String::from_str("True")
                } else {
                    String::from_str("False")
                };
                b.push((letter_text(i as u32), value));
                proof {
                    from = from.push(i);
                }
            },
            None => {},
        }
        i += 1;
    }
    assert(literals@.take(literals.len() as int) =~= literals@);
    assert forall|k: int, m: int| 0 <= k < m < names(b@).len() implies text_less(
        names(b@)[k],
        names(b@)[m],
    ) by {
        lemma_letters_ordered(from[k], from[m]);
    }
    b
}

} // verus!
