//! Random Python questions: arithmetic over the names x, y and z and small literals, or a
//! boolean pair of comparisons. Each name is bound to a small integer the first time it is
//! drawn; the draws come from a seeded ChaCha8 stream, so a seed always spells the same
//! question.

use vstd::prelude::*;

use rand_chacha::ChaCha8Rng;

use crate::generate::{chance, draw_below, draw_signed, draw_through, spec_operand, Fragment};
use crate::logic::formula::{strictly_sorted, text_less};
use crate::text::{decimal, push_char, push_decimal_u64};

verus! {

/// How an arithmetic operand was built: a name (0 to 2 for x, y, z), a literal, a negation,
/// an operator with a literal on its right (3 to 6 for //, %, /, **), an operator between
/// two operands (0 to 2 for +, -, *), or a pair of brackets.
pub enum Number {
    Name(usize),
    Literal(i32),
    Negated(Box<Number>),
    Scaled(usize, Box<Number>, i32),
    Joined(usize, Box<Number>, Box<Number>),
    Brackets(Box<Number>),
}

/// A comparison (0 to 5 for <, <=, >, >=, ==, !=) between two arithmetic operands.
pub struct Comparison {
    pub left: Number,
    pub op: usize,
    pub right: Number,
}

/// A whole question: arithmetic, or two comparisons joined by `and` (0) or `or` (1), the
/// second one negated or not.
pub enum Drawn {
    Arithmetic(Number),
    Test(Comparison, bool, usize, Comparison),
}

pub open spec fn name(i: usize) -> Seq<char> {
    if i == 0 {
        "x"@
    } else if i == 1 {
        "y"@
    } else {
        "z"@
    }
}

pub open spec fn arithmetic_symbol(o: usize) -> Seq<char> {
    if o == 0 {
        "+"@
    } else if o == 1 {
        "-"@
    } else if o == 2 {
        "*"@
    } else if o == 3 {
        "//"@
    } else if o == 4 {
        "%"@
    } else if o == 5 {
        "/"@
    } else {
        "**"@
    }
}

pub open spec fn comparison_symbol(o: usize) -> Seq<char> {
    if o == 0 {
        "<"@
    } else if o == 1 {
        "<="@
    } else if o == 2 {
        ">"@
    } else if o == 3 {
        ">="@
    } else if o == 4 {
        "=="@
    } else {
        "!="@
    }
}

/// A number as Python writes it.
pub open spec fn signed(v: int) -> Seq<char> {
    if v < 0 {
        "-"@ + decimal((-v) as nat)
    } else {
        decimal(v as nat)
    }
}

pub open spec fn number_rank(n: Number) -> u8 {
    match n {
        Number::Name(_) => 100,
        Number::Literal(_) => 100,
        Number::Negated(_) => 70,
        Number::Scaled(o, _, _) => if o == 6 {
            80
        } else {
            60
        },
        Number::Joined(o, _, _) => if o == 2 {
            60
        } else {
            50
        },
        Number::Brackets(_) => 100,
    }
}

/// `left symbol right` at `precedence`, bracketing each side only as the operator needs.
pub open spec fn joined_text(
    left: Seq<char>,
    left_rank: u8,
    symbol: Seq<char>,
    precedence: u8,
    right: Seq<char>,
    right_rank: u8,
    right_associative: bool,
) -> Seq<char> {
    spec_operand(
        left,
        left_rank,
        (precedence + if right_associative {
            1nat
        } else {
            0nat
        }) as nat,
    ) + " "@ + symbol + " "@ + spec_operand(
        right,
        right_rank,
        (precedence + if right_associative {
            0nat
        } else {
            1nat
        }) as nat,
    )
}

pub open spec fn render_number(n: Number) -> Seq<char>
    decreases n,
{
    match n {
        Number::Name(i) => name(i),
        Number::Literal(v) => signed(v as int),
        Number::Negated(x) => "-"@ + spec_operand(render_number(*x), number_rank(*x), 70),
        Number::Scaled(o, x, v) => joined_text(
            render_number(*x),
            number_rank(*x),
            arithmetic_symbol(o),
            number_rank(n),
            signed(v as int),
            100,
            o == 6,
        ),
        Number::Joined(o, l, r) => joined_text(
            render_number(*l),
            number_rank(*l),
            arithmetic_symbol(o),
            number_rank(n),
            render_number(*r),
            number_rank(*r),
            false,
        ),
        Number::Brackets(x) => "("@ + render_number(*x) + ")"@,
    }
}

/// The number of operators, negation included.
pub open spec fn number_size(n: Number) -> nat
    decreases n,
{
    match n {
        Number::Name(_) => 0,
        Number::Literal(_) => 0,
        Number::Negated(x) => number_size(*x) + 1,
        Number::Scaled(_, x, _) => number_size(*x) + 1,
        Number::Joined(_, l, r) => number_size(*l) + number_size(*r) + 1,
        Number::Brackets(x) => number_size(*x),
    }
}

/// Every name is one of the three and has its value; a literal standing alone is a digit
/// from 1 to 9; the literal right of `**` is 2 or 3 and right of a division 2 or 4; brackets
/// are drawn only around an operation.
pub open spec fn number_drawn(n: Number, values: Seq<Option<i32>>) -> bool
    decreases n,
{
    match n {
        Number::Name(i) => i < 3 && i < values.len() && values[i as int] is Some,
        Number::Literal(v) => 1 <= v <= 9,
        Number::Negated(x) => number_drawn(*x, values),
        Number::Scaled(o, x, v) => 3 <= o <= 6 && (if o == 6 {
            2 <= v <= 3
        } else {
            v == 2 || v == 4
        }) && number_drawn(*x, values),
        Number::Joined(o, l, r) => o < 3 && number_drawn(*l, values) && number_drawn(*r, values),
        Number::Brackets(x) => !(*x is Name) && !(*x is Literal) && !(*x is Brackets)
            && number_drawn(*x, values),
    }
}

pub open spec fn render_comparison(c: Comparison) -> Seq<char> {
    joined_text(
        render_number(c.left),
        number_rank(c.left),
        comparison_symbol(c.op),
        40,
        render_number(c.right),
        number_rank(c.right),
        false,
    )
}

pub open spec fn comparison_drawn(c: Comparison, values: Seq<Option<i32>>) -> bool {
    c.op < 6 && number_drawn(c.left, values) && number_drawn(c.right, values)
}

pub open spec fn render(d: Drawn) -> Seq<char> {
    match d {
        Drawn::Arithmetic(n) => render_number(n),
        Drawn::Test(a, negated, o, b) => joined_text(
            render_comparison(a),
            40,
            if o == 0 {
                "and"@
            } else {
                "or"@
            },
            if o == 0 {
                20u8
            } else {
                10u8
            },
            if negated {
                "not "@ + spec_operand(render_comparison(b), 40, 30)
            } else {
                render_comparison(b)
            },
            if negated {
                30u8
            } else {
                40u8
            },
            false,
        ),
    }
}

pub open spec fn rank(d: Drawn) -> u8 {
    match d {
        Drawn::Arithmetic(n) => number_rank(n),
        Drawn::Test(_, _, o, _) => if o == 0 {
            20
        } else {
            10
        },
    }
}

pub open spec fn size(d: Drawn) -> nat {
    match d {
        Drawn::Arithmetic(n) => number_size(n),
        Drawn::Test(a, _, _, b) => number_size(a.left) + number_size(a.right) + number_size(
            b.left,
        ) + number_size(b.right),
    }
}

pub open spec fn well_drawn(d: Drawn, values: Seq<Option<i32>>) -> bool {
    match d {
        Drawn::Arithmetic(n) => number_drawn(n, values),
        Drawn::Test(a, _, o, b) => o < 2 && comparison_drawn(a, values) && comparison_drawn(
            b,
            values,
        ),
    }
}

/// A value once drawn for a name stays.
pub open spec fn keeps(before: Seq<Option<i32>>, after: Seq<Option<i32>>) -> bool {
    &&& after.len() == before.len()
    &&& forall|i: int| 0 <= i < before.len() && before[i] is Some ==> after[i] == before[i]
}

proof fn lemma_keeps_drawn(n: Number, before: Seq<Option<i32>>, after: Seq<Option<i32>>)
    requires
        number_drawn(n, before),
        keeps(before, after),
    ensures
        number_drawn(n, after),
    decreases n,
{
    match n {
        Number::Negated(x) => lemma_keeps_drawn(*x, before, after),
        Number::Scaled(_, x, _) => lemma_keeps_drawn(*x, before, after),
        Number::Joined(_, l, r) => {
            lemma_keeps_drawn(*l, before, after);
            lemma_keeps_drawn(*r, before, after);
        },
        Number::Brackets(x) => lemma_keeps_drawn(*x, before, after),
        _ => {},
    }
}

fn name_text(i: u32) -> (text: String)
    requires
        i < 3,
    ensures
        text@ == name(i as usize),
{
    if i == 0 {
        String::from_str("x")
    } else if i == 1 {
        String::from_str("y")
    } else {
        String::from_str("z")
    }
}

/// The text Python writes for a number.
pub fn signed_text(v: i32) -> (text: String)
    ensures
        text@ == signed(v as int),
{
    let mut text: String = String::new();
    if v < 0 {
        push_char(&mut text, '-');
        let wide: i64 = v as i64;
        let magnitude: u64 = (-wide) as u64;
        push_decimal_u64(&mut text, magnitude);
        proof {
            reveal_strlit("-");
        }
        assert(text@ =~= "-"@ + decimal((-v) as nat));
    } else {
        push_decimal_u64(&mut text, v as u64);
        assert(text@ =~= decimal(v as nat));
    }
    text
}

fn arithmetic_text(o: u32) -> (text: &'static str)
    requires
        o < 7,
    ensures
        text@ == arithmetic_symbol(o as usize),
{
    if o == 0 {
        "+"
    } else if o == 1 {
        "-"
    } else if o == 2 {
        "*"
    } else if o == 3 {
        "//"
    } else if o == 4 {
        "%"
    } else if o == 5 {
        "/"
    } else {
        "**"
    }
}

fn comparison_text(o: u32) -> (text: &'static str)
    requires
        o < 6,
    ensures
        text@ == comparison_symbol(o as usize),
{
    if o == 0 {
        "<"
    } else if o == 1 {
        "<="
    } else if o == 2 {
        ">"
    } else if o == 3 {
        ">="
    } else if o == 4 {
        "=="
    } else {
        "!="
    }
}

/// Draw a name, then draw its value, from -5 to 9, only the first time that name appears.
fn variable(rng: &mut ChaCha8Rng, values: &mut Vec<Option<i32>>) -> (r: (Fragment, Ghost<Number>))
    requires
        old(values).len() == 3,
    ensures
        keeps(old(values)@, final(values)@),
        number_drawn(r.1@, final(values)@),
        number_size(r.1@) == 0,
        render_number(r.1@) == r.0.text@,
        number_rank(r.1@) == r.0.precedence,
{
    let i: u32 = draw_below(rng, 3);
    let k: usize = i as usize;
    if values[k].is_none() {
        let value: i32 = draw_signed(rng, -5, 9);
        values.set(k, Some(value));
    }
    (Fragment::atom(name_text(i)), Ghost(Number::Name(k)))
}

/// An arithmetic operand with `count` operators. A leaf is a name (always while nothing is
/// bound yet, else three times in five) or a digit; otherwise a negation three times in
/// twenty, else an operator drawn from seven: a division or a power takes a literal on its
/// right, the others split the rest between two operands. Then brackets, three times in
/// twenty.
fn number(rng: &mut ChaCha8Rng, values: &mut Vec<Option<i32>>, count: u32) -> (r: (
    Fragment,
    Ghost<Number>,
))
    requires
        old(values).len() == 3,
    ensures
        keeps(old(values)@, final(values)@),
        number_drawn(r.1@, final(values)@),
        number_size(r.1@) == count,
        render_number(r.1@) == r.0.text@,
        number_rank(r.1@) == r.0.precedence,
    decreases count,
{
    if count == 0 {
        let unbound: bool = values[0].is_none() && values[1].is_none() && values[2].is_none();
        if unbound || chance(rng, 3, 5) {
            return variable(rng, values);
        }
        let v: i32 = draw_signed(rng, 1, 9);
        return (Fragment::atom(signed_text(v)), Ghost(Number::Literal(v)));
    }
    let (expression, sketch): (Fragment, Ghost<Number>) = if chance(rng, 3, 20) {
        let (inner, inner_sketch) = number(rng, values, count - 1);
        let negated: Fragment = inner.unary("-", 70);
        let ghost built = Number::Negated(Box::new(inner_sketch@));
        assert(number_size(built) == count && render_number(built) == negated.text@);
        assert(number_drawn(built, values@));
        (negated, Ghost(built))
    } else {
        let o: u32 = draw_below(rng, 7);
        if o >= 3 {
            let v: i32 = if o == 6 {
                draw_signed(rng, 2, 3)
            } else if draw_below(rng, 2) == 0 {
                2
            } else {
                4
            };
            let right: Fragment = Fragment::atom(signed_text(v));
            let (left, left_sketch) = number(rng, values, count - 1);
            let precedence: u8 = if o == 6 {
                80
            } else {
                60
            };
            let joined: Fragment = left.binary(arithmetic_text(o), precedence, right, o == 6);
            let ghost built = Number::Scaled(o as usize, Box::new(left_sketch@), v);
            assert(number_size(built) == count && render_number(built) == joined.text@
                && number_rank(built) == joined.precedence);
            assert(number_drawn(built, values@));
            (joined, Ghost(built))
        } else {
            let left_count: u32 = draw_below(rng, count);
            let (left, left_sketch) = number(rng, values, left_count);
            let ghost middle = values@;
            let (right, right_sketch) = number(rng, values, count - 1 - left_count);
            proof {
                lemma_keeps_drawn(left_sketch@, middle, values@);
            }
            let precedence: u8 = if o == 2 {
                60
            } else {
                50
            };
            let joined: Fragment = left.binary(arithmetic_text(o), precedence, right, false);
            let ghost built = Number::Joined(
                o as usize,
                Box::new(left_sketch@),
                Box::new(right_sketch@),
            );
            assert(number_size(built) == count && render_number(built) == joined.text@
                && number_rank(built) == joined.precedence);
            assert(number_drawn(built, values@));
            (joined, Ghost(built))
        }
    };
    assert(!(sketch@ is Name) && !(sketch@ is Literal) && !(sketch@ is Brackets));
    if chance(rng, 3, 20) {
        let bracketed: Fragment = expression.grouped();
        let ghost built = Number::Brackets(Box::new(sketch@));
        assert(number_size(built) == count && render_number(built) == bracketed.text@);
        (bracketed, Ghost(built))
    } else {
        (expression, sketch)
    }
}

/// Two operands sharing `count` operators, compared by one of six comparisons.
fn comparison(rng: &mut ChaCha8Rng, values: &mut Vec<Option<i32>>, count: u32) -> (r: (
    Fragment,
    Ghost<Comparison>,
))
    requires
        old(values).len() == 3,
    ensures
        keeps(old(values)@, final(values)@),
        comparison_drawn(r.1@, final(values)@),
        number_size(r.1@.left) + number_size(r.1@.right) == count,
        render_comparison(r.1@) == r.0.text@,
        r.0.precedence == 40,
{
    let left_count: u32 = draw_through(rng, 0, count);
    let (left, left_sketch) = number(rng, values, left_count);
    let ghost middle = values@;
    let (right, right_sketch) = number(rng, values, count - left_count);
    proof {
        lemma_keeps_drawn(left_sketch@, middle, values@);
    }
    let o: u32 = draw_below(rng, 6);
    let joined: Fragment = left.binary(comparison_text(o), 40, right, false);
    let ghost built = Comparison { left: left_sketch@, op: o as usize, right: right_sketch@ };
    (joined, Ghost(built))
}

/// Two comparisons sharing `count` operators, the second negated one time in two, joined
/// by `and` or `or`.
fn boolean(rng: &mut ChaCha8Rng, values: &mut Vec<Option<i32>>, count: u32) -> (r: (
    Fragment,
    Ghost<Drawn>,
))
    requires
        old(values).len() == 3,
    ensures
        keeps(old(values)@, final(values)@),
        well_drawn(r.1@, final(values)@),
        size(r.1@) == count,
        render(r.1@) == r.0.text@,
        rank(r.1@) == r.0.precedence,
{
    let (left, left_sketch) = comparison(rng, values, count / 2);
    let ghost middle = values@;
    let (right, right_sketch) = comparison(rng, values, count - count / 2);
    proof {
        lemma_keeps_drawn(left_sketch@.left, middle, values@);
        lemma_keeps_drawn(left_sketch@.right, middle, values@);
    }
    let negated: bool = chance(rng, 1, 2);
    let right: Fragment = if negated {
        right.unary("not ", 30)
    } else {
        right
    };
    let o: u32 = draw_below(rng, 2);
    let (symbol, precedence): (&str, u8) = if o == 0 {
        ("and", 20)
    } else {
        ("or", 10)
    };
    let joined: Fragment = left.binary(symbol, precedence, right, false);
    let ghost built = Drawn::Test(left_sketch@, negated, o as usize, right_sketch@);
    assert(render(built) == joined.text@);
    (joined, Ghost(built))
}

/// A Python question with `count` operators: a boolean pair of comparisons seven times in
/// twenty, else arithmetic. `values` holds, for x, y and z, the value bound to each name
/// drawn so far; a name drawn for the first time gets one. Whatever the stream draws, the
/// text is the rendering of such a question with exactly `count` operators whose every name
/// is bound.
pub fn sample(rng: &mut ChaCha8Rng, values: &mut Vec<Option<i32>>, count: u32) -> (f: Fragment)
    requires
        old(values).len() == 3,
    ensures
        keeps(old(values)@, final(values)@),
        exists|d: Drawn|
            well_drawn(d, final(values)@) && size(d) == count && render(d) == f.text@ && rank(d)
                == f.precedence,
{
    if chance(rng, 7, 20) {
        let (f, d) = boolean(rng, values, count);
        assert(well_drawn(d@, values@) && size(d@) == count && render(d@) == f.text@ && rank(d@)
            == f.precedence);
        f
    } else {
        let (f, n) = number(rng, values, count);
        let ghost d = Drawn::Arithmetic(n@);
        assert(well_drawn(d, values@) && size(d) == count && render(d) == f.text@ && rank(d)
            == f.precedence);
        f
    }
}

pub open spec fn spec_bindings(values: Seq<Option<i32>>) -> Seq<(Seq<char>, Seq<char>)>
    decreases values.len(),
{
    if values.len() == 0 {
        Seq::empty()
    } else {
        let rest = spec_bindings(values.drop_last());
        match values.last() {
            Some(v) => rest.push((name((values.len() - 1) as usize), signed(v as int))),
            None => rest,
        }
    }
}

proof fn lemma_names_ordered(i: usize, j: usize)
    requires
        i < j < 3,
    ensures
        text_less(name(i), name(j)),
{
    reveal_strlit("x");
    reveal_strlit("y");
    reveal_strlit("z");
    assert(name(i).len() == 1 && name(j).len() == 1);
    assert(name(i)[0] < name(j)[0]);
}

/// The names of a list of bindings, in order.
pub open spec fn names(b: Seq<(String, String)>) -> Seq<Seq<char>> {
    b.map_values(|p: (String, String)| p.0@)
}

/// The bindings a question's names were drawn with, in alphabetical order, each name once.
pub fn bindings(values: &Vec<Option<i32>>) -> (b: Vec<(String, String)>)
    requires
        values.len() <= 3,
    ensures
        b@.len() == spec_bindings(values@).len(),
        forall|k: int|
            0 <= k < b@.len() ==> b@[k].0@ == spec_bindings(values@)[k].0 && b@[k].1@
                == spec_bindings(values@)[k].1,
        strictly_sorted(names(b@)),
{
    let mut b: Vec<(String, String)> = Vec::new();
    let ghost mut from: Seq<usize> = Seq::empty();
    let mut i: usize = 0;
    while i < values.len()
        invariant
            i <= values.len() <= 3,
            b@.len() == spec_bindings(values@.take(i as int)).len(),
            forall|k: int|
                0 <= k < b@.len() ==> b@[k].0@ == spec_bindings(values@.take(i as int))[k].0
                    && b@[k].1@ == spec_bindings(values@.take(i as int))[k].1,
            from.len() == b@.len(),
            forall|k: int| 0 <= k < from.len() ==> from[k] < i && b@[k].0@ == name(from[k]),
            forall|k: int, m: int| 0 <= k < m < from.len() ==> from[k] < from[m],
        decreases values.len() - i,
    {
        assert(values@.take(i + 1).drop_last() =~= values@.take(i as int));
        match values[i] {
            Some(v) => {
                b.push((name_text(i as u32), signed_text(v)));
                proof {
                    from = from.push(i);
                }
            },
            None => {},
        }
        i += 1;
    }
    assert(values@.take(values.len() as int) =~= values@);
    assert forall|k: int, m: int| 0 <= k < m < names(b@).len() implies text_less(
        names(b@)[k],
        names(b@)[m],
    ) by {
        lemma_names_ordered(from[k], from[m]);
    }
    b
}

} // verus!
