//! What a launch asks for, as the command line spells it: a `name=value` assignment, and
//! the question a name means in the loaded set, with the sentence a student reads when it
//! means nothing here.

use vstd::prelude::*;

use crate::exercises::{
    copy_texts, pairs_view, question_language, question_name, question_title, questions_view,
    spec_assignments, spec_find, spec_question_proof, spec_sequent, strings_view, Exercise,
    ExerciseV, ProofQuestion, ProofQuestionV, Question, QuestionSet, QuestionSetV, QuestionV,
};
use crate::logic::deduction::{spec_finished, spec_submit, texts_view, Proof, ProofV};
use crate::logic::formula::{
    less_text, lemma_text_less_total, lemma_text_less_transitive, strictly_sorted, text_less,
};
use crate::generate::first_index;
use crate::teaching::{spec_language_key, Language};
use crate::text::{chars_of, decimal, push_decimal, same_text, string_of, trim, trim_chars};

verus! {

pub open spec fn assignment_format() -> Seq<char> {
    "赋值格式为 x=3 或 P=true"@
}

pub open spec fn assignment_blank() -> Seq<char> {
    "变量名称和值不能为空。"@
}

/// `name=value`, split at the first `=`, each side trimmed; both sides must say something.
pub open spec fn spec_assignment(input: Seq<char>) -> Result<(Seq<char>, Seq<char>), Seq<char>> {
    match first_index(input, '=') {
        None => Err(assignment_format()),
        Some(k) => {
            let name = trim(input.take(k));
            let value = trim(input.skip(k + 1));
            if name.len() == 0 || value.len() == 0 {
                Err(assignment_blank())
            } else {
                Ok((name, value))
            }
        },
    }
}

/// Read one `--assign` argument.
pub fn assignment(input: &str) -> (result: Result<(String, String), String>)
    ensures
        match spec_assignment(input@) {
            Ok((name, value)) => result matches Ok((n, v)) && n@ == name && v@ == value,
            Err(e) => result matches Err(m) && m@ == e,
        },
{
    let chars: Vec<char> = chars_of(input);
    let k: usize = match crate::generate::find_char(&chars, '=') {
        Some(k) => k,
        None => {
            return Err(String::from_str("赋值格式为 x=3 或 P=true"));
        },
    };
    let before: Vec<char> = crate::text::slice_of(&chars, 0, k);
    let after: Vec<char> = crate::text::slice_of(&chars, k + 1, chars.len());
    assert(before@ =~= input@.take(k as int));
    assert(after@ =~= input@.skip(k + 1));
    let name: Vec<char> = trim_chars(&before);
    let value: Vec<char> = trim_chars(&after);
    if name.len() == 0 || value.len() == 0 {
        return Err(String::from_str("变量名称和值不能为空。"));
    }
    Ok((string_of(&name), string_of(&value)))
}

/// The sentence for a set with no question of the launch's language.
pub open spec fn spec_no_questions(set: Seq<char>, language: Language) -> Seq<char> {
    "题集 "@ + set + " 里没有 --"@ + spec_language_key(language) + " 的题目；用 --list 查看题集内容。"@
}

pub fn no_questions(set: &QuestionSet, language: Language) -> (text: String)
    ensures
        text@ == spec_no_questions(set@.name, language),
{
    let mut text: String = String::from_str("题集 ");
    text.append(set.name());
    text.append(" 里没有 --");
    text.append(language.key());
    text.append(" 的题目；用 --list 查看题集内容。");
    text
}

/// The question a name means in the set for this launch's language, or why it means
/// nothing here: absent from the set, or a question of the other kind or language.
pub open spec fn spec_named(set: QuestionSetV, name: Seq<char>, language: Language) -> Result<int, Seq<char>> {
    match spec_find(set.questions, name) {
        None => Err(
            "题集 "@ + set.name + " 里没有题目 "@ + name + "；用 --"@ + spec_language_key(language)
                + " --list 查看可用 ID。"@,
        ),
        Some(k) => {
            let q = set.questions[k];
            if question_language(q) == language {
                Ok(k)
            } else {
                match q {
                    QuestionV::Proof(_) => Err("题目 "@ + name + " 是证明题，请改用 --logic。"@),
                    QuestionV::Evaluation(e) => Err(
                        "题目 "@ + name + " 是 --"@ + spec_language_key(question_language(q))
                            + " 的题目，当前是 --"@ + spec_language_key(language) + "。"@,
                    ),
                }
            }
        },
    }
}

pub fn named<'a>(set: &'a QuestionSet, name: &str, language: Language) -> (result: Result<&'a Question, String>)
    ensures
        match spec_named(set@, name@, language) {
            Ok(k) => result matches Ok(q) && q@ == set@.questions[k],
            Err(e) => result matches Err(m) && m@ == e,
        },
{
    let question: &Question = match set.find(name) {
        Some(q) => q,
        None => {
            let mut text: String = String::from_str("题集 ");
            text.append(set.name());
            text.append(" 里没有题目 ");
            text.append(name);
            text.append("；用 --");
            text.append(language.key());
            text.append(" --list 查看可用 ID。");
            return Err(text);
        },
    };
    if question.language() == language {
        return Ok(question);
    }
    match question {
        Question::Proof(_) => {
            let mut text: String = String::from_str("题目 ");
            text.append(name);
            text.append(" 是证明题，请改用 --logic。");
            Err(text)
        },
        Question::Evaluation(_) => {
            let mut text: String = String::from_str("题目 ");
            text.append(name);
            text.append(" 是 --");
            text.append(question.language().key());
            text.append(" 的题目，当前是 --");
            text.append(language.key());
            text.append("。");
            Err(text)
        },
    }
}

/// The names of a list of bindings, in order.
pub open spec fn binding_names(pairs: Seq<(Seq<char>, Seq<char>)>) -> Seq<Seq<char>> {
    pairs.map_values(|p: (Seq<char>, Seq<char>)| p.0)
}

/// What a list of bindings binds, read in order: a later value for a name replaces an
/// earlier one.
pub open spec fn bound(pairs: Seq<(Seq<char>, Seq<char>)>) -> Map<Seq<char>, Seq<char>>
    decreases pairs.len(),
{
    if pairs.len() == 0 {
        Map::empty()
    } else {
        bound(pairs.drop_last()).insert(pairs.last().0, pairs.last().1)
    }
}

/// Sorted by name with no name twice, as a `BTreeMap` of names walks.
pub open spec fn by_name(pairs: Seq<(Seq<char>, Seq<char>)>) -> bool {
    strictly_sorted(binding_names(pairs))
}

proof fn lemma_bound_insert(s: Seq<(Seq<char>, Seq<char>)>, pos: int, p: (Seq<char>, Seq<char>))
    requires
        0 <= pos <= s.len(),
        forall|i: int| 0 <= i < s.len() ==> (#[trigger] s[i]).0 != p.0,
    ensures
        bound(s.insert(pos, p)) == bound(s).insert(p.0, p.1),
    decreases s.len(),
{
    let t = s.insert(pos, p);
    if pos == s.len() {
        assert(t.drop_last() =~= s);
    } else {
        assert(t.drop_last() =~= s.drop_last().insert(pos, p));
        assert(t.last() == s.last());
        lemma_bound_insert(s.drop_last(), pos, p);
        assert(s.last().0 != p.0);
        assert(bound(t) =~= bound(s).insert(p.0, p.1));
    }
}

proof fn lemma_bound_update(s: Seq<(Seq<char>, Seq<char>)>, i: int, v: Seq<char>)
    requires
        0 <= i < s.len(),
        forall|j: int| 0 <= j < s.len() && j != i ==> (#[trigger] s[j]).0 != s[i].0,
    ensures
        bound(s.update(i, (s[i].0, v))) == bound(s).insert(s[i].0, v),
    decreases s.len(),
{
    let t = s.update(i, (s[i].0, v));
    if i == s.len() - 1 {
        assert(t.drop_last() =~= s.drop_last());
        assert(bound(t) =~= bound(s).insert(s[i].0, v));
    } else {
        assert(t.drop_last() =~= s.drop_last().update(i, (s[i].0, v)));
        assert(t.last() == s.last());
        lemma_bound_update(s.drop_last(), i, v);
        assert(s.last().0 != s[i].0);
        assert(bound(t) =~= bound(s).insert(s[i].0, v));
    }
}

/// Bind `name` to `value` in a list of bindings kept sorted by name: the name's old value,
/// if it had one, is replaced.
fn bind(pairs: &mut Vec<(String, String)>, name: &String, value: &String)
    requires
        by_name(pairs_view(old(pairs)@)),
    ensures
        by_name(pairs_view(final(pairs)@)),
        bound(pairs_view(final(pairs)@)) == bound(pairs_view(old(pairs)@)).insert(name@, value@),
{
    let target: Vec<char> = chars_of(name.as_str());
    let ghost old_views = pairs_view(pairs@);
    let ghost old_names = binding_names(old_views);
    let mut i: usize = 0;
    let mut stop: bool = false;
    while i < pairs.len() && !stop
        invariant
            i <= pairs.len(),
            stop ==> i < pairs.len() && text_less(name@, old_names[i as int]),
            pairs@ == old(pairs)@,
            old_views == pairs_view(pairs@),
            old_names == binding_names(old_views),
            target@ == name@,
            strictly_sorted(old_names),
            forall|k: int| 0 <= k < i ==> text_less(#[trigger] old_names[k], name@),
        decreases pairs.len() - i + (if stop { 0int } else { 1int }),
    {
        let here: Vec<char> = chars_of(pairs[i].0.as_str());
        assert(old_names[i as int] == pairs@[i as int].0@);
        if !less_text(&here, &target) {
            proof {
                lemma_text_less_total(here@, target@);
            }
            if !less_text(&target, &here) {
                // The name is already bound: give it the new value.
                let ghost at: int = i as int;
                pairs.set(i, (name.clone(), value.clone()));
                proof {
                    assert(old_names[at] == name@);
                    assert(pairs_view(pairs@) =~= old_views.update(at, (old_views[at].0, value@)));
                    assert(binding_names(pairs_view(pairs@)) =~= old_names);
                    assert forall|j: int| 0 <= j < old_views.len() && j != at implies (
                    #[trigger] old_views[j]).0 != old_views[at].0 by {
                        assert(old_names[j] == old_views[j].0);
                        if j < at {
                            assert(text_less(old_names[j], old_names[at]));
                        } else {
                            assert(text_less(old_names[at], old_names[j]));
                        }
                        lemma_text_less_total(old_names[j], old_names[j]);
                    }
                    lemma_bound_update(old_views, at, value@);
                }
                return;
            }
            stop = true;
        } else {
            i += 1;
        }
    }
    let ghost pos: int = i as int;
    pairs.insert(i, (name.clone(), value.clone()));
    proof {
        let new_views = pairs_view(pairs@);
        assert(new_views =~= old_views.insert(pos, (name@, value@)));
        let new_names = binding_names(new_views);
        assert(new_names =~= old_names.insert(pos, name@));
        assert forall|a: int, b: int| 0 <= a < b < new_names.len() implies text_less(
            new_names[a],
            new_names[b],
        ) by {
            if b < pos {
            } else if a < pos && b == pos {
            } else if a < pos {
                assert(new_names[b] == old_names[b - 1]);
            } else if a == pos {
                assert(new_names[b] == old_names[b - 1]);
                if pos < old_names.len() {
                    assert(text_less(name@, old_names[pos]));
                    if b - 1 > pos {
                        lemma_text_less_transitive(name@, old_names[pos], old_names[b - 1]);
                    }
                }
            } else {
                assert(new_names[a] == old_names[a - 1]);
                assert(new_names[b] == old_names[b - 1]);
            }
        }
        assert forall|k: int| 0 <= k < old_views.len() implies (#[trigger] old_views[k]).0 != name@ by {
            assert(old_names[k] == old_views[k].0);
            if k < pos {
                lemma_text_less_total(old_names[k], name@);
            } else {
                assert(text_less(name@, old_names[pos]));
                if k > pos {
                    lemma_text_less_transitive(name@, old_names[pos], old_names[k]);
                }
                lemma_text_less_total(name@, old_names[k]);
            }
        }
        lemma_bound_insert(old_views, pos, (name@, value@));
    }
}

/// Whether the name at position `i` was already given earlier in the list.
pub open spec fn repeats(names: Seq<Seq<char>>, i: int) -> bool {
    exists|j: int| 0 <= j < i && names[j] == names[i]
}

/// The first position, from `k` on, whose name was already given.
pub open spec fn first_repeat(names: Seq<Seq<char>>, k: int) -> Option<int>
    decreases names.len() - k,
{
    if k < 0 || k >= names.len() {
        None
    } else if repeats(names, k) {
        Some(k)
    } else {
        first_repeat(names, k + 1)
    }
}

pub open spec fn spec_assigned_twice(name: Seq<char>) -> Seq<char> {
    "变量 "@ + name + " 被重复赋值。"@
}

pub open spec fn spec_assigned_proof(name: Seq<char>) -> Seq<char> {
    "题目 "@ + name + " 是证明题，--assign 对它没有意义。"@
}

/// What `--assign` does to the question a launch opens: a name assigned twice is refused;
/// an evaluation question's bindings take the assignments, each replacing the question's
/// own value for that name, and stay sorted by name; a proof question binds nothing, so
/// any assignment is refused.
pub open spec fn spec_assigned(q: QuestionV, assigned: Seq<(Seq<char>, Seq<char>)>) -> Result<
    Map<Seq<char>, Seq<char>>,
    Seq<char>,
> {
    match first_repeat(binding_names(assigned), 0) {
        Some(i) => Err(spec_assigned_twice(assigned[i].0)),
        None => match q {
            QuestionV::Evaluation(e) => Ok(bound(e.bindings + assigned)),
            QuestionV::Proof(p) => if assigned.len() == 0 {
                Ok(Map::empty())
            } else {
                Err(spec_assigned_proof(p.name))
            },
        },
    }
}

/// Apply a launch's assignments to the question it opens.
pub fn assign(question: Question, assigned: &Vec<(String, String)>) -> (result: Result<Question, String>)
    ensures
        match spec_assigned(question@, pairs_view(assigned@)) {
            Err(e) => result matches Err(m) && m@ == e,
            Ok(map) => result matches Ok(q) && match (question@, q@) {
                (QuestionV::Evaluation(before), QuestionV::Evaluation(after)) => {
                    &&& after == (ExerciseV { bindings: after.bindings, ..before })
                    &&& by_name(after.bindings)
                    &&& after.wf()
                    &&& bound(after.bindings) == map
                },
                (QuestionV::Proof(before), QuestionV::Proof(after)) => after == before,
                _ => false,
            },
        },
{
    let ghost names = binding_names(pairs_view(assigned@));
    let mut i: usize = 0;
    while i < assigned.len()
        invariant
            i <= assigned.len(),
            names == binding_names(pairs_view(assigned@)),
            first_repeat(names, 0) == first_repeat(names, i as int),
            forall|k: int| 0 <= k < i ==> !repeats(names, k),
        decreases assigned.len() - i,
    {
        let mut j: usize = 0;
        while j < i
            invariant
                j <= i < assigned.len(),
                names == binding_names(pairs_view(assigned@)),
                first_repeat(names, 0) == first_repeat(names, i as int),
                forall|k: int| 0 <= k < j ==> names[k] != names[i as int],
            decreases i - j,
        {
            if same_text(assigned[j].0.as_str(), assigned[i].0.as_str()) {
                proof {
                    assert(names[j as int] == names[i as int]);
                    assert(repeats(names, i as int));
                    assert(first_repeat(names, i as int) == Some(i as int));
                    assert(pairs_view(assigned@)[i as int].0 == assigned@[i as int].0@);
                }
                let mut text: String = String::from_str("变量 ");
                text.append(assigned[i].0.as_str());
                text.append(" 被重复赋值。");
                return Err(text);
            }
            j += 1;
        }
        assert(!repeats(names, i as int));
        i += 1;
    }
    assert(first_repeat(names, i as int) is None);
    match question {
        Question::Evaluation(mut exercise) => {
            let mut merged: Vec<(String, String)> = Vec::new();
            let ghost all = pairs_view(exercise.bindings@) + pairs_view(assigned@);
            assert(pairs_view(merged@) =~= Seq::<(Seq<char>, Seq<char>)>::empty());
            assert(bound(all.take(0)) =~= bound(pairs_view(merged@)));
            let mut k: usize = 0;
            while k < exercise.bindings.len()
                invariant
                    k <= exercise.bindings.len(),
                    all == pairs_view(exercise.bindings@) + pairs_view(assigned@),
                    by_name(pairs_view(merged@)),
                    bound(pairs_view(merged@)) == bound(all.take(k as int)),
                decreases exercise.bindings.len() - k,
            {
                bind(&mut merged, &exercise.bindings[k].0, &exercise.bindings[k].1);
                assert(all.take(k + 1).drop_last() =~= all.take(k as int));
                k += 1;
            }
            let mut m: usize = 0;
            while m < assigned.len()
                invariant
                    m <= assigned.len(),
                    k == exercise.bindings.len(),
                    all == pairs_view(exercise.bindings@) + pairs_view(assigned@),
                    by_name(pairs_view(merged@)),
                    bound(pairs_view(merged@)) == bound(all.take(k + m)),
                decreases assigned.len() - m,
            {
                bind(&mut merged, &assigned[m].0, &assigned[m].1);
                assert(all.take(k + m + 1).drop_last() =~= all.take(k + m));
                m += 1;
            }
            assert(all.take(k + m) =~= all);
            exercise.bindings = merged;
            Ok(Question::Evaluation(exercise))
        },
        Question::Proof(proof_question) => {
            if assigned.len() == 0 {
                Ok(Question::Proof(proof_question))
            } else {
                let mut text: String = String::from_str("题目 ");
                text.append(proof_question.name.as_str());
                text.append(" 是证明题，--assign 对它没有意义。");
                Err(text)
            }
        },
    }
}

/// One line of `--list`: the question's name, its title, what it asks (the expression, or
/// the sequent of a proof) and, for an evaluation, its assignments, separated by tabs.
pub open spec fn spec_listing(q: QuestionV) -> Seq<char> {
    let (source, extra) = match q {
        QuestionV::Evaluation(e) => (e.expression, spec_assignments(e.bindings)),
        QuestionV::Proof(p) => (spec_sequent(p), Seq::<char>::empty()),
    };
    question_name(q) + "\t"@ + question_title(q) + "\t"@ + source + "\t"@ + extra
}

pub fn listing(question: &Question) -> (line: String)
    ensures
        line@ == spec_listing(question@),
{
    let (source, extra): (String, String) = match question {
        Question::Evaluation(exercise) => (exercise.expression.clone(), exercise.assignments()),
        Question::Proof(proof_question) => (proof_question.sequent(), String::new()),
    };
    let mut line: String = String::from_str(question.name());
    line.append("\t");
    line.append(question.title());
    line.append("\t");
    line.append(source.as_str());
    line.append("\t");
    line.append(extra.as_str());
    proof {
        reveal_strlit("\t");
    }
    line
}

/// Where the evaluation questions of a list stand, in order.
pub open spec fn spec_evaluation_positions(qs: Seq<QuestionV>) -> Seq<usize>
    decreases qs.len(),
{
    if qs.len() == 0 {
        Seq::empty()
    } else {
        let rest = spec_evaluation_positions(qs.drop_last());
        if qs.last() is Evaluation {
            rest.push((qs.len() - 1) as usize)
        } else {
            rest
        }
    }
}

/// The questions `--assign` can bind, when no question is named: the evaluation ones.
pub fn evaluation_positions(questions: &Vec<Question>) -> (positions: Vec<usize>)
    ensures
        positions@ == spec_evaluation_positions(questions_view(questions@)),
{
    let ghost qs = questions_view(questions@);
    let mut positions: Vec<usize> = Vec::new();
    let mut i: usize = 0;
    while i < questions.len()
        invariant
            i <= questions.len(),
            qs == questions_view(questions@),
            positions@ == spec_evaluation_positions(qs.take(i as int)),
        decreases questions.len() - i,
    {
        assert(qs.take(i + 1).drop_last() =~= qs.take(i as int));
        assert(qs.take(i + 1).last() == questions@[i as int]@);
        if questions[i].evaluation().is_some() {
            positions.push(i);
        }
        i += 1;
    }
    assert(qs.take(questions.len() as int) =~= qs);
    positions
}

pub open spec fn spec_nothing_to_assign(set: Seq<char>, language: Language) -> Seq<char> {
    "题集 "@ + set + " 里 --"@ + spec_language_key(language) + " 没有求值题，--assign 没有可赋值的题目。"@
}

/// The sentence for `--assign` when the set holds no evaluation question of the language.
pub fn nothing_to_assign(set: &QuestionSet, language: Language) -> (text: String)
    ensures
        text@ == spec_nothing_to_assign(set@.name, language),
{
    let mut text: String = String::from_str("题集 ");
    text.append(set.name());
    text.append(" 里 --");
    text.append(language.key());
    text.append(" 没有求值题，--assign 没有可赋值的题目。");
    text
}

pub open spec fn spec_not_a_proof(name: Seq<char>) -> Seq<char> {
    "题目 "@ + name + " 是求值题，不是证明题；用 --exercise "@ + name + " 打开它。"@
}

/// The proof a launch opens, if it opens one: the sequent written out with a goal and its
/// premises, or the proof question chosen from the set. Asking for a proof by the name of
/// an evaluation question is refused.
pub open spec fn spec_proof_to_open(
    goal: Option<Seq<char>>,
    premises: Seq<Seq<char>>,
    chosen: Option<QuestionV>,
    proof_asked: bool,
) -> Result<Option<ProofQuestionV>, Seq<char>> {
    match goal {
        Some(g) => Ok(
            Some(
                ProofQuestionV {
                    set: Seq::empty(),
                    name: "custom-proof"@,
                    title: "自定义证明"@,
                    note: None,
                    premises,
                    conclusion: g,
                },
            ),
        ),
        None => match chosen {
            Some(QuestionV::Proof(q)) => Ok(Some(q)),
            Some(QuestionV::Evaluation(e)) => if proof_asked {
                Err(spec_not_a_proof(e.name))
            } else {
                Ok(None)
            },
            None => Ok(None),
        },
    }
}

pub fn proof_to_open(
    goal: Option<&String>,
    premises: &Vec<String>,
    chosen: Option<&Question>,
    proof_asked: bool,
) -> (result: Result<Option<ProofQuestion>, String>)
    ensures
        match spec_proof_to_open(
            match goal {
                Some(g) => Some(g@),
                None => None,
            },
            strings_view(premises@),
            match chosen {
                Some(q) => Some(q@),
                None => None,
            },
            proof_asked,
        ) {
            Ok(Some(v)) => result matches Ok(Some(q)) && q@ == v,
            Ok(None) => result matches Ok(None),
            Err(e) => result matches Err(m) && m@ == e,
        },
{
    match goal {
        Some(goal) => Ok(
            Some(
                ProofQuestion {
                    set: String::new(),
                    name: String::from_str("custom-proof"),
                    title: String::from_str("自定义证明"),
                    note: None,
                    premises: copy_texts(premises),
                    conclusion: goal.clone(),
                },
            ),
        ),
        None => match chosen {
            Some(Question::Proof(question)) => Ok(Some(question.duplicate())),
            Some(Question::Evaluation(exercise)) => {
                if proof_asked {
                    let mut text: String = String::from_str("题目 ");
                    text.append(exercise.name.as_str());
                    text.append(" 是求值题，不是证明题；用 --exercise ");
                    text.append(exercise.name.as_str());
                    text.append(" 打开它。");
                    Err(text)
                } else {
                    Ok(None)
                }
            },
            None => Ok(None),
        },
    }
}

/// The name a question written on the command line goes by in the progress file.
pub open spec fn spec_custom_name(language: Language) -> Seq<char> {
    match language {
        Language::Logic => "custom-logic"@,
        Language::Python => "custom-python"@,
    }
}

/// A question written on the command line: it belongs to no set and binds nothing.
pub fn custom_exercise(language: Language, expression: String) -> (exercise: Exercise)
    ensures
        exercise@ == (ExerciseV {
            set: Seq::empty(),
            name: spec_custom_name(language),
            title: "自定义练习"@,
            language,
            expression: expression@,
            note: None,
            bindings: Seq::empty(),
            evaluation: None,
        }),
        exercise@.wf(),
{
    let name: &str = match language {
        Language::Logic => "custom-logic",
        Language::Python => "custom-python",
    };
    let exercise = Exercise {
        set: String::new(),
        name: String::from_str(name),
        title: String::from_str("自定义练习"),
        language,
        expression,
        note: None,
        bindings: Vec::new(),
        evaluation: None,
    };
    assert(pairs_view(exercise.bindings@) =~= Seq::<(Seq<char>, Seq<char>)>::empty());
    exercise
}

pub open spec fn unfinished_sentence() -> Seq<char> {
    "步骤合法，但尚未在所有假设之外得到目标。"@
}

/// What checking a written proof prints, command by command, and how it ends: each
/// accepted command with the rules' sentence for it, until one is refused.
pub open spec fn spec_checked(p: ProofV, commands: Seq<Seq<char>>) -> (Seq<Seq<char>>, Result<ProofV, Seq<char>>)
    decreases commands.len(),
{
    if commands.len() == 0 {
        (Seq::empty(), Ok(p))
    } else {
        let (lines, reached) = spec_checked(p, commands.drop_last());
        match reached {
            Err(e) => (lines, Err(e)),
            Ok(q) => match spec_submit(q, commands.last()) {
                Err(e) => (lines, Err(e)),
                Ok((r, message)) => (lines.push(commands.last() + "\n"@ + message), Ok(r)),
            },
        }
    }
}

proof fn lemma_checked_err_stays(p: ProofV, commands: Seq<Seq<char>>, n: nat)
    requires
        n <= commands.len(),
        spec_checked(p, commands.take(n as int)).1 is Err,
    ensures
        spec_checked(p, commands) == spec_checked(p, commands.take(n as int)),
    decreases commands.len() - n,
{
    if n == commands.len() {
        assert(commands.take(n as int) =~= commands);
    } else {
        assert(commands.take(n as int + 1).drop_last() =~= commands.take(n as int));
        lemma_checked_err_stays(p, commands, n + 1);
    }
}

/// A written proof checked against its question: the lines to print, and whether it
/// stands: it fails with the first refusal, or, when every command is accepted, unless
/// the goal is reached outside every assumption.
pub open spec fn spec_check_proof(q: ProofQuestionV, commands: Seq<Seq<char>>) -> (Seq<Seq<char>>, Result<
    (),
    Seq<char>,
>) {
    match spec_question_proof(q) {
        Err(e) => (Seq::empty(), Err(e)),
        Ok(start) => {
            let (lines, reached) = spec_checked(start, commands);
            (
                lines,
                match reached {
                    Err(e) => Err(e),
                    Ok(r) => if spec_finished(r) {
                        Ok(())
                    } else {
                        Err(unfinished_sentence())
                    },
                },
            )
        },
    }
}

pub fn check_proof(question: &ProofQuestion, commands: &Vec<String>) -> (report: (Vec<String>, Result<(), String>))
    ensures
        texts_view(report.0@) == spec_check_proof(question@, texts_view(commands@)).0,
        match spec_check_proof(question@, texts_view(commands@)).1 {
            Ok(()) => report.1 is Ok,
            Err(e) => report.1 matches Err(m) && m@ == e,
        },
{
    let mut lines: Vec<String> = Vec::new();
    let mut proof: Proof = match question.to_proof() {
        Ok(proof) => proof,
        Err(error) => {
            assert(texts_view(lines@) =~= Seq::<Seq<char>>::empty());
            return (lines, Err(error.0));
        },
    };
    let ghost start = proof@;
    let ghost cv = texts_view(commands@);
    let mut i: usize = 0;
    assert(cv.take(0) =~= Seq::<Seq<char>>::empty());
    assert(texts_view(lines@) =~= Seq::<Seq<char>>::empty());
    while i < commands.len()
        invariant
            i <= commands.len(),
            cv == texts_view(commands@),
            proof.wf(),
            spec_question_proof(question@) == Ok::<ProofV, Seq<char>>(start),
            spec_checked(start, cv.take(i as int)) == (texts_view(lines@), Ok::<ProofV, Seq<char>>(proof@)),
        decreases commands.len() - i,
    {
        let ghost before = proof@;
        let ghost printed = texts_view(lines@);
        assert(cv.take(i + 1).drop_last() =~= cv.take(i as int));
        assert(cv.take(i + 1).last() == commands@[i as int]@);
        match proof.submit(commands[i].as_str()) {
            Ok(message) => {
                let mut line: String = commands[i].clone();
                line.append("\n");
                line.append(message.as_str());
                lines.push(line);
                proof {
                    assert(texts_view(lines@) =~= printed.push(commands@[i as int]@ + "\n"@ + message@));
                }
            },
            Err(error) => {
                proof {
                    assert(spec_checked(start, cv.take(i + 1)).1 is Err);
                    lemma_checked_err_stays(start, cv, (i + 1) as nat);
                }
                return (lines, Err(error.0));
            },
        }
        i += 1;
    }
    assert(cv.take(commands.len() as int) =~= cv);
    if proof.is_finished() {
        (lines, Ok(()))
    } else {
        (lines, Err(String::from_str("步骤合法，但尚未在所有假设之外得到目标。")))
    }
}

/// One step of a printed trace: its number, what it did to the selected text (took off a
/// pair of brackets, or put the answer in its place) and the rules' sentence for it.
pub open spec fn spec_trace_line(number: nat, selected: Seq<char>, answer: Option<Seq<char>>, message: Seq<char>) -> Seq<
    char,
> {
    let action = match answer {
        None => "去掉「"@ + selected + "」的一层括号"@,
        Some(a) => "将「"@ + selected + "」替换为 "@ + a,
    };
    decimal(number) + ". "@ + action + "\n   "@ + message
}

pub fn trace_line(number: usize, selected: &str, answer: Option<&str>, message: &str) -> (line: String)
    ensures
        line@ == spec_trace_line(number as nat, selected@, match answer {
            Some(a) => Some(a@),
            None => None,
        }, message@),
{
    let mut line: String = String::new();
    push_decimal(&mut line, number);
    line.append(". ");
    match answer {
        None => {
            line.append("去掉「");
            line.append(selected);
            line.append("」的一层括号");
        },
        Some(a) => {
            line.append("将「");
            line.append(selected);
            line.append("」替换为 ");
            line.append(a);
        },
    }
    line.append("\n   ");
    line.append(message);
    proof {
        assert(Seq::<char>::empty() + decimal(number as nat) =~= decimal(number as nat));
    }
    line
}

pub open spec fn spec_no_trace(name: Seq<char>) -> Seq<char> {
    "证明题没有逐步演示；写好的证明用 --proof "@ + name + " --check-proof FILE 检查。"@
}

/// Why a proof question has no trace, and what to do instead.
pub fn no_trace(name: &str) -> (text: String)
    ensures
        text@ == spec_no_trace(name@),
{
    let mut text: String = String::from_str("证明题没有逐步演示；写好的证明用 --proof ");
    text.append(name);
    text.append(" --check-proof FILE 检查。");
    text
}

/// What `--equivalent` reports.
pub open spec fn spec_equivalence_sentence(same: bool) -> Seq<char> {
    if same {
        "等价：所有赋值下真值相同。"@
    } else {
        "不等价：存在使两者真值不同的赋值。"@
    }
}

pub fn equivalence_sentence(same: bool) -> (text: &'static str)
    ensures
        text@ == spec_equivalence_sentence(same),
{
    if same {
        "等价：所有赋值下真值相同。"
    } else {
        "不等价：存在使两者真值不同的赋值。"
    }
}

} // verus!
