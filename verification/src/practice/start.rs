//! Where a launch resumes: the strategy it starts in, the question of an ordered set it
//! opens on, and whether random practice reopens saved work or draws a new question.
//! Building an evaluation session, replaying it and drawing a random question belong to
//! the caller's language machinery, which is handed in as the calls below.

use vstd::prelude::*;

use crate::exercises::{
    question_name, question_language, question_set, questions_view, spec_mode, spec_question_proof,
    Exercise, ExerciseV, ProofQuestion, ProofQuestionV, Question, QuestionV,
};
use crate::generate::{has_prefix, is_random};
use crate::practice::course::generates;
use crate::logic::deduction::{replay_from, spec_finished, spec_progress_key, Proof};
use crate::progress::{saved_attempts, saved_commands, spec_points_at, Progress, ProgressV};
use crate::teaching::{spec_default_mode, EvaluationMode, Language, ParseError, RecordedAttempt};

verus! {

/// The strategy an evaluation question starts in: the saved one when the saved pointer
/// names this very question of this very set, else the question's own.
pub open spec fn spec_evaluation_mode(p: ProgressV, e: ExerciseV) -> EvaluationMode {
    if spec_points_at(p, e.set, e.name) {
        p.mode
    } else {
        spec_mode(e)
    }
}

/// The strategy a launch starts in: what the caller asked for, else the question's as
/// above; a proof has none of its own and carries its language's default, as logic
/// questions open.
pub open spec fn spec_starting_mode(
    requested: Option<EvaluationMode>,
    p: ProgressV,
    q: QuestionV,
) -> EvaluationMode {
    match requested {
        Some(mode) => mode,
        None => match q {
            QuestionV::Evaluation(e) => spec_evaluation_mode(p, e),
            QuestionV::Proof(_) => spec_default_mode(Language::Logic),
        },
    }
}

/// Whether the commands saved for a proof question already finish it.
pub open spec fn spec_proof_finished(q: ProofQuestionV, p: ProgressV) -> Result<bool, Seq<char>> {
    match spec_question_proof(q) {
        Err(e) => Err(e),
        Ok(start) => match replay_from(start, saved_commands(p, spec_progress_key(start))) {
            Err(e) => Err(e),
            Ok(done) => Ok(spec_finished(done)),
        },
    }
}

/// The position of the question the saved pointer names, or the first one.
#[verifier::opaque]
pub open spec fn pointed(p: ProgressV, qs: Seq<QuestionV>) -> int {
    if exists|k: int|
        0 <= k < qs.len() && spec_points_at(p, question_set(#[trigger] qs[k]), question_name(qs[k])) {
        choose|k: int|
            0 <= k < qs.len() && spec_points_at(p, question_set(qs[k]), question_name(qs[k]))
                && forall|j: int|
                0 <= j < k ==> !spec_points_at(
                    p,
                    question_set(#[trigger] qs[j]),
                    question_name(qs[j]),
                )
    } else {
        0
    }
}

/// Question `q`'s saved work came back finished or not: a proof's by its own replay, an
/// evaluation's by what `finished` answered for it in its starting strategy.
#[verifier::opaque]
pub open spec fn settled<F: Fn(&Exercise, EvaluationMode) -> Result<bool, ParseError>>(
    finished: F,
    p: ProgressV,
    requested: Option<EvaluationMode>,
    q: Question,
    done: bool,
) -> bool {
    match q {
        Question::Evaluation(e) => call_ensures(
            finished,
            (&e, spec_starting_mode(requested, p, q@)),
            Ok::<bool, ParseError>(done),
        ),
        Question::Proof(pq) => spec_proof_finished(pq@, p) == Ok::<bool, Seq<char>>(done),
    }
}

/// Checking question `q`'s saved work failed with `error`.
#[verifier::opaque]
pub open spec fn refused<F: Fn(&Exercise, EvaluationMode) -> Result<bool, ParseError>>(
    finished: F,
    p: ProgressV,
    requested: Option<EvaluationMode>,
    q: Question,
    error: ParseError,
) -> bool {
    match q {
        Question::Evaluation(e) => call_ensures(
            finished,
            (&e, spec_starting_mode(requested, p, q@)),
            Err::<bool, ParseError>(error),
        ),
        Question::Proof(pq) => spec_proof_finished(pq@, p) == Err::<bool, Seq<char>>(error.0@),
    }
}

/// The strategy a launch starts in.
pub fn starting_mode(
    requested: Option<EvaluationMode>,
    progress: &Progress,
    question: &Question,
) -> (mode: EvaluationMode)
    ensures
        mode == spec_starting_mode(requested, progress@, question@),
{
    match requested {
        Some(mode) => mode,
        None => match question {
            Question::Evaluation(exercise) => evaluation_mode(progress, exercise),
            Question::Proof(_) => Language::Logic.default_mode(),
        },
    }
}

fn evaluation_mode(progress: &Progress, exercise: &Exercise) -> (mode: EvaluationMode)
    ensures
        mode == spec_evaluation_mode(progress@, exercise@),
{
    if progress.points_at(exercise.set.as_str(), exercise.name.as_str()) {
        progress.mode()
    } else {
        exercise.mode()
    }
}

/// Whether the commands saved for this proof question already finish it.
pub fn proof_finished(question: &ProofQuestion, progress: &Progress) -> (result: Result<bool, ParseError>)
    ensures
        match spec_proof_finished(question@, progress@) {
            Ok(done) => result == Ok::<bool, ParseError>(done),
            Err(e) => result matches Err(err) && err.0@ == e,
        },
{
    let start: Proof = question.to_proof()?;
    let commands: Vec<String> = progress.commands(&start);
    let done: Proof = start.replay(commands.as_slice())?;
    Ok(done.is_finished())
}

/// Where an ordered set opens: the first question still unfinished, looked for from the
/// question the saved pointer names (or from the first); a set with nothing left opens
/// its last. `finished` answers for an evaluation question whether the work saved for it,
/// replayed in the given strategy, finishes it.
pub fn resume_in_set<F: Fn(&Exercise, EvaluationMode) -> Result<bool, ParseError>>(
    progress: &Progress,
    questions: &[Question],
    requested: Option<EvaluationMode>,
    finished: F,
) -> (result: Result<usize, ParseError>)
    requires
        questions.len() > 0,
        forall|e: &Exercise, mode: EvaluationMode| call_requires(finished, (e, mode)),
    ensures
        match result {
            Ok(k) => pointed(progress@, questions_view(questions@)) <= k < questions.len() && (
            forall|i: int|
                pointed(progress@, questions_view(questions@)) <= i < k ==> settled(
                    finished,
                    progress@,
                    requested,
                    #[trigger] questions@[i],
                    true,
                )) && (settled(finished, progress@, requested, questions@[k as int], false) || (k
                == questions.len() - 1 && settled(
                finished,
                progress@,
                requested,
                questions@[k as int],
                true,
            ))),
            Err(error) => exists|j: int|
                pointed(progress@, questions_view(questions@)) <= j < questions.len() && (forall|
                    i: int,
                |
                    pointed(progress@, questions_view(questions@)) <= i < j ==> settled(
                        finished,
                        progress@,
                        requested,
                        #[trigger] questions@[i],
                        true,
                    )) && refused(finished, progress@, requested, questions@[j], error),
        },
{
    let ghost qs = questions_view(questions@);
    let ghost from = pointed(progress@, qs);
    let remembered: usize = match pointer_position(progress, questions) {
        Some(k) => k,
        None => 0,
    };
    let mut i: usize = remembered;
    #[verifier::loop_isolation(true)]
    while i < questions.len()
        invariant
            remembered == from,
            from == pointed(progress@, questions_view(questions@)),
            from <= i <= questions.len(),
            questions.len() > 0,
            qs == questions_view(questions@),
            forall|e: &Exercise, mode: EvaluationMode| call_requires(finished, (e, mode)),
            forall|j: int|
                from <= j < i ==> settled(
                    finished,
                    progress@,
                    requested,
                    #[trigger] questions@[j],
                    true,
                ),
        decreases questions.len() - i,
    {
        let outcome: Result<bool, ParseError> = check_saved_work(
            &finished,
            progress,
            requested,
            &questions[i],
        );
        match outcome {
            Ok(done) => {
                if !done {
                    return Ok(i);
                }
            },
            Err(error) => {
                proof {
                    assert(from <= i < questions.len() && (forall|j: int|
                        from <= j < i ==> settled(
                            finished,
                            progress@,
                            requested,
                            #[trigger] questions@[j],
                            true,
                        )) && refused(finished, progress@, requested, questions@[i as int], error));
                }
                return Err(error);
            },
        }
        i += 1;
    }
    Ok(questions.len() - 1)
}

/// Whether the work saved for one question already finishes it.
fn check_saved_work<F: Fn(&Exercise, EvaluationMode) -> Result<bool, ParseError>>(
    finished: &F,
    progress: &Progress,
    requested: Option<EvaluationMode>,
    question: &Question,
) -> (result: Result<bool, ParseError>)
    requires
        forall|e: &Exercise, mode: EvaluationMode| call_requires(*finished, (e, mode)),
    ensures
        match result {
            Ok(done) => settled(*finished, progress@, requested, *question, done),
            Err(error) => refused(*finished, progress@, requested, *question, error),
        },
{
    reveal(settled);
    reveal(refused);
    let mode: EvaluationMode = starting_mode(requested, progress, question);
    match question {
        Question::Evaluation(exercise) => finished(exercise, mode),
        Question::Proof(proof_question) => proof_finished(proof_question, progress),
    }
}

/// The position of the question the saved pointer names, if it names one of these.
fn pointer_position(progress: &Progress, questions: &[Question]) -> (position: Option<usize>)
    ensures
        match position {
            Some(k) => k < questions.len() && k == pointed(progress@, questions_view(questions@))
                && spec_points_at(
                progress@,
                question_set(questions_view(questions@)[k as int]),
                question_name(questions_view(questions@)[k as int]),
            ),
            None => pointed(progress@, questions_view(questions@)) == 0 && forall|j: int|
                0 <= j < questions.len() ==> !spec_points_at(
                    progress@,
                    question_set(#[trigger] questions_view(questions@)[j]),
                    question_name(questions_view(questions@)[j]),
                ),
        },
{
    reveal(pointed);
    let ghost qs = questions_view(questions@);
    let mut k: usize = 0;
    while k < questions.len()
        invariant
            k <= questions.len(),
            qs == questions_view(questions@),
            forall|j: int|
                0 <= j < k ==> !spec_points_at(
                    progress@,
                    question_set(#[trigger] qs[j]),
                    question_name(qs[j]),
                ),
        decreases questions.len() - k,
    {
        assert(qs[k as int] == questions@[k as int]@);
        if progress.points_at(questions[k].set(), questions[k].name()) {
            proof {
                reveal(pointed);
                let c = choose|c: int|
                    0 <= c < qs.len() && spec_points_at(progress@, question_set(qs[c]), question_name(qs[c]))
                        && forall|j: int|
                        0 <= j < c ==> !spec_points_at(
                            progress@,
                            question_set(#[trigger] qs[j]),
                            question_name(qs[j]),
                        );
                assert(0 <= c < qs.len() && spec_points_at(progress@, question_set(qs[c]), question_name(qs[c]))
                    && forall|j: int|
                    0 <= j < c ==> !spec_points_at(
                        progress@,
                        question_set(#[trigger] qs[j]),
                        question_name(qs[j]),
                    )) by {
                    assert(0 <= k < qs.len() && spec_points_at(
                        progress@,
                        question_set(qs[k as int]),
                        question_name(qs[k as int]),
                    ) && forall|j: int|
                        0 <= j < k ==> !spec_points_at(
                            progress@,
                            question_set(#[trigger] qs[j]),
                            question_name(qs[j]),
                        ));
                }
                if c < k {
                    assert(!spec_points_at(progress@, question_set(qs[c]), question_name(qs[c])));
                }
                if k < c {
                    assert(!spec_points_at(progress@, question_set(qs[k as int]), question_name(qs[k as int])));
                }
            }
            return Some(k);
        }
        k += 1;
    }
    proof {
        reveal(pointed);
    }
    None
}

/// The saved question random practice may reopen: the random question restored from the
/// pointer when it names no set, else the question of these that the pointer names; either
/// way only one in the language being practised.
pub open spec fn spec_candidate(
    language: Language,
    p: ProgressV,
    qs: Seq<QuestionV>,
    restored: Option<ExerciseV>,
) -> Option<QuestionV> {
    if p.current_set.len() == 0 {
        match restored {
            Some(e) => if e.language == language {
                Some(QuestionV::Evaluation(e))
            } else {
                None
            },
            None => None,
        }
    } else if exists|k: int|
        0 <= k < qs.len() && spec_points_at(p, question_set(#[trigger] qs[k]), question_name(qs[k])) {
        let q = qs[pointed(p, qs)];
        if question_language(q) == language {
            Some(q)
        } else {
            None
        }
    } else {
        None
    }
}

pub open spec fn candidate_of(
    language: Language,
    p: ProgressV,
    qs: Seq<QuestionV>,
    restored: Option<Exercise>,
) -> Option<QuestionV> {
    spec_candidate(
        language,
        p,
        qs,
        match restored {
            Some(e) => Some(e@),
            None => None,
        },
    )
}

/// The saved question random practice may reopen; `restored` is the random question the
/// pointer's ID restores to, where it names one.
pub fn saved_candidate(
    language: Language,
    progress: &Progress,
    questions: &[Question],
    restored: Option<Exercise>,
) -> (candidate: Option<Question>)
    ensures
        match spec_candidate(
            language,
            progress@,
            questions_view(questions@),
            match restored {
                Some(e) => Some(e@),
                None => None,
            },
        ) {
            Some(q) => candidate matches Some(c) && c@ == q,
            None => candidate is None,
        },
{
    let ghost qs = questions_view(questions@);
    if progress.current_set().is_empty() {
        match restored {
            Some(exercise) => {
                if exercise.language == language {
                    Some(Question::Evaluation(exercise))
                } else {
                    None
                }
            },
            None => None,
        }
    } else {
        match pointer_position(progress, questions) {
            Some(k) => {
                assert(qs[k as int] == questions@[k as int]@);
                let question: &Question = &questions[k];
                if question.language() == language {
                    Some(question.duplicate())
                } else {
                    None
                }
            },
            None => None,
        }
    }
}

/// The saved question `q` is under way and not yet finished, as the calls that replay it
/// answered: a proof by its own saved commands, an evaluation by being a random question or
/// having attempts saved under its session's key, and by `finished` saying it is not.
pub open spec fn reopens<
    K: FnOnce(&Exercise, EvaluationMode) -> Result<String, ParseError>,
    F: FnOnce(&Exercise, EvaluationMode) -> Result<bool, ParseError>,
>(session_key: K, finished: F, p: ProgressV, q: Question) -> bool {
    match q {
        Question::Proof(pq) => match spec_question_proof(pq@) {
            Ok(start) => saved_commands(p, spec_progress_key(start)).len() > 0
                && spec_proof_finished(pq@, p) == Ok::<bool, Seq<char>>(false),
            Err(_) => false,
        },
        Question::Evaluation(e) => (is_random(e@.name) || exists|key: String|
            call_ensures(session_key, (&e, p.mode), Ok::<String, ParseError>(key))
                && saved_attempts(p, key@).len() > 0) && call_ensures(
            finished,
            (&e, p.mode),
            Ok::<bool, ParseError>(false),
        ),
    }
}

/// What `finished` answered for an evaluation question in strategy `mode`, as the outcome
/// of reopening it: unfinished work reopens, and a failure is passed on.
pub open spec fn finished_answer<F: FnOnce(&Exercise, EvaluationMode) -> Result<bool, ParseError>>(
    finished: F,
    e: Exercise,
    mode: EvaluationMode,
    outcome: Result<bool, ParseError>,
) -> bool {
    exists|answer: Result<bool, ParseError>|
        #[trigger] call_ensures(finished, (&e, mode), answer) && match answer {
            Ok(done) => outcome == Ok::<bool, ParseError>(!done),
            Err(err) => outcome == Err::<bool, ParseError>(err),
        }
}

/// What asking whether the saved question `q` is under way and unfinished answers, as the
/// calls that replay it answer. An evaluation question is under way when it is a random
/// one or has attempts saved under its session's key; a proof when commands are saved for
/// it. Work under way reopens unless it is finished; no work saved reopens nothing; a
/// failure to build the key, to replay, or to read the proof is passed on.
pub open spec fn reopen_outcome<
    K: FnOnce(&Exercise, EvaluationMode) -> Result<String, ParseError>,
    F: FnOnce(&Exercise, EvaluationMode) -> Result<bool, ParseError>,
>(session_key: K, finished: F, p: ProgressV, q: Question, outcome: Result<bool, ParseError>) -> bool {
    match q {
        Question::Evaluation(e) => if is_random(e@.name) {
            finished_answer(finished, e, p.mode, outcome)
        } else {
            exists|key: Result<String, ParseError>|
                #[trigger] call_ensures(session_key, (&e, p.mode), key) && match key {
                    Err(err) => outcome == Err::<bool, ParseError>(err),
                    Ok(k) => if saved_attempts(p, k@).len() > 0 {
                        finished_answer(finished, e, p.mode, outcome)
                    } else {
                        outcome == Ok::<bool, ParseError>(false)
                    },
                }
        },
        Question::Proof(pq) => match spec_question_proof(pq@) {
            Err(m) => outcome matches Err(err) && err.0@ == m,
            Ok(start) => if saved_commands(p, spec_progress_key(start)).len() > 0 {
                match spec_proof_finished(pq@, p) {
                    Ok(done) => outcome == Ok::<bool, ParseError>(!done),
                    Err(m) => outcome matches Err(err) && err.0@ == m,
                }
            } else {
                outcome == Ok::<bool, ParseError>(false)
            },
        },
    }
}

/// `restored` is what the saved pointer's ID restores to: when the pointer names no set,
/// what `restore` answered for the ID; otherwise nothing is restored.
pub open spec fn restored_as<R: FnOnce(&str) -> Result<Option<Exercise>, ParseError>>(
    restore: R,
    p: ProgressV,
    restored: Option<Exercise>,
) -> bool {
    if p.current_set.len() == 0 {
        exists|id: &str|
            id@ == p.current && #[trigger] call_ensures(
                restore,
                (id,),
                Ok::<Option<Exercise>, ParseError>(restored),
            )
    } else {
        restored is None
    }
}

/// The outcome of asking `draw` for a question in `language`: a generated question in that
/// language, or why none came.
pub open spec fn drew<G: FnOnce(Language) -> Result<Exercise, ParseError>>(
    draw: G,
    language: Language,
    result: Result<Question, ParseError>,
) -> bool {
    match result {
        Ok(q) => exists|e: Exercise|
            #[trigger] call_ensures(draw, (language,), Ok::<Exercise, ParseError>(e)) && q@
                == QuestionV::Evaluation(e@) && e@.language == language && is_random(e@.name),
        Err(err) => call_ensures(draw, (language,), Err::<Exercise, ParseError>(err)),
    }
}

/// What random practice opens without a named question: when the pointer names no set and
/// `restore` fails, that failure; otherwise the saved candidate in this language when
/// reopening it says its work is under way and unfinished, the failure of reopening it
/// when that fails, and in every other case what `draw` gives.
pub open spec fn spec_resumed<
    R: FnOnce(&str) -> Result<Option<Exercise>, ParseError>,
    K: FnOnce(&Exercise, EvaluationMode) -> Result<String, ParseError>,
    F: FnOnce(&Exercise, EvaluationMode) -> Result<bool, ParseError>,
    G: FnOnce(Language) -> Result<Exercise, ParseError>,
>(
    restore: R,
    session_key: K,
    finished: F,
    draw: G,
    language: Language,
    p: ProgressV,
    qs: Seq<QuestionV>,
    result: Result<Question, ParseError>,
) -> bool {
    ||| p.current_set.len() == 0 && match result {
        Err(err) => exists|id: &str|
            id@ == p.current && #[trigger] call_ensures(
                restore,
                (id,),
                Err::<Option<Exercise>, ParseError>(err),
            ),
        Ok(_) => false,
    }
    ||| exists|restored: Option<Exercise>|
        #[trigger] restored_as(restore, p, restored) && match candidate_of(language, p, qs, restored) {
            None => drew(draw, language, result),
            Some(v) => exists|c: Question|
                #[trigger] c@ == v && {
                    ||| reopen_outcome(session_key, finished, p, c, Ok::<bool, ParseError>(true))
                        && result == Ok::<Question, ParseError>(c)
                    ||| reopen_outcome(session_key, finished, p, c, Ok::<bool, ParseError>(false))
                        && drew(draw, language, result)
                    ||| match result {
                        Err(err) => reopen_outcome(session_key, finished, p, c, Err::<bool, ParseError>(err)),
                        Ok(_) => false,
                    }
                },
        }
}

/// The question a launch without a named question means in random practice: the saved
/// question when it is in this language, under way and unfinished, otherwise a new one from
/// `draw`. `restore` turns the pointer's ID into the random question it names, if it names
/// one; `session_key` gives the progress key of an evaluation question's session in a
/// strategy, `finished` whether the attempts saved for it finish it, and `draw` generates
/// a question in a language. A failure of any of these calls is passed on.
pub fn resume_or_generate<R, K, F, G>(
    language: Language,
    progress: &Progress,
    questions: &[Question],
    restore: R,
    session_key: K,
    finished: F,
    draw: G,
) -> (result: Result<Question, ParseError>) where
    R: FnOnce(&str) -> Result<Option<Exercise>, ParseError>,
    K: FnOnce(&Exercise, EvaluationMode) -> Result<String, ParseError>,
    F: FnOnce(&Exercise, EvaluationMode) -> Result<bool, ParseError>,
    G: FnOnce(Language) -> Result<Exercise, ParseError>,

    requires
        forall|id: &str| call_requires(restore, (id,)),
        forall|e: &Exercise, mode: EvaluationMode| call_requires(session_key, (e, mode)),
        forall|e: &Exercise, mode: EvaluationMode| call_requires(finished, (e, mode)),
        call_requires(draw, (language,)),
        generates(draw),
    ensures
        spec_resumed(
            restore,
            session_key,
            finished,
            draw,
            language,
            progress@,
            questions_view(questions@),
            result,
        ),
{
    let current_id: &str = progress.current();
    let restored: Option<Exercise> = if progress.current_set().is_empty() {
        let answer = restore(current_id);
        assert(call_ensures(restore, (current_id,), answer));
        assert(current_id@ == progress@.current && progress@.current_set.len() == 0);
        match answer {
            Ok(restored) => {
                assert(restored_as(restore, progress@, restored));
                restored
            },
            Err(err) => {
                assert(call_ensures(restore, (current_id,), Err::<Option<Exercise>, ParseError>(err)));
                let result = Err::<Question, ParseError>(err);
                assert(match result { Err(e) => e == err, Ok(_) => false });
                assert(spec_resumed(
                    restore,
                    session_key,
                    finished,
                    draw,
                    language,
                    progress@,
                    questions_view(questions@),
                    result,
                ));
                return result;
            },
        }
    } else {
        None
    };
    let ghost restored_view = restored;
    assert(restored_as(restore, progress@, restored_view));
    let ghost candidate_view = candidate_of(language, progress@, questions_view(questions@), restored_view);
    let candidate: Option<Question> = saved_candidate(language, progress, questions, restored);
    match candidate {
        Some(question) => {
            let ghost c = question;
            match reopened(session_key, finished, progress, &question) {
                Ok(true) => {
                    let result = Ok::<Question, ParseError>(question);
                    assert(reopen_outcome(session_key, finished, progress@, c, Ok::<bool, ParseError>(true)));
                    assert(candidate_view == Some(c@));
                    return result;
                },
                Ok(false) => {
                    let result = match draw(language) {
                        Ok(drawn) => Ok(Question::Evaluation(drawn)),
                        Err(err) => Err(err),
                    };
                    assert(drew(draw, language, result));
                    assert(reopen_outcome(session_key, finished, progress@, c, Ok::<bool, ParseError>(false)));
                    assert(candidate_view == Some(c@));
                    return result;
                },
                Err(err) => {
                    let result = Err::<Question, ParseError>(err);
                    assert(reopen_outcome(session_key, finished, progress@, c, Err::<bool, ParseError>(err)));
                    assert(candidate_view == Some(c@));
                    return result;
                },
            }
        },
        None => {
            let result = match draw(language) {
                Ok(drawn) => Ok(Question::Evaluation(drawn)),
                Err(err) => Err(err),
            };
            assert(drew(draw, language, result));
            assert(candidate_view is None);
            return result;
        },
    }
}

/// Whether this saved question is under way and unfinished, as `reopen_outcome` states it.
fn reopened<K, F>(session_key: K, finished: F, progress: &Progress, question: &Question) -> (result: Result<bool, ParseError>) where
    K: FnOnce(&Exercise, EvaluationMode) -> Result<String, ParseError>,
    F: FnOnce(&Exercise, EvaluationMode) -> Result<bool, ParseError>,

    requires
        forall|e: &Exercise, mode: EvaluationMode| call_requires(session_key, (e, mode)),
        forall|e: &Exercise, mode: EvaluationMode| call_requires(finished, (e, mode)),
    ensures
        reopen_outcome(session_key, finished, progress@, *question, result),
        result == Ok::<bool, ParseError>(true) ==> reopens(session_key, finished, progress@, *question),
{
    match question {
        Question::Evaluation(exercise) => {
            if has_prefix(exercise.name.as_str(), "random-") {
                let answer = finished(exercise, progress.mode());
                let result = match answer {
                    Ok(done) => Ok(!done),
                    Err(err) => Err(err),
                };
                assert(finished_answer(finished, *exercise, progress@.mode, result));
                return result;
            }
            let key = session_key(exercise, progress.mode());
            match key {
                Err(err) => {
                    let result = Err::<bool, ParseError>(err);
                    assert(call_ensures(session_key, (exercise, progress@.mode), key));
                    return result;
                },
                Ok(k) => {
                    let saved: Vec<RecordedAttempt> = progress.attempts(k.as_str());
                    proof {
                        assert(crate::progress::attempts_view(saved@).len() == saved@.len());
                    }
                    if saved.len() > 0 {
                        assert(call_ensures(session_key, (exercise, progress@.mode), Ok::<String, ParseError>(k))
                            && saved_attempts(progress@, k@).len() > 0);
                        let answer = finished(exercise, progress.mode());
                        let result = match answer {
                            Ok(done) => Ok(!done),
                            Err(err) => Err(err),
                        };
                        assert(finished_answer(finished, *exercise, progress@.mode, result));
                        assert(call_ensures(session_key, (exercise, progress@.mode), key));
                        return result;
                    } else {
                        assert(call_ensures(session_key, (exercise, progress@.mode), key));
                        return Ok(false);
                    }
                },
            }
        },
        Question::Proof(proof_question) => {
            let start: Proof = match proof_question.to_proof() {
                Ok(start) => start,
                Err(err) => {
                    return Err(err);
                },
            };
            let saved: Vec<String> = progress.commands(&start);
            proof {
                assert(crate::logic::deduction::texts_view(saved@).len() == saved@.len());
            }
            if saved.len() > 0 {
                match proof_finished(proof_question, progress) {
                    Ok(done) => Ok(!done),
                    Err(err) => Err(err),
                }
            } else {
                Ok(false)
            }
        },
    }
}

} // verus!
