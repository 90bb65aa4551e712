# Stepwise

A student proposes the next step of an evaluation or a proof; the rules check it and say
why. Three kinds of practice: Python expressions, propositional evaluation, and natural
deduction.

## Layout

- `src/` is the verified library (Verus). Every public function states its result in
  `ensures`; the laws the library keeps are public proof functions named `law_*`.
  - `text`: characters, trimming, splitting, decimal numerals.
  - `teaching`: languages, evaluation modes, feedback and errors.
  - `logic`: formulas, their tokenizer and parser, connective steps, natural deduction,
    BDD equivalence through `boolean_expression`, and the seeded grammar of random
    propositional questions over a `rand_chacha` stream.
  - `python`: operators, precedence, short circuit, the numeric decisions that need no
    float, exact integer arithmetic on `num-bigint`, the seeded grammar of random
    questions, and `python::reading`, which decides what of Python's grammar is taught.
  - `session`: what an evaluation session decides about a click or an answer, the spans
    of the shown text, and the choice of steps over a tree's shape: the next step, the
    steps a student may take, brackets as local precedence scopes, and short circuit
    waiting for its condition.
  - `exercises`, `progress`, `generate`, `launch`: question sets, the progress snapshot,
    seeded question names, and what a launch asks for.
  - `practice`: the course of questions, drafts, one proof in progress, where a launch
    resumes, and the transcript.
  - `terminal`: key map, words, scrolling and layout of the terminal front end.
- `app/` is the program around it: the command line, files, the terminal, the Python
  parser, Python's random draws, and the evaluation tree, whose values may be floats; it
  hands the library the tree's shape and applies the step the library picks.
- `tests/` run the library with the outside crates linked.
