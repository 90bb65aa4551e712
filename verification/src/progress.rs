//! The student's saved work: which question of which set is in hand, the strategy it was
//! last practised in, the accepted steps of every evaluation session and the commands of
//! every proof, each filed under its progress key. Reading and writing the snapshot is the
//! caller's; this is the snapshot itself.

use vstd::prelude::*;

use crate::logic::deduction::{spec_progress_key, texts_view, Proof};
use crate::teaching::{EvaluationMode, RecordedAttempt};
use crate::text::same_text;

verus! {

/// The snapshot format this build reads and writes.
pub const VERSION: u32 = 2;

/// One accepted step as the snapshot keeps it: the node and the typed answer.
pub open spec fn attempt_view(a: RecordedAttempt) -> (usize, Option<Seq<char>>) {
    (
        a.node_id,
        match a.input {
            Some(text) => Some(text@),
            None => None,
        },
    )
}

pub open spec fn attempts_view(attempts: Seq<RecordedAttempt>) -> Seq<(usize, Option<Seq<char>>)> {
    attempts.map_values(|a: RecordedAttempt| attempt_view(a))
}

/// The value filed under `key`: the first entry that carries it.
pub open spec fn lookup<V>(entries: Seq<(Seq<char>, V)>, key: Seq<char>) -> Option<V>
    decreases entries.len(),
{
    if entries.len() == 0 {
        None
    } else if entries[0].0 == key {
        Some(entries[0].1)
    } else {
        lookup(entries.drop_first(), key)
    }
}

/// The position of the first entry carrying `key`.
pub open spec fn position<V>(entries: Seq<(Seq<char>, V)>, key: Seq<char>) -> Option<int>
    decreases entries.len(),
{
    if entries.len() == 0 {
        None
    } else if entries[0].0 == key {
        Some(0)
    } else {
        match position(entries.drop_first(), key) {
            Some(k) => Some(k + 1),
            None => None,
        }
    }
}

/// File `value` under `key`: it replaces what the key held, or joins at the end.
pub open spec fn upsert<V>(entries: Seq<(Seq<char>, V)>, key: Seq<char>, value: V) -> Seq<
    (Seq<char>, V),
> {
    match position(entries, key) {
        Some(k) => entries.update(k, (key, value)),
        None => entries.push((key, value)),
    }
}

/// No key is filed twice.
pub open spec fn distinct_keys<V>(entries: Seq<(Seq<char>, V)>) -> bool {
    forall|i: int, j: int|
        0 <= i < j < entries.len() ==> #[trigger] entries[i].0 != #[trigger] entries[j].0
}

pub proof fn lemma_position<V>(entries: Seq<(Seq<char>, V)>, key: Seq<char>)
    ensures
        match position(entries, key) {
            Some(k) => 0 <= k < entries.len() && entries[k].0 == key && lookup(entries, key)
                == Some(entries[k].1) && forall|j: int| 0 <= j < k ==> #[trigger] entries[j].0 != key,
            None => lookup(entries, key) is None && forall|j: int|
                0 <= j < entries.len() ==> #[trigger] entries[j].0 != key,
        },
    decreases entries.len(),
{
    if entries.len() > 0 && entries[0].0 != key {
        let rest = entries.drop_first();
        lemma_position(rest, key);
        assert forall|j: int| 1 <= j < entries.len() implies entries[j] == rest[j - 1] by {}
        match position(rest, key) {
            Some(k) => {
                assert forall|j: int| 0 <= j < k + 1 implies #[trigger] entries[j].0 != key by {
                    if j > 0 {
                        assert(entries[j] == rest[j - 1]);
                    }
                }
            },
            None => {
                assert forall|j: int| 0 <= j < entries.len() implies #[trigger] entries[j].0 != key by {
                    if j > 0 {
                        assert(entries[j] == rest[j - 1]);
                    }
                }
            },
        }
    }
}

/// What a read gives back of a write: the key filed holds the value filed, and every
/// other key holds what it held.
pub proof fn lemma_upsert_lookup<V>(entries: Seq<(Seq<char>, V)>, key: Seq<char>, value: V, other: Seq<char>)
    ensures
        lookup(upsert(entries, key, value), key) == Some(value),
        other != key ==> lookup(upsert(entries, key, value), other) == lookup(entries, other),
    decreases entries.len(),
{
    lemma_position(entries, key);
    let after = upsert(entries, key, value);
    if entries.len() == 0 {
        assert(after[0].0 == key);
        assert(after.drop_first().len() == 0);
        if other != key {
            assert(lookup(after, other) == lookup(after.drop_first(), other));
        }
    } else if entries[0].0 == key {
        assert(after[0] == (key, value));
        assert(after.drop_first() =~= entries.drop_first());
        if other != key {
            assert(lookup(after, other) == lookup(after.drop_first(), other));
            assert(lookup(entries, other) == lookup(entries.drop_first(), other));
        }
    } else {
        let rest = entries.drop_first();
        lemma_upsert_lookup(rest, key, value, other);
        lemma_position(rest, key);
        assert(after.drop_first() =~= upsert(rest, key, value));
        assert(after[0] == entries[0]);
    }
}

pub proof fn lemma_upsert_distinct<V>(entries: Seq<(Seq<char>, V)>, key: Seq<char>, value: V)
    requires
        distinct_keys(entries),
    ensures
        distinct_keys(upsert(entries, key, value)),
{
    lemma_position(entries, key);
    let after = upsert(entries, key, value);
    assert forall|i: int, j: int| 0 <= i < j < after.len() implies #[trigger] after[i].0
        != #[trigger] after[j].0 by {
        match position(entries, key) {
            Some(k) => {
                assert(after[i].0 == entries[i].0);
                assert(after[j].0 == entries[j].0);
            },
            None => {
                if j == entries.len() {
                    assert(entries[i].0 != key);
                } else {
                    assert(after[i] == entries[i]);
                    assert(after[j] == entries[j]);
                }
            },
        }
    }
}

/// Every entry filed in order, a later one replacing an earlier one under the same key.
pub open spec fn upsert_all<V>(entries: Seq<(Seq<char>, V)>, filed: Seq<(Seq<char>, V)>) -> Seq<(Seq<char>, V)>
    decreases filed.len(),
{
    if filed.len() == 0 {
        entries
    } else {
        upsert(upsert_all(entries, filed.drop_last()), filed.last().0, filed.last().1)
    }
}

pub struct ProgressV {
    pub version: u32,
    pub current_set: Seq<char>,
    pub current: Seq<char>,
    pub mode: EvaluationMode,
    pub sessions: Seq<(Seq<char>, Seq<(usize, Option<Seq<char>>)>)>,
    pub proofs: Seq<(Seq<char>, Seq<Seq<char>>)>,
}

pub open spec fn session_entries(entries: Seq<(String, Vec<RecordedAttempt>)>) -> Seq<
    (Seq<char>, Seq<(usize, Option<Seq<char>>)>),
> {
    entries.map_values(|e: (String, Vec<RecordedAttempt>)| (e.0@, attempts_view(e.1@)))
}

pub open spec fn proof_entries(entries: Seq<(String, Vec<String>)>) -> Seq<(Seq<char>, Seq<Seq<char>>)> {
    entries.map_values(|e: (String, Vec<String>)| (e.0@, texts_view(e.1@)))
}

/// The snapshot: the pointer to the question in hand (its set, empty for a question that
/// belongs to none, and its ID), the strategy last used, and the work filed per key.
#[derive(Clone, Debug)]
pub struct Progress {
    version: u32,
    current_set: String,
    current: String,
    mode: EvaluationMode,
    sessions: Vec<(String, Vec<RecordedAttempt>)>,
    proofs: Vec<(String, Vec<String>)>,
}

impl View for Progress {
    type V = ProgressV;

    closed spec fn view(&self) -> ProgressV {
        ProgressV {
            version: self.version,
            current_set: self.current_set@,
            current: self.current@,
            mode: self.mode,
            sessions: session_entries(self.sessions@),
            proofs: proof_entries(self.proofs@),
        }
    }
}

/// The attempts saved under `key`, none where nothing was saved.
pub open spec fn saved_attempts(p: ProgressV, key: Seq<char>) -> Seq<(usize, Option<Seq<char>>)> {
    match lookup(p.sessions, key) {
        Some(attempts) => attempts,
        None => Seq::empty(),
    }
}

/// The proof commands saved under `key`, none where nothing was saved.
pub open spec fn saved_commands(p: ProgressV, key: Seq<char>) -> Seq<Seq<char>> {
    match lookup(p.proofs, key) {
        Some(commands) => commands,
        None => Seq::empty(),
    }
}

pub open spec fn spec_points_at(p: ProgressV, set: Seq<char>, question: Seq<char>) -> bool {
    p.current_set == set && p.current == question
}

/// The snapshot after recording an evaluation session's attempts under its key.
pub open spec fn spec_record(
    p: ProgressV,
    set: Seq<char>,
    question: Seq<char>,
    mode: EvaluationMode,
    key: Seq<char>,
    attempts: Seq<(usize, Option<Seq<char>>)>,
) -> ProgressV {
    ProgressV {
        current_set: set,
        current: question,
        mode,
        sessions: upsert(p.sessions, key, attempts),
        ..p
    }
}

/// The snapshot after recording a proof's commands under its key.
pub open spec fn spec_record_proof(
    p: ProgressV,
    set: Seq<char>,
    question: Seq<char>,
    key: Seq<char>,
    commands: Seq<Seq<char>>,
) -> ProgressV {
    ProgressV {
        current_set: set,
        current: question,
        proofs: upsert(p.proofs, key, commands),
        ..p
    }
}

pub fn copy_attempts(attempts: &[RecordedAttempt]) -> (r: Vec<RecordedAttempt>)
    ensures
        attempts_view(r@) == attempts_view(attempts@),
{
    let mut r: Vec<RecordedAttempt> = Vec::new();
    let mut i: usize = 0;
    while i < attempts.len()
        invariant
            i <= attempts.len(),
            attempts_view(r@) == attempts_view(attempts@).take(i as int),
        decreases attempts.len() - i,
    {
        let ghost before = r@;
        let copy = RecordedAttempt {
            node_id: attempts[i].node_id,
            input: match &attempts[i].input {
                Some(text) => Some(text.clone()),
                None => None,
            },
        };
        r.push(copy);
        proof {
            assert(attempts_view(r@) =~= attempts_view(before).push(attempt_view(attempts@[i as int])));
            assert(attempts_view(attempts@).take(i + 1) =~= attempts_view(attempts@).take(i as int).push(
                attempts_view(attempts@)[i as int],
            ));
        }
        i += 1;
    }
    assert(attempts_view(attempts@).take(attempts.len() as int) =~= attempts_view(attempts@));
    r
}

pub fn copy_commands(commands: &[String]) -> (r: Vec<String>)
    ensures
        texts_view(r@) == texts_view(commands@),
{
    let mut r: Vec<String> = Vec::new();
    let mut i: usize = 0;
    while i < commands.len()
        invariant
            i <= commands.len(),
            texts_view(r@) == texts_view(commands@).take(i as int),
        decreases commands.len() - i,
    {
        let ghost before = r@;
        r.push(commands[i].clone());
        proof {
            assert(texts_view(r@) =~= texts_view(before).push(commands@[i as int]@));
            assert(texts_view(commands@).take(i + 1) =~= texts_view(commands@).take(i as int).push(
                texts_view(commands@)[i as int],
            ));
        }
        i += 1;
    }
    assert(texts_view(commands@).take(commands.len() as int) =~= texts_view(commands@));
    r
}

fn find_session(entries: &Vec<(String, Vec<RecordedAttempt>)>, key: &str) -> (k: Option<usize>)
    ensures
        k matches Some(i) ==> position(session_entries(entries@), key@) == Some(i as int),
        k is None ==> position(session_entries(entries@), key@) is None,
{
    let ghost view = session_entries(entries@);
    proof {
        lemma_position(view, key@);
    }
    let mut i: usize = 0;
    while i < entries.len()
        invariant
            i <= entries.len(),
            view == session_entries(entries@),
            forall|j: int| 0 <= j < i ==> #[trigger] view[j].0 != key@,
        decreases entries.len() - i,
    {
        assert(view[i as int].0 == entries@[i as int].0@);
        if same_text(entries[i].0.as_str(), key) {
            proof {
                lemma_position(view, key@);
                if position(view, key@) != Some(i as int) {
                    match position(view, key@) {
                        Some(p) => {
                            if p > i {
                                assert(view[i as int].0 != key@);
                            }
                        },
                        None => {
                            assert(view[i as int].0 != key@);
                        },
                    }
                }
            }
            return Some(i);
        }
        i += 1;
    }
    None
}

fn find_proof(entries: &Vec<(String, Vec<String>)>, key: &str) -> (k: Option<usize>)
    ensures
        k matches Some(i) ==> position(proof_entries(entries@), key@) == Some(i as int),
        k is None ==> position(proof_entries(entries@), key@) is None,
{
    let ghost view = proof_entries(entries@);
    proof {
        lemma_position(view, key@);
    }
    let mut i: usize = 0;
    while i < entries.len()
        invariant
            i <= entries.len(),
            view == proof_entries(entries@),
            forall|j: int| 0 <= j < i ==> #[trigger] view[j].0 != key@,
        decreases entries.len() - i,
    {
        assert(view[i as int].0 == entries@[i as int].0@);
        if same_text(entries[i].0.as_str(), key) {
            proof {
                lemma_position(view, key@);
                if position(view, key@) != Some(i as int) {
                    match position(view, key@) {
                        Some(p) => {
                            if p > i {
                                assert(view[i as int].0 != key@);
                            }
                        },
                        None => {
                            assert(view[i as int].0 != key@);
                        },
                    }
                }
            }
            return Some(i);
        }
        i += 1;
    }
    None
}

impl Progress {
    /// Well formed: no key is filed twice in either store.
    pub closed spec fn wf(&self) -> bool {
        &&& distinct_keys(self@.sessions)
        &&& distinct_keys(self@.proofs)
    }

    /// An empty snapshot: no question in hand, short circuit, no work saved.
    pub fn new() -> (p: Progress)
        ensures
            p.wf(),
            p@.version == VERSION,
            p@.current_set.len() == 0,
            p@.current.len() == 0,
            p@.mode == EvaluationMode::ShortCircuit,
            p@.sessions.len() == 0,
            p@.proofs.len() == 0,
    {
        let p = Progress {
            version: VERSION,
            current_set: String::new(),
            current: String::new(),
            mode: EvaluationMode::ShortCircuit,
            sessions: Vec::new(),
            proofs: Vec::new(),
        };
        assert(p@.sessions =~= Seq::empty());
        assert(p@.proofs =~= Seq::empty());
        p
    }

    pub fn version(&self) -> (version: u32)
        ensures
            version == self@.version,
    {
        self.version
    }

    /// A snapshot read back from storage: its pointer and strategy, and the work it filed,
    /// each entry filed in turn.
    pub fn from_parts(
        version: u32,
        current_set: String,
        current: String,
        mode: EvaluationMode,
        sessions: Vec<(String, Vec<RecordedAttempt>)>,
        proofs: Vec<(String, Vec<String>)>,
    ) -> (p: Progress)
        ensures
            p.wf(),
            p@.version == version,
            p@.current_set == current_set@,
            p@.current == current@,
            p@.mode == mode,
            p@.sessions == upsert_all(Seq::empty(), session_entries(sessions@)),
            p@.proofs == upsert_all(Seq::empty(), proof_entries(proofs@)),
    {
        let ghost set_view = current_set@;
        let ghost current_view = current@;
        let mut p = Progress {
            version,
            current_set,
            current,
            mode,
            sessions: Vec::new(),
            proofs: Vec::new(),
        };
        let ghost given = session_entries(sessions@);
        assert(p@.sessions =~= upsert_all(Seq::empty(), given.take(0)));
        let mut i: usize = 0;
        while i < sessions.len()
            invariant
                i <= sessions.len(),
                given == session_entries(sessions@),
                distinct_keys(p@.sessions),
                p@.sessions == upsert_all(Seq::empty(), given.take(i as int)),
                p.proofs@.len() == 0,
                p@.version == version,
                p@.mode == mode,
                p@.current_set == set_view,
                p@.current == current_view,
            decreases sessions.len() - i,
        {
            let ghost before = p@.sessions;
            let key: &str = sessions[i].0.as_str();
            let value: Vec<RecordedAttempt> = copy_attempts(sessions[i].1.as_slice());
            proof {
                lemma_position(before, key@);
            }
            match find_session(&p.sessions, key) {
                Some(k) => {
                    p.sessions.set(k, (String::from_str(key), value));
                },
                None => {
                    p.sessions.push((String::from_str(key), value));
                },
            }
            proof {
                lemma_upsert_distinct(before, key@, attempts_view(sessions@[i as int].1@));
                assert(given[i as int] == (key@, attempts_view(sessions@[i as int].1@)));
                assert(given.take(i + 1).drop_last() =~= given.take(i as int));
                assert(p@.sessions =~= upsert(before, key@, attempts_view(sessions@[i as int].1@)));
            }
            i += 1;
        }
        assert(given.take(sessions.len() as int) =~= given);
        let ghost filed = proof_entries(proofs@);
        assert(p@.proofs =~= upsert_all(Seq::empty(), filed.take(0)));
        let mut j: usize = 0;
        while j < proofs.len()
            invariant
                j <= proofs.len(),
                filed == proof_entries(proofs@),
                distinct_keys(p@.proofs),
                distinct_keys(p@.sessions),
                p@.proofs == upsert_all(Seq::empty(), filed.take(j as int)),
                p@.sessions == upsert_all(Seq::empty(), given),
                p@.version == version,
                p@.mode == mode,
                p@.current_set == set_view,
                p@.current == current_view,
            decreases proofs.len() - j,
        {
            let ghost before = p@.proofs;
            let key: &str = proofs[j].0.as_str();
            let value: Vec<String> = copy_commands(proofs[j].1.as_slice());
            proof {
                lemma_position(before, key@);
            }
            match find_proof(&p.proofs, key) {
                Some(k) => {
                    p.proofs.set(k, (String::from_str(key), value));
                },
                None => {
                    p.proofs.push((String::from_str(key), value));
                },
            }
            proof {
                lemma_upsert_distinct(before, key@, texts_view(proofs@[j as int].1@));
                assert(filed[j as int] == (key@, texts_view(proofs@[j as int].1@)));
                assert(filed.take(j + 1).drop_last() =~= filed.take(j as int));
                assert(p@.proofs =~= upsert(before, key@, texts_view(proofs@[j as int].1@)));
            }
            j += 1;
        }
        assert(filed.take(proofs.len() as int) =~= filed);
        p
    }

    /// The set of the question in hand; empty for a question that belongs to none.
    pub fn current_set(&self) -> (set: &str)
        ensures
            set@ == self@.current_set,
    {
        self.current_set.as_str()
    }

    /// The ID of the question in hand.
    pub fn current(&self) -> (question: &str)
        ensures
            question@ == self@.current,
    {
        self.current.as_str()
    }

    /// The strategy last practised.
    pub fn mode(&self) -> (mode: EvaluationMode)
        ensures
            mode == self@.mode,
    {
        self.mode
    }

    /// The evaluation work filed per key, for whoever writes the snapshot out.
    pub fn sessions(&self) -> (entries: &[(String, Vec<RecordedAttempt>)])
        ensures
            session_entries(entries@) == self@.sessions,
    {
        self.sessions.as_slice()
    }

    /// The proof work filed per key, for whoever writes the snapshot out.
    pub fn proofs(&self) -> (entries: &[(String, Vec<String>)])
        ensures
            proof_entries(entries@) == self@.proofs,
    {
        self.proofs.as_slice()
    }

    /// True when the saved pointer names exactly this question of exactly this set.
    pub fn points_at(&self, set: &str, question: &str) -> (r: bool)
        ensures
            r == spec_points_at(self@, set@, question@),
    {
        same_text(self.current_set.as_str(), set) && same_text(self.current.as_str(), question)
    }

    /// Point at this question and file its session's attempts under the session's key.
    pub fn record(
        &mut self,
        set: &str,
        question: &str,
        mode: EvaluationMode,
        key: &str,
        attempts: &[RecordedAttempt],
    )
        requires
            old(self).wf(),
        ensures
            final(self).wf(),
            final(self)@ == spec_record(old(self)@, set@, question@, mode, key@, attempts_view(attempts@)),
    {
        let ghost before = self@;
        self.current_set = String::from_str(set);
        self.current = String::from_str(question);
        self.mode = mode;
        let value: Vec<RecordedAttempt> = copy_attempts(attempts);
        let ghost sessions = self.sessions@;
        proof {
            lemma_position(session_entries(sessions), key@);
        }
        match find_session(&self.sessions, key) {
            Some(k) => {
                self.sessions.set(k, (String::from_str(key), value));
                assert(session_entries(self.sessions@) =~= session_entries(sessions).update(
                    k as int,
                    (key@, attempts_view(attempts@)),
                ));
            },
            None => {
                self.sessions.push((String::from_str(key), value));
                assert(session_entries(self.sessions@) =~= session_entries(sessions).push(
                    (key@, attempts_view(attempts@)),
                ));
            },
        }
        proof {
            lemma_upsert_distinct(before.sessions, key@, attempts_view(attempts@));
        }
        assert(self@ == spec_record(before, set@, question@, mode, key@, attempts_view(attempts@)));
    }

    /// The attempts filed under a session's key; none where nothing was saved.
    pub fn attempts(&self, key: &str) -> (attempts: Vec<RecordedAttempt>)
        ensures
            attempts_view(attempts@) == saved_attempts(self@, key@),
    {
        proof {
            lemma_position(self@.sessions, key@);
        }
        match find_session(&self.sessions, key) {
            Some(k) => copy_attempts(self.sessions[k].1.as_slice()),
            None => {
                let none: Vec<RecordedAttempt> = Vec::new();
                assert(attempts_view(none@) =~= Seq::empty());
                none
            },
        }
    }

    /// The commands saved for a proof of exactly these premises and this goal.
    pub fn commands(&self, proof: &Proof) -> (commands: Vec<String>)
        ensures
            texts_view(commands@) == saved_commands(self@, spec_progress_key(proof@)),
    {
        let key: String = proof.progress_key();
        proof {
            lemma_position(self@.proofs, key@);
        }
        match find_proof(&self.proofs, key.as_str()) {
            Some(k) => copy_commands(self.proofs[k].1.as_slice()),
            None => {
                let none: Vec<String> = Vec::new();
                assert(texts_view(none@) =~= Seq::empty());
                none
            },
        }
    }

    /// Point at this proof question and file the proof's commands under its key.
    pub fn record_proof(&mut self, set: &str, question: &str, proof: &Proof)
        requires
            old(self).wf(),
        ensures
            final(self).wf(),
            final(self)@ == spec_record_proof(
                old(self)@,
                set@,
                question@,
                spec_progress_key(proof@),
                proof@.commands,
            ),
    {
        let ghost before = self@;
        self.current_set = String::from_str(set);
        self.current = String::from_str(question);
        let key: String = proof.progress_key();
        let value: Vec<String> = copy_commands(proof.commands());
        let ghost proofs = self.proofs@;
        proof {
            lemma_position(proof_entries(proofs), key@);
        }
        match find_proof(&self.proofs, key.as_str()) {
            Some(k) => {
                self.proofs.set(k, (key, value));
                assert(proof_entries(self.proofs@) =~= proof_entries(proofs).update(
                    k as int,
                    (spec_progress_key(proof@), proof@.commands),
                ));
            },
            None => {
                self.proofs.push((key, value));
                assert(proof_entries(self.proofs@) =~= proof_entries(proofs).push(
                    (spec_progress_key(proof@), proof@.commands),
                ));
            },
        }
        proof {
            lemma_upsert_distinct(before.proofs, spec_progress_key(proof@), proof@.commands);
        }
        assert(self@ == spec_record_proof(
            before,
            set@,
            question@,
            spec_progress_key(proof@),
            proof@.commands,
        ));
    }
}

/// What a read gives back of a write: once a session's attempts are recorded, the
/// snapshot points at that question and gives back exactly those attempts for that key,
/// while every other key keeps what it had.
pub proof fn law_recorded_attempts_read_back(
    p: ProgressV,
    set: Seq<char>,
    question: Seq<char>,
    mode: EvaluationMode,
    key: Seq<char>,
    attempts: Seq<(usize, Option<Seq<char>>)>,
    other: Seq<char>,
)
    ensures
        spec_points_at(spec_record(p, set, question, mode, key, attempts), set, question),
        saved_attempts(spec_record(p, set, question, mode, key, attempts), key) == attempts,
        other != key ==> saved_attempts(spec_record(p, set, question, mode, key, attempts), other)
            == saved_attempts(p, other),
        saved_commands(spec_record(p, set, question, mode, key, attempts), other)
            == saved_commands(p, other),
{
    lemma_upsert_lookup(p.sessions, key, attempts, other);
}

/// The same for a proof: once its commands are recorded, they are what the snapshot gives
/// back for that proof, and evaluation work is untouched.
pub proof fn law_recorded_commands_read_back(
    p: ProgressV,
    set: Seq<char>,
    question: Seq<char>,
    key: Seq<char>,
    commands: Seq<Seq<char>>,
    other: Seq<char>,
)
    ensures
        spec_points_at(spec_record_proof(p, set, question, key, commands), set, question),
        saved_commands(spec_record_proof(p, set, question, key, commands), key) == commands,
        other != key ==> saved_commands(spec_record_proof(p, set, question, key, commands), other)
            == saved_commands(p, other),
        saved_attempts(spec_record_proof(p, set, question, key, commands), other) == saved_attempts(
            p,
            other,
        ),
{
    lemma_upsert_lookup(p.proofs, key, commands, other);
}

impl Default for Progress {
    fn default() -> (p: Progress)
        ensures
            p.wf(),
            p@.version == VERSION,
            p@.current_set.len() == 0,
            p@.current.len() == 0,
            p@.mode == EvaluationMode::ShortCircuit,
            p@.sessions.len() == 0,
            p@.proofs.len() == 0,
    {
        Progress::new()
    }
}

} // verus!
