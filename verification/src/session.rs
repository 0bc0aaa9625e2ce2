//! Per-quiz mutable session state and its state machine.
//!
//! Each quiz has a current-question pointer — `None` meaning "not
//! started or finished", `Some(i)` meaning question `i` is live — and
//! a score table scoped to the running cycle. The table is cleared
//! both when a new cycle starts and when a cycle ends, so an idle quiz
//! always shows an empty leaderboard.

use vstd::prelude::*;

use crate::QuizError;
use crate::catalog::{Question, QuestionView, Quiz, QuizView};
use crate::scores::{
    ScoreEntryView, ScoreTable, find_score, points_of, recorded, unique_players,
};

verus! {

/// The mutable per-quiz runtime state of one cycle.
pub struct Session {
    /// The live question's index, or `None` when the quiz is not
    /// started or finished.
    pub current_question: Option<usize>,
    /// The score table of the current cycle.
    pub scores: ScoreTable,
}

/// The mathematical value of a [`Session`].
pub struct SessionView {
    pub current_question: Option<int>,
    pub scores: Seq<ScoreEntryView>,
}

impl View for Session {
    type V = SessionView;

    open spec fn view(&self) -> SessionView {
        SessionView {
            current_question: match self.current_question {
                Some(i) => Some(i as int),
                None => None,
            },
            scores: self.scores@,
        }
    }
}

/// One quiz of the catalog together with its session.
pub struct QuizSlot {
    pub quiz: Quiz,
    pub session: Session,
}

/// The mathematical value of a [`QuizSlot`].
pub struct QuizSlotView {
    pub quiz: QuizView,
    pub session: SessionView,
}

impl View for QuizSlot {
    type V = QuizSlotView;

    open spec fn view(&self) -> QuizSlotView {
        QuizSlotView { quiz: self.quiz@, session: self.session@ }
    }
}

impl DeepView for QuizSlot {
    type V = QuizSlotView;

    open spec fn deep_view(&self) -> QuizSlotView {
        self.view()
    }
}

/// A session that has never been advanced: not started, no scores.
pub open spec fn fresh_session() -> SessionView {
    SessionView { current_question: None, scores: Seq::empty() }
}

/// A just-loaded slot for quiz `q`.
pub open spec fn fresh_slot(q: QuizView) -> QuizSlotView {
    QuizSlotView { quiz: q, session: fresh_session() }
}

/// The state machine of one quiz: the question pointer after one
/// `advance` of a quiz with `n` questions.
pub open spec fn step(cur: Option<int>, n: int) -> Option<int> {
    match cur {
        None => if n > 0 {
            Some(0int)
        } else {
            None
        },
        Some(i) => if i + 1 < n {
            Some(i + 1)
        } else {
            None
        },
    }
}

/// A slot after one `advance`: the pointer steps, and the score table
/// is cleared whenever the quiz comes to rest (a cycle ended, or a
/// quiz without questions was started).
pub open spec fn advanced_slot(sl: QuizSlotView) -> QuizSlotView {
    let next = step(sl.session.current_question, sl.quiz.questions.len() as int);
    QuizSlotView {
        quiz: sl.quiz,
        session: SessionView {
            current_question: next,
            scores: if next is None {
                Seq::empty()
            } else {
                sl.session.scores
            },
        },
    }
}

/// What one `advance` reveals: the question now live, or `None` when
/// the cycle ended (or the quiz has no questions).
pub open spec fn advanced_question(sl: QuizSlotView) -> Option<QuestionView> {
    match step(sl.session.current_question, sl.quiz.questions.len() as int) {
        Some(j) => Some(sl.quiz.questions[j]),
        None => None,
    }
}

/// A slot after one answer by `p` is scored.
pub open spec fn recorded_slot(sl: QuizSlotView, p: Seq<char>, correct: bool) -> QuizSlotView {
    QuizSlotView {
        quiz: sl.quiz,
        session: SessionView {
            current_question: sl.session.current_question,
            scores: recorded(sl.session.scores, p, correct),
        },
    }
}

/// Internal consistency of one slot: the pointer is in bounds, each
/// player scores at most once per table, and an idle quiz has an
/// empty table.
pub open spec fn slot_wf(sl: QuizSlotView) -> bool {
    &&& (sl.session.current_question matches Some(i) ==> 0 <= i < sl.quiz.questions.len())
    &&& unique_players(sl.session.scores)
    &&& (sl.session.current_question is None ==> sl.session.scores == Seq::<
        ScoreEntryView,
    >::empty())
}

/// The index of the slot holding quiz `id`, if any.
pub open spec fn slot_index(s: Seq<QuizSlotView>, id: Seq<char>) -> Option<int>
    decreases s.len(),
{
    if s.len() == 0 {
        None
    } else if s[0].quiz.id == id {
        Some(0int)
    } else {
        match slot_index(s.drop_first(), id) {
            Some(i) => Some(i + 1),
            None => None,
        }
    }
}

/// A found slot is in bounds, holds the quiz asked for, and is the
/// first such slot; a missing one means no slot holds the quiz.
pub proof fn lemma_slot_index_props(s: Seq<QuizSlotView>, id: Seq<char>)
    ensures
        slot_index(s, id) matches Some(i) ==> 0 <= i < s.len() && s[i].quiz.id == id && (forall|
            j: int,
        |
            0 <= j < i ==> s[j].quiz.id != id),
        slot_index(s, id) is None ==> forall|j: int| 0 <= j < s.len() ==> s[j].quiz.id != id,
    decreases s.len(),
{
    if s.len() > 0 && s[0].quiz.id != id {
        lemma_slot_index_props(s.drop_first(), id);
        match slot_index(s.drop_first(), id) {
            Some(i) => {
                assert(s.drop_first()[i] == s[i + 1]);
                assert forall|j: int| 0 <= j < i + 1 implies s[j].quiz.id != id by {
                    if j > 0 {
                        assert(s.drop_first()[j - 1] == s[j]);
                    }
                }
            },
            None => {
                assert forall|j: int| 0 <= j < s.len() implies s[j].quiz.id != id by {
                    if j > 0 {
                        assert(s.drop_first()[j - 1] == s[j]);
                    }
                }
            },
        }
    }
}

proof fn lemma_slot_index_hit(s: Seq<QuizSlotView>, id: Seq<char>, i: int)
    requires
        0 <= i < s.len(),
        forall|j: int| 0 <= j < i ==> s[j].quiz.id != id,
        s[i].quiz.id == id,
    ensures
        slot_index(s, id) == Some(i),
    decreases i,
{
    if i > 0 {
        lemma_slot_index_hit(s.drop_first(), id, i - 1);
    }
}

proof fn lemma_slot_index_miss(s: Seq<QuizSlotView>, id: Seq<char>)
    requires
        forall|j: int| 0 <= j < s.len() ==> s[j].quiz.id != id,
    ensures
        slot_index(s, id) is None,
    decreases s.len(),
{
    if s.len() > 0 {
        lemma_slot_index_miss(s.drop_first(), id);
    }
}

/// `slot_index` looks only at quiz identifiers: two stores whose
/// slots carry the same identifiers locate every quiz at the same
/// index.
pub proof fn lemma_slot_index_same_ids(s1: Seq<QuizSlotView>, s2: Seq<QuizSlotView>, id: Seq<char>)
    requires
        s1.len() == s2.len(),
        forall|i: int| 0 <= i < s1.len() ==> s1[i].quiz.id == s2[i].quiz.id,
    ensures
        slot_index(s1, id) == slot_index(s2, id),
    decreases s1.len(),
{
    if s1.len() > 0 {
        assert(s1[0].quiz.id == s2[0].quiz.id);
        assert forall|i: int| 0 <= i < s1.drop_first().len() implies s1.drop_first()[i].quiz.id
            == s2.drop_first()[i].quiz.id by {
            assert(s1.drop_first()[i] == s1[i + 1]);
            assert(s2.drop_first()[i] == s2[i + 1]);
        }
        lemma_slot_index_same_ids(s1.drop_first(), s2.drop_first(), id);
    }
}

/// The catalog after loading one more quiz: an existing slot with the
/// same identifier is replaced by a fresh one, otherwise the quiz is
/// appended. Loading twice under one identifier keeps the later quiz.
pub open spec fn upsert_quiz(s: Seq<QuizSlotView>, q: QuizView) -> Seq<QuizSlotView>
    decreases s.len(),
{
    if s.len() == 0 {
        seq![fresh_slot(q)]
    } else if s[0].quiz.id == q.id {
        seq![fresh_slot(q)] + s.drop_first()
    } else {
        seq![s[0]] + upsert_quiz(s.drop_first(), q)
    }
}

/// The slots of a whole catalog, loaded in order.
pub open spec fn loaded(qs: Seq<QuizView>) -> Seq<QuizSlotView>
    decreases qs.len(),
{
    if qs.len() == 0 {
        Seq::empty()
    } else {
        upsert_quiz(loaded(qs.drop_last()), qs.last())
    }
}

proof fn lemma_upsert_hit(s: Seq<QuizSlotView>, q: QuizView, i: int)
    requires
        0 <= i < s.len(),
        forall|j: int| 0 <= j < i ==> s[j].quiz.id != q.id,
        s[i].quiz.id == q.id,
    ensures
        upsert_quiz(s, q) == s.update(i, fresh_slot(q)),
    decreases i,
{
    if i == 0 {
        assert(upsert_quiz(s, q) =~= s.update(0, fresh_slot(q)));
    } else {
        lemma_upsert_hit(s.drop_first(), q, i - 1);
        assert(upsert_quiz(s, q) =~= s.update(i, fresh_slot(q)));
    }
}

proof fn lemma_upsert_miss(s: Seq<QuizSlotView>, q: QuizView)
    requires
        forall|j: int| 0 <= j < s.len() ==> s[j].quiz.id != q.id,
    ensures
        upsert_quiz(s, q) == s.push(fresh_slot(q)),
    decreases s.len(),
{
    if s.len() == 0 {
        assert(upsert_quiz(s, q) =~= s.push(fresh_slot(q)));
    } else {
        lemma_upsert_miss(s.drop_first(), q);
        assert(upsert_quiz(s, q) =~= s.push(fresh_slot(q)));
    }
}

/// The per-quiz state of every quiz, guarded by the caller's
/// reader/writer exclusion and mutated only through these methods.
pub struct SessionStore {
    pub slots: Vec<QuizSlot>,
}

impl View for SessionStore {
    type V = Seq<QuizSlotView>;

    open spec fn view(&self) -> Seq<QuizSlotView> {
        self.slots.deep_view()
    }
}

impl SessionStore {
    /// Every slot is internally consistent and no two slots share a
    /// quiz identifier.
    pub open spec fn wf(self) -> bool {
        &&& (forall|i: int| 0 <= i < self@.len() ==> slot_wf(#[trigger] self@[i]))
        &&& (forall|i: int, j: int|
            0 <= i < j < self@.len() ==> self@[i].quiz.id != self@[j].quiz.id)
    }

    /// An empty store.
    pub fn new() -> (store: SessionStore)
        ensures
            store@ == Seq::<QuizSlotView>::empty(),
            store.wf(),
    {
        let store = SessionStore { slots: Vec::new() };
        proof {
            assert(store@ =~= Seq::<QuizSlotView>::empty());
        }
        store
    }

    /// Load one quiz: replace the slot of a quiz with the same
    /// identifier by a fresh one, or append a new slot. The new slot's
    /// session is not started and has no scores.
    pub fn add_quiz(&mut self, quiz: Quiz)
        requires
            old(self).wf(),
        ensures
            final(self)@ == upsert_quiz(old(self)@, quiz@),
            final(self).wf(),
    {
        let n = self.slots.len();
        let mut i: usize = 0;
        while i < n
            invariant
                self == old(self),
                old(self).wf(),
                n == self.slots.len(),
                0 <= i <= n,
                forall|j: int| 0 <= j < i ==> self@[j].quiz.id != quiz@.id,
            decreases n - i,
        {
            if self.slots[i].quiz.id == quiz.id {
                let slot = QuizSlot {
                    quiz,
                    session: Session { current_question: None, scores: ScoreTable::new() },
                };
                let ghost before = self@;
                self.slots.remove(i);
                self.slots.insert(i, slot);
                proof {
                    lemma_upsert_hit(before, quiz@, i as int);
                    assert(self@ =~= before.update(i as int, fresh_slot(quiz@)));
                }
                return ;
            }
            i += 1;
        }
        let ghost before = self@;
        self.slots.push(QuizSlot {
            quiz,
            session: Session { current_question: None, scores: ScoreTable::new() },
        });
        proof {
            lemma_upsert_miss(before, quiz@);
            assert(self@ =~= before.push(fresh_slot(quiz@)));
        }
    }

    /// Load a whole catalog, in order, into a fresh store.
    pub fn load(quizzes: Vec<Quiz>) -> (store: SessionStore)
        ensures
            store@ == loaded(quizzes.deep_view()),
            store.wf(),
    {
        let mut store = SessionStore::new();
        let n = quizzes.len();
        let mut i: usize = 0;
        proof {
            assert(quizzes.deep_view().take(0) =~= Seq::<QuizView>::empty());
        }
        while i < n
            invariant
                n == quizzes.len(),
                0 <= i <= n,
                store@ == loaded(quizzes.deep_view().take(i as int)),
                store.wf(),
            decreases n - i,
        {
            store.add_quiz(quizzes[i].clone());
            proof {
                let qs = quizzes.deep_view();
                assert(qs.take(i + 1).drop_last() =~= qs.take(i as int));
                assert(qs.take(i + 1).last() == qs[i as int]);
            }
            i += 1;
        }
        proof {
            assert(quizzes.deep_view().take(n as int) =~= quizzes.deep_view());
        }
        store
    }

    /// The index of the slot holding `quiz_id`, if any.
    fn find_quiz(&self, quiz_id: &String) -> (r: Option<usize>)
        ensures
            r matches Some(i) ==> i < self.slots.len() && slot_index(self@, quiz_id@) == Some(
                i as int,
            ) && self@[i as int].quiz.id == quiz_id@,
            r is None ==> slot_index(self@, quiz_id@) is None,
    {
        let n = self.slots.len();
        let mut i: usize = 0;
        while i < n
            invariant
                n == self.slots.len(),
                0 <= i <= n,
                forall|j: int| 0 <= j < i ==> self@[j].quiz.id != quiz_id@,
            decreases n - i,
        {
            if self.slots[i].quiz.id == *quiz_id {
                proof {
                    lemma_slot_index_hit(self@, quiz_id@, i as int);
                }
                return Some(i);
            }
            i += 1;
        }
        proof {
            lemma_slot_index_miss(self@, quiz_id@);
        }
        None
    }

    /// Advance the quiz's state machine under exclusive access: start
    /// a new cycle (clearing the old table), move to the next
    /// question, or end the cycle. Returns the question now live, or
    /// `None` when the cycle ended; an unknown quiz is refused.
    pub fn advance(&mut self, quiz_id: &String) -> (r: Result<Option<Question>, QuizError>)
        requires
            old(self).wf(),
        ensures
            final(self).wf(),
            slot_index(old(self)@, quiz_id@) is None ==> r == Err::<Option<Question>, QuizError>(
                QuizError::NotFound,
            ) && *final(self) == *old(self),
            slot_index(old(self)@, quiz_id@) matches Some(i) ==> final(self)@ == old(self)@.update(
                i,
                advanced_slot(old(self)@[i]),
            ),
            slot_index(old(self)@, quiz_id@) matches Some(i) ==> (r matches Ok(q) && q.deep_view()
                == advanced_question(old(self)@[i])),
    {
        let found = self.find_quiz(quiz_id);
        match found {
            None => Err(QuizError::NotFound),
            Some(i) => {
                proof {
                    lemma_slot_index_props(self@, quiz_id@);
                }
                let ghost before = self@;
                let mut slot = self.slots.remove(i);
                let n = slot.quiz.questions.len();
                let revealed: Option<Question> = match slot.session.current_question {
                    None => {
                        // A new cycle begins with an empty score table.
                        slot.session.scores.clear();
                        if n == 0 {
                            slot.session.current_question = None;
                            None
                        } else {
                            slot.session.current_question = Some(0);
                            Some(slot.quiz.questions[0].clone())
                        }
                    },
                    Some(j) => {
                        if j + 1 < n {
                            slot.session.current_question = Some(j + 1);
                            Some(slot.quiz.questions[j + 1].clone())
                        } else {
                            // The cycle ended: come to rest with an
                            // empty table, so the quiz's leaderboard
                            // is empty until a new cycle starts.
                            slot.session.current_question = None;
                            slot.session.scores.clear();
                            None
                        }
                    },
                };
                proof {
                    assert(slot@ == advanced_slot(before[i as int]));
                }
                self.slots.insert(i, slot);
                proof {
                    assert(self@ =~= before.update(i as int, advanced_slot(before[i as int])));
                }
                Ok(revealed)
            },
        }
    }

    /// Score one answer of `player_id` under exclusive access: add one
    /// point if correct, zero otherwise, creating the entry if absent.
    /// Only called while a question is live.
    pub fn record_answer(&mut self, quiz_id: &String, player_id: &String, is_correct: bool) -> (r:
        Result<(), QuizError>)
        requires
            old(self).wf(),
            slot_index(old(self)@, quiz_id@) matches Some(i) ==> old(
                self,
            )@[i].session.current_question is Some && points_of(
                old(self)@[i].session.scores,
                player_id@,
            ) < u64::MAX,
        ensures
            final(self).wf(),
            slot_index(old(self)@, quiz_id@) is None ==> r == Err::<(), QuizError>(
                QuizError::NotFound,
            ) && *final(self) == *old(self),
            slot_index(old(self)@, quiz_id@) matches Some(i) ==> r == Ok::<(), QuizError>(())
                && final(self)@ == old(self)@.update(
                i,
                recorded_slot(old(self)@[i], player_id@, is_correct),
            ),
    {
        let found = self.find_quiz(quiz_id);
        match found {
            None => Err(QuizError::NotFound),
            Some(i) => {
                proof {
                    lemma_slot_index_props(self@, quiz_id@);
                }
                let ghost before = self@;
                let mut slot = self.slots.remove(i);
                slot.session.scores.record_answer(player_id, is_correct);
                proof {
                    assert(slot@ == recorded_slot(before[i as int], player_id@, is_correct));
                }
                self.slots.insert(i, slot);
                proof {
                    assert(self@ =~= before.update(
                        i as int,
                        recorded_slot(before[i as int], player_id@, is_correct),
                    ));
                }
                Ok(())
            },
        }
    }
}

/// The question at `id`'s current pointer, or `None` where the quiz is
/// unknown or idle.
pub open spec fn current_question_of(s: Seq<QuizSlotView>, id: Seq<char>) -> Option<QuestionView> {
    match slot_index(s, id) {
        Some(i) => match s[i].session.current_question {
            Some(j) => if 0 <= j < s[i].quiz.questions.len() {
                Some(s[i].quiz.questions[j])
            } else {
                None
            },
            None => None,
        },
        None => None,
    }
}

impl SessionStore {
    /// The question currently live for `quiz_id`, or `None` where the
    /// quiz is unknown, not started or finished.
    pub fn current_question(&self, quiz_id: &String) -> (r: Option<Question>)
        ensures
            r.deep_view() == current_question_of(self@, quiz_id@),
    {
        let found = self.find_quiz(quiz_id);
        match found {
            None => None,
            Some(i) => {
                proof {
                    assert(self@[i as int] == self.slots@[i as int]@);
                }
                match self.slots[i].session.current_question {
                    None => None,
                    Some(j) => {
                        if j < self.slots[i].quiz.questions.len() {
                            let q = self.slots[i].quiz.questions[j].clone();
                            proof {
                                assert(self@[i as int].quiz.questions[j as int]
                                    == self.slots@[i as int].quiz.questions@[j as int]@);
                            }
                            Some(q)
                        } else {
                            None
                        }
                    },
                }
            },
        }
    }

    /// The points of `player_id` in `quiz_id`'s current cycle, or
    /// `None` where the quiz is unknown or the player has not
    /// answered.
    pub fn player_points(&self, player_id: &String, quiz_id: &String) -> (r: Option<u64>)
        ensures
            slot_index(self@, quiz_id@) is None ==> r is None,
            slot_index(self@, quiz_id@) matches Some(i) ==> (match r {
                Some(v) => find_score(self@[i].session.scores, player_id@) == Some(v as nat),
                None => find_score(self@[i].session.scores, player_id@) is None,
            }),
    {
        let found = self.find_quiz(quiz_id);
        match found {
            None => None,
            Some(i) => {
                proof {
                    assert(self@[i as int] == self.slots@[i as int]@);
                }
                self.slots[i].session.scores.lookup(player_id)
            },
        }
    }

    /// A read-only copy of `quiz_id`'s score table, or `None` where
    /// the quiz is unknown.
    pub fn snapshot_scores(&self, quiz_id: &String) -> (r: Option<ScoreTable>)
        ensures
            slot_index(self@, quiz_id@) is None ==> r is None,
            slot_index(self@, quiz_id@) matches Some(i) ==> r matches Some(t) && t@
                == self@[i].session.scores,
    {
        let found = self.find_quiz(quiz_id);
        match found {
            None => None,
            Some(i) => {
                proof {
                    assert(self@[i as int] == self.slots@[i as int]@);
                }
                Some(self.slots[i].session.scores.clone())
            },
        }
    }

    /// The quiz named `quiz_id`, or `None` where it is unknown.
    pub fn get_quiz(&self, quiz_id: &String) -> (r: Option<Quiz>)
        ensures
            slot_index(self@, quiz_id@) is None ==> r is None,
            slot_index(self@, quiz_id@) matches Some(i) ==> r matches Some(q) && q@
                == self@[i].quiz,
    {
        let found = self.find_quiz(quiz_id);
        match found {
            None => None,
            Some(i) => {
                proof {
                    assert(self@[i as int] == self.slots@[i as int]@);
                }
                Some(self.slots[i].quiz.clone())
            },
        }
    }

    /// Every quiz of the catalog, in load order.
    pub fn get_quizzes(&self) -> (r: Vec<Quiz>)
        ensures
            r.deep_view() == Seq::new(self@.len(), |i: int| self@[i].quiz),
    {
        let n = self.slots.len();
        let mut out: Vec<Quiz> = Vec::new();
        let mut i: usize = 0;
        while i < n
            invariant
                n == self.slots.len(),
                0 <= i <= n,
                out.deep_view() =~= Seq::new(i as nat, |j: int| self@[j].quiz),
            decreases n - i,
        {
            let q = self.slots[i].quiz.clone();
            let ghost before = out.deep_view();
            proof {
                assert(self@[i as int] == self.slots@[i as int]@);
            }
            out.push(q);
            proof {
                assert(out.deep_view() =~= before.push(q@));
                assert(out.deep_view() =~= Seq::new((i + 1) as nat, |j: int| self@[j].quiz));
            }
            i += 1;
        }
        out
    }
}

/// Every slot of a freshly loaded catalog is idle: no question is
/// live and no scores exist. Submitting an answer before the first
/// `advance` therefore finds no active question and fails with the
/// invalid-state error.
pub proof fn lemma_loaded_slots_idle(qs: Seq<QuizView>)
    ensures
        forall|i: int|
            0 <= i < loaded(qs).len() ==> (#[trigger] loaded(qs)[i]).session == fresh_session(),
    decreases qs.len(),
{
    if qs.len() > 0 {
        lemma_loaded_slots_idle(qs.drop_last());
        lemma_upsert_sessions(loaded(qs.drop_last()), qs.last());
    }
}

proof fn lemma_upsert_sessions(s: Seq<QuizSlotView>, q: QuizView)
    requires
        forall|i: int| 0 <= i < s.len() ==> (#[trigger] s[i]).session == fresh_session(),
    ensures
        forall|i: int|
            0 <= i < upsert_quiz(s, q).len() ==> (#[trigger] upsert_quiz(s, q)[i]).session
                == fresh_session(),
    decreases s.len(),
{
    let r = upsert_quiz(s, q);
    if s.len() == 0 {
    } else if s[0].quiz.id == q.id {
        assert forall|i: int| 0 <= i < r.len() implies (#[trigger] r[i]).session
            == fresh_session() by {
            if i > 0 {
                assert(r[i] == s[i]);
            }
        }
    } else {
        assert forall|i: int| 0 <= i < s.drop_first().len() implies (#[trigger] s.drop_first()[i]).session
            == fresh_session() by {
            assert(s.drop_first()[i] == s[i + 1]);
        }
        lemma_upsert_sessions(s.drop_first(), q);
        assert forall|i: int| 0 <= i < r.len() implies (#[trigger] r[i]).session
            == fresh_session() by {
            if i > 0 {
                assert(r[i] == upsert_quiz(s.drop_first(), q)[i - 1]);
            }
        }
    }
}

/// The question pointer after `k` consecutive `advance` calls on a
/// quiz with `n` questions, starting from "not started".
pub open spec fn index_after(n: int, k: nat) -> Option<int>
    decreases k,
{
    if k == 0 {
        None
    } else {
        step(index_after(n, (k - 1) as nat), n)
    }
}

/// Advancing a quiz with `n >= 1` questions `k` times from "not
/// started" makes question `k - 1` live, for every `k` up to `n`: the
/// first `n` advances reveal the questions in catalog order.
pub proof fn lemma_cycle_visits_questions_in_order(n: int, k: nat)
    requires
        n >= 1,
        1 <= k <= n,
    ensures
        index_after(n, k) == Some(k - 1),
    decreases k,
{
    if k == 1 {
        assert(index_after(n, 0) == None::<int>);
    } else {
        lemma_cycle_visits_questions_in_order(n, (k - 1) as nat);
    }
}

/// The advance after the last question — the `(n + 1)`-th — reveals
/// nothing and leaves the quiz back at "not started".
pub proof fn lemma_cycle_ends_after_last_question(n: int)
    requires
        n >= 1,
    ensures
        index_after(n, (n + 1) as nat) is None,
{
    lemma_cycle_visits_questions_in_order(n, n as nat);
}

/// Advancing an idle (fresh or just-reset) quiz leaves the score
/// table empty, so the next leaderboard of that quiz is the empty
/// ranking.
pub proof fn lemma_fresh_cycle_has_empty_leaderboard(sl: QuizSlotView)
    requires
        slot_wf(sl),
        sl.session.current_question is None,
    ensures
        advanced_slot(sl).session.scores == Seq::<ScoreEntryView>::empty(),
        crate::ranking::ranked(advanced_slot(sl).session.scores, sl.quiz.id) == Seq::<
            crate::ranking::PlayerView,
        >::empty(),
{
    let cleared = advanced_slot(sl).session.scores;
    assert(cleared =~= Seq::<ScoreEntryView>::empty());
    assert(crate::ranking::players_of(cleared, sl.quiz.id) =~= Seq::<
        crate::ranking::PlayerView,
    >::empty());
}

} // verus!
