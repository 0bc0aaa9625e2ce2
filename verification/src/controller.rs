//! Orchestration of the two externally triggered transitions.
//!
//! The controller composes the session store, the scoring engine, the
//! leaderboard ranker and the notification broker: `advance_question`
//! steps a quiz's state machine and publishes the revealed question —
//! or, at the end of a cycle, retires the quiz's channels so every
//! subscriber's stream ends; `submit_answer` scores a submission,
//! records it, and publishes the fresh leaderboard.

use vstd::prelude::*;

use crate::QuizError;
use crate::broker::{NotificationBroker, key_index, lemma_key_present};
use crate::catalog::{Question, Quiz, correct_choice};
use crate::ranking::{Leaderboard, rank, ranked};
use crate::scores::{points_of, recorded};
use crate::scoring::{AnswerOutcome, evaluate, is_correct_submission};
use crate::session::{
    SessionStore, advanced_question, advanced_slot, lemma_slot_index_props,
    lemma_slot_index_same_ids, loaded, recorded_slot, slot_index, slot_wf,
};

verus! {

/// The view of an optional submitted choice identifier.
pub open spec fn choice_view(choice_id: Option<&String>) -> Option<Seq<char>> {
    match choice_id {
        Some(c) => Some(c@),
        None => None,
    }
}

/// The engine's front door: per-quiz state plus the notification
/// channels, mutated only through the two transitions below.
pub struct SessionController {
    pub store: SessionStore,
    pub broker: NotificationBroker,
}

impl SessionController {
    /// The store and both channel registries are internally
    /// consistent.
    pub open spec fn wf(self) -> bool {
        self.store.wf() && self.broker.wf()
    }

    /// A controller over a freshly loaded catalog: every quiz not
    /// started, no scores, no channels.
    pub fn new(quizzes: Vec<Quiz>) -> (c: SessionController)
        ensures
            c.wf(),
            c.store@ == loaded(quizzes.deep_view()),
            c.broker.questions.keys() == Seq::<Seq<char>>::empty(),
            c.broker.leaderboards.keys() == Seq::<Seq<char>>::empty(),
    {
        SessionController { store: SessionStore::load(quizzes), broker: NotificationBroker::new() }
    }

    /// Advance `quiz_id`: step its state machine, publish the revealed
    /// question to the quiz's question channel, and return it; at the
    /// end of a cycle, retire both of the quiz's channels and return
    /// `None`. An unknown quiz is refused and nothing changes.
    pub fn advance_question(&mut self, quiz_id: &String) -> (r: Result<
        Option<Question>,
        QuizError,
    >)
        requires
            old(self).wf(),
        ensures
            final(self).wf(),
            slot_index(old(self).store@, quiz_id@) is None ==> r == Err::<
                Option<Question>,
                QuizError,
            >(QuizError::NotFound) && *final(self) == *old(self),
            slot_index(old(self).store@, quiz_id@) matches Some(i) ==> final(self).store@ == old(
                self,
            ).store@.update(i, advanced_slot(old(self).store@[i])),
            slot_index(old(self).store@, quiz_id@) matches Some(i) ==> (r matches Ok(q)
                && q.deep_view() == advanced_question(old(self).store@[i])),
            (slot_index(old(self).store@, quiz_id@) matches Some(i) && advanced_question(
                old(self).store@[i],
            ) is None) ==> key_index(final(self).broker.questions.keys(), quiz_id@) is None
                && key_index(final(self).broker.leaderboards.keys(), quiz_id@) is None,
            (slot_index(old(self).store@, quiz_id@) matches Some(i) && advanced_question(
                old(self).store@[i],
            ) is Some) ==> key_index(final(self).broker.questions.keys(), quiz_id@) is Some
                && final(self).broker.leaderboards == old(self).broker.leaderboards,
    {
        let stepped = self.store.advance(quiz_id);
        match stepped {
            Err(e) => Err(e),
            Ok(Some(question)) => {
                // Keep the question channel warm before publishing;
                // this primes a channel for late subscribers but is no
                // delivery guarantee.
                let _primer = self.broker.subscribe_questions(quiz_id);
                self.broker.publish_question(quiz_id, question.clone());
                proof {
                    let ks = self.broker.questions.keys();
                    if key_index(old(self).broker.questions.keys(), quiz_id@) is None {
                        lemma_key_present(ks, quiz_id@, ks.len() - 1);
                    }
                }
                Ok(Some(question))
            },
            Ok(None) => {
                // The cycle ended: viewers' streams end deterministically.
                self.broker.retire_quiz(quiz_id);
                Ok(None)
            },
        }
    }

    /// Score a submission for `quiz_id`'s live question, record it for
    /// the submitting player, publish the fresh leaderboard, and
    /// return the outcome together with that leaderboard. Failures: no
    /// resolvable player, unknown quiz (or a catalog whose designated
    /// correct choice is missing), or no active question.
    pub fn submit_answer(
        &mut self,
        quiz_id: &String,
        player_id: Option<&String>,
        choice_id: Option<&String>,
    ) -> (r: Result<(AnswerOutcome, Leaderboard), QuizError>)
        requires
            old(self).wf(),
            player_id matches Some(p) ==> (slot_index(old(self).store@, quiz_id@) matches Some(i)
                ==> points_of(old(self).store@[i].session.scores, p@) < u64::MAX),
        ensures
            final(self).wf(),
            final(self).broker == old(self).broker,
            player_id is None ==> r == Err::<(AnswerOutcome, Leaderboard), QuizError>(
                QuizError::MissingIdentity,
            ) && *final(self) == *old(self),
            player_id is Some && slot_index(old(self).store@, quiz_id@) is None ==> r == Err::<
                (AnswerOutcome, Leaderboard),
                QuizError,
            >(QuizError::NotFound) && *final(self) == *old(self),
            slot_index(old(self).store@, quiz_id@) matches Some(i) ==> (player_id is Some && old(
                self,
            ).store@[i].session.current_question is None ==> r == Err::<
                (AnswerOutcome, Leaderboard),
                QuizError,
            >(QuizError::InvalidState) && *final(self) == *old(self)),
            slot_index(old(self).store@, quiz_id@) matches Some(i) ==> (old(
                self,
            ).store@[i].session.current_question matches Some(j) ==> (player_id is Some
                && correct_choice(old(self).store@[i].quiz.questions[j]) is None ==> r == Err::<
                (AnswerOutcome, Leaderboard),
                QuizError,
            >(QuizError::NotFound) && *final(self) == *old(self))),
            player_id matches Some(p) ==> (slot_index(old(self).store@, quiz_id@) matches Some(i)
                ==> (old(self).store@[i].session.current_question matches Some(j) ==> (
            correct_choice(old(self).store@[i].quiz.questions[j]) matches Some(right) ==> (
            r matches Ok((outcome, lb)) && outcome@.success == is_correct_submission(
                old(self).store@[i].quiz.questions[j],
                choice_view(choice_id),
            ) && outcome@.right_choice == right && final(self).store@ == old(self).store@.update(
                i,
                recorded_slot(old(self).store@[i], p@, outcome@.success),
            ) && lb@.quiz == old(self).store@[i].quiz && lb@.list == ranked(
                recorded(old(self).store@[i].session.scores, p@, outcome@.success),
                old(self).store@[i].quiz.id,
            ))))),
    {
        let player = match player_id {
            None => {
                return Err(QuizError::MissingIdentity);
            },
            Some(p) => p,
        };
        let quiz = match self.store.get_quiz(quiz_id) {
            None => {
                return Err(QuizError::NotFound);
            },
            Some(q) => q,
        };
        proof {
            lemma_slot_index_props(self.store@, quiz_id@);
        }
        let ghost i = slot_index(self.store@, quiz_id@)->Some_0;
        proof {
            assert(slot_wf(self.store@[i]));
        }
        let question = match self.store.current_question(quiz_id) {
            None => {
                return Err(QuizError::InvalidState);
            },
            Some(q) => q,
        };
        let (success, right_choice) = match evaluate(&question, choice_id) {
            None => {
                return Err(QuizError::NotFound);
            },
            Some(outcome) => outcome,
        };
        let ghost before = self.store@;
        match self.store.record_answer(quiz_id, player, success) {
            Err(e) => {
                return Err(e);
            },
            Ok(()) => {},
        }
        proof {
            assert(self.store@ == before.update(i, recorded_slot(before[i], player@, success)));
            assert forall|k: int| 0 <= k < before.len() implies before[k].quiz.id
                == self.store@[k].quiz.id by {
                if k != i {
                    assert(self.store@[k] == before[k]);
                }
            }
            lemma_slot_index_same_ids(before, self.store@, quiz_id@);
        }
        let table = match self.store.snapshot_scores(quiz_id) {
            None => {
                return Err(QuizError::NotFound);
            },
            Some(t) => t,
        };
        let leaderboard = rank(&quiz, &table);
        self.broker.publish_leaderboard(quiz_id, leaderboard.clone());
        let outcome = AnswerOutcome { success, right_choice };
        Ok((outcome, leaderboard))
    }

    /// The current leaderboard of `quiz_id`: its quiz and the ranked
    /// standings of the running cycle (empty when the quiz is idle),
    /// or `None` where the quiz is unknown. Recomputed on demand,
    /// never stored.
    pub fn get_leaderboard(&self, quiz_id: &String) -> (r: Option<Leaderboard>)
        ensures
            slot_index(self.store@, quiz_id@) is None ==> r is None,
            slot_index(self.store@, quiz_id@) matches Some(i) ==> (r matches Some(lb) && lb@.quiz
                == self.store@[i].quiz && lb@.list == ranked(
                self.store@[i].session.scores,
                self.store@[i].quiz.id,
            )),
    {
        let quiz = match self.store.get_quiz(quiz_id) {
            None => {
                return None;
            },
            Some(q) => q,
        };
        let table = match self.store.snapshot_scores(quiz_id) {
            None => {
                return None;
            },
            Some(t) => t,
        };
        Some(rank(&quiz, &table))
    }
}

} // verus!
