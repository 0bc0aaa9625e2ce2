//! Scoring one submitted answer against the live question.

use vstd::prelude::*;

use crate::catalog::{Choice, ChoiceView, Question, QuestionView, correct_choice};

verus! {

/// The outcome of one submission: whether it was correct, and the
/// correct choice, revealed to the caller right or wrong.
pub struct AnswerOutcome {
    pub success: bool,
    pub right_choice: Choice,
}

/// The mathematical value of an [`AnswerOutcome`].
pub struct AnswerOutcomeView {
    pub success: bool,
    pub right_choice: ChoiceView,
}

impl View for AnswerOutcome {
    type V = AnswerOutcomeView;

    open spec fn view(&self) -> AnswerOutcomeView {
        AnswerOutcomeView { success: self.success, right_choice: self.right_choice@ }
    }
}

/// Whether a submission answers `q` correctly: a choice was given and
/// it is the designated correct one. A missing submission is always
/// incorrect.
pub open spec fn is_correct_submission(q: QuestionView, submitted: Option<Seq<char>>) -> bool {
    match (correct_choice(q), submitted) {
        (Some(right), Some(c)) => c == right.id,
        _ => false,
    }
}

/// Score one submission against `question`: correct if and only if it
/// names the designated correct choice, which is returned either way.
/// `None` only where the catalog names a correct choice the question
/// lacks.
pub fn evaluate(question: &Question, submitted_choice_id: Option<&String>) -> (r: Option<
    (bool, Choice),
>)
    ensures
        r is None <==> correct_choice(question@) is None,
        r matches Some((success, right)) ==> correct_choice(question@) == Some(right@) && success
            == is_correct_submission(
            question@,
            match submitted_choice_id {
                Some(c) => Some(c@),
                None => None,
            },
        ),
{
    match question.correct_choice() {
        None => None,
        Some(right) => {
            let success = match submitted_choice_id {
                Some(c) => *c == right.id,
                None => false,
            };
            Some((success, right))
        },
    }
}

} // verus!
