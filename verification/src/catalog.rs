//! The immutable quiz catalog: quizzes, questions and choices.
//!
//! Catalog values are created once, at load, and never change for the
//! life of the process; everything mutable lives in [`crate::session`].

use vstd::prelude::*;

verus! {

/// One selectable choice of a question.
pub struct Choice {
    pub id: String,
    pub text: String,
}

/// The mathematical value of a [`Choice`].
pub struct ChoiceView {
    pub id: Seq<char>,
    pub text: Seq<char>,
}

impl View for Choice {
    type V = ChoiceView;

    open spec fn view(&self) -> ChoiceView {
        ChoiceView { id: self.id@, text: self.text@ }
    }
}

impl DeepView for Choice {
    type V = ChoiceView;

    open spec fn deep_view(&self) -> ChoiceView {
        self.view()
    }
}

impl Clone for Choice {
    fn clone(&self) -> (res: Self)
        ensures
            res@ == self@,
    {
        Choice { id: self.id.clone(), text: self.text.clone() }
    }
}

/// One question of a quiz: its ordered choices and the identifier of
/// the designated correct choice.
pub struct Question {
    pub id: String,
    pub title: String,
    pub choices: Vec<Choice>,
    pub good_answer: String,
}

/// The mathematical value of a [`Question`].
pub struct QuestionView {
    pub id: Seq<char>,
    pub title: Seq<char>,
    pub choices: Seq<ChoiceView>,
    pub good_answer: Seq<char>,
}

impl View for Question {
    type V = QuestionView;

    open spec fn view(&self) -> QuestionView {
        QuestionView {
            id: self.id@,
            title: self.title@,
            choices: self.choices.deep_view(),
            good_answer: self.good_answer@,
        }
    }
}

impl DeepView for Question {
    type V = QuestionView;

    open spec fn deep_view(&self) -> QuestionView {
        self.view()
    }
}

impl Clone for Question {
    fn clone(&self) -> (res: Self)
        ensures
            res@ == self@,
    {
        let res = Question {
            id: self.id.clone(),
            title: self.title.clone(),
            choices: self.choices.clone(),
            good_answer: self.good_answer.clone(),
        };
        proof {
            assert forall|i: int| 0 <= i < self.choices.len() implies res.choices@[i]@
                == self.choices@[i]@ by {
                assert(cloned::<Choice>(self.choices[i], res.choices[i]));
            }
            assert(res.choices.deep_view() =~= self.choices.deep_view());
        }
        res
    }
}

/// One quiz: an ordered list of questions, fixed after load.
pub struct Quiz {
    pub id: String,
    pub title: String,
    pub questions: Vec<Question>,
}

/// The mathematical value of a [`Quiz`].
pub struct QuizView {
    pub id: Seq<char>,
    pub title: Seq<char>,
    pub questions: Seq<QuestionView>,
}

impl View for Quiz {
    type V = QuizView;

    open spec fn view(&self) -> QuizView {
        QuizView {
            id: self.id@,
            title: self.title@,
            questions: self.questions.deep_view(),
        }
    }
}

impl DeepView for Quiz {
    type V = QuizView;

    open spec fn deep_view(&self) -> QuizView {
        self.view()
    }
}

impl Clone for Quiz {
    fn clone(&self) -> (res: Self)
        ensures
            res@ == self@,
    {
        let res = Quiz {
            id: self.id.clone(),
            title: self.title.clone(),
            questions: self.questions.clone(),
        };
        proof {
            assert forall|i: int| 0 <= i < self.questions.len() implies res.questions@[i]@
                == self.questions@[i]@ by {
                assert(cloned::<Question>(self.questions[i], res.questions[i]));
            }
            assert(res.questions.deep_view() =~= self.questions.deep_view());
        }
        res
    }
}

/// The first choice of `choices` whose identifier is `id`, if any.
pub open spec fn find_choice(choices: Seq<ChoiceView>, id: Seq<char>) -> Option<ChoiceView>
    decreases choices.len(),
{
    if choices.len() == 0 {
        None
    } else if choices[0].id == id {
        Some(choices[0])
    } else {
        find_choice(choices.drop_first(), id)
    }
}

/// The designated correct choice of `q`: the first choice whose
/// identifier equals `q.good_answer`, if any.
pub open spec fn correct_choice(q: QuestionView) -> Option<ChoiceView> {
    find_choice(q.choices, q.good_answer)
}

proof fn lemma_find_choice_hit(choices: Seq<ChoiceView>, id: Seq<char>, i: int)
    requires
        0 <= i < choices.len(),
        forall|j: int| 0 <= j < i ==> choices[j].id != id,
        choices[i].id == id,
    ensures
        find_choice(choices, id) == Some(choices[i]),
    decreases i,
{
    if i > 0 {
        lemma_find_choice_hit(choices.drop_first(), id, i - 1);
    }
}

proof fn lemma_find_choice_miss(choices: Seq<ChoiceView>, id: Seq<char>)
    requires
        forall|j: int| 0 <= j < choices.len() ==> choices[j].id != id,
    ensures
        find_choice(choices, id) == None::<ChoiceView>,
    decreases choices.len(),
{
    if choices.len() > 0 {
        lemma_find_choice_miss(choices.drop_first(), id);
    }
}

impl Question {
    /// The designated correct choice of this question, or `None` where
    /// the catalog names a choice identifier that the question lacks.
    pub fn correct_choice(&self) -> (r: Option<Choice>)
        ensures
            r.deep_view() == correct_choice(self@),
    {
        let n = self.choices.len();
        let mut i: usize = 0;
        while i < n
            invariant
                n == self.choices.len(),
                0 <= i <= n,
                forall|j: int| 0 <= j < i ==> self@.choices[j].id != self@.good_answer,
            decreases n - i,
        {
            if self.choices[i].id == self.good_answer {
                let found = self.choices[i].clone();
                proof {
                    lemma_find_choice_hit(self@.choices, self@.good_answer, i as int);
                }
                return Some(found);
            }
            i += 1;
        }
        proof {
            lemma_find_choice_miss(self@.choices, self@.good_answer);
        }
        None
    }
}

} // verus!
