use quiz_engine::QuizError;
use quiz_engine::catalog::{Choice, Question, Quiz};
use quiz_engine::controller::SessionController;
use quiz_engine::ranking::rank;
use quiz_engine::scores::{ScoreEntry, ScoreTable};

fn choice(id: &str, text: &str) -> Choice {
    Choice { id: id.to_string(), text: text.to_string() }
}

fn question(id: &str, title: &str, choices: Vec<Choice>, good_answer: &str) -> Question {
    Question {
        id: id.to_string(),
        title: title.to_string(),
        choices,
        good_answer: good_answer.to_string(),
    }
}

/// Quiz "Q1" with two questions whose correct choices are "c0" and
/// "c1" respectively.
fn sample_quiz() -> Quiz {
    Quiz {
        id: "Q1".to_string(),
        title: "Sample".to_string(),
        questions: vec![
            question(
                "q0",
                "First question",
                vec![choice("c0", "alpha"), choice("c1", "beta")],
                "c0",
            ),
            question(
                "q1",
                "Second question",
                vec![choice("c0", "gamma"), choice("c1", "delta"), choice("c2", "epsilon")],
                "c1",
            ),
        ],
    }
}

fn controller() -> SessionController {
    SessionController::new(vec![sample_quiz()])
}

fn submit(
    c: &mut SessionController,
    quiz: &str,
    player: &str,
    choice_id: Option<&str>,
) -> Result<(quiz_engine::scoring::AnswerOutcome, quiz_engine::ranking::Leaderboard), QuizError> {
    let player = player.to_string();
    let choice_owned = choice_id.map(|s| s.to_string());
    c.submit_answer(&quiz.to_string(), Some(&player), choice_owned.as_ref())
}

#[test]
fn advance_reveals_questions_in_order() {
    let mut c = controller();
    let quiz_id = "Q1".to_string();
    let q0 = c.advance_question(&quiz_id).unwrap().unwrap();
    assert_eq!(q0.id, "q0");
    let q1 = c.advance_question(&quiz_id).unwrap().unwrap();
    assert_eq!(q1.id, "q1");
    assert!(c.advance_question(&quiz_id).unwrap().is_none());
    // the pointer is back at "not started": the next advance restarts
    let again = c.advance_question(&quiz_id).unwrap().unwrap();
    assert_eq!(again.id, "q0");
}

#[test]
fn unknown_quiz_is_not_found() {
    let mut c = controller();
    let missing = "nope".to_string();
    assert!(matches!(c.advance_question(&missing), Err(QuizError::NotFound)));
    assert!(c.get_leaderboard(&missing).is_none());
    assert!(c.store.get_quiz(&missing).is_none());
    let player = "p1".to_string();
    assert_eq!(
        c.submit_answer(&missing, Some(&player), None).map(|_| ()),
        Err(QuizError::NotFound)
    );
}

#[test]
fn submit_before_any_advance_is_invalid_state() {
    let mut c = controller();
    let r = submit(&mut c, "Q1", "p1", Some("c0"));
    assert_eq!(r.map(|_| ()), Err(QuizError::InvalidState));
}

#[test]
fn submit_without_identity_is_missing_identity() {
    let mut c = controller();
    let quiz_id = "Q1".to_string();
    c.advance_question(&quiz_id).unwrap();
    let r = c.submit_answer(&quiz_id, None, None);
    assert_eq!(r.map(|_| ()), Err(QuizError::MissingIdentity));
}

#[test]
fn fresh_cycle_has_empty_leaderboard() {
    let mut c = controller();
    let quiz_id = "Q1".to_string();
    c.advance_question(&quiz_id).unwrap();
    let lb = c.get_leaderboard(&quiz_id).unwrap();
    assert!(lb.list.is_empty());
}

#[test]
fn two_question_scenario() {
    let mut c = controller();
    let quiz_id = "Q1".to_string();

    let q0 = c.advance_question(&quiz_id).unwrap().unwrap();
    assert_eq!(q0.id, "q0");
    let (outcome, lb) = submit(&mut c, "Q1", "p1", Some("c0")).unwrap();
    assert!(outcome.success);
    assert_eq!(outcome.right_choice.id, "c0");
    assert_eq!(lb.list.len(), 1);
    assert_eq!(lb.list[0].id, "p1");
    assert_eq!(lb.list[0].points, 1);

    let q1 = c.advance_question(&quiz_id).unwrap().unwrap();
    assert_eq!(q1.id, "q1");
    let (outcome, lb) = submit(&mut c, "Q1", "p1", Some("c2")).unwrap();
    assert!(!outcome.success);
    // the correct choice is revealed even on a wrong answer
    assert_eq!(outcome.right_choice.id, "c1");
    assert_eq!(lb.list.len(), 1);
    assert_eq!(lb.list[0].points, 1);

    assert!(c.advance_question(&quiz_id).unwrap().is_none());
    let after = c.get_leaderboard(&quiz_id).unwrap();
    assert!(after.list.is_empty());
}

#[test]
fn answering_the_same_question_twice_double_counts() {
    let mut c = controller();
    let quiz_id = "Q1".to_string();
    c.advance_question(&quiz_id).unwrap();
    submit(&mut c, "Q1", "p1", Some("c0")).unwrap();
    let (_, lb) = submit(&mut c, "Q1", "p1", Some("c0")).unwrap();
    assert_eq!(lb.list[0].points, 2);
}

#[test]
fn missing_submission_scores_zero_but_creates_entry() {
    let mut c = controller();
    let quiz_id = "Q1".to_string();
    c.advance_question(&quiz_id).unwrap();
    let (outcome, lb) = submit(&mut c, "Q1", "p1", None).unwrap();
    assert!(!outcome.success);
    assert_eq!(lb.list.len(), 1);
    assert_eq!(lb.list[0].points, 0);
}

#[test]
fn leaderboard_sorts_by_points_descending_with_stable_ties() {
    let quiz = sample_quiz();
    let table = ScoreTable {
        entries: vec![
            ScoreEntry { player_id: "a".to_string(), points: 1 },
            ScoreEntry { player_id: "b".to_string(), points: 3 },
            ScoreEntry { player_id: "c".to_string(), points: 0 },
            ScoreEntry { player_id: "d".to_string(), points: 3 },
        ],
    };
    let first = rank(&quiz, &table);
    let order: Vec<(String, u64)> =
        first.list.iter().map(|p| (p.id.clone(), p.points)).collect();
    assert_eq!(
        order,
        vec![
            ("b".to_string(), 3),
            ("d".to_string(), 3),
            ("a".to_string(), 1),
            ("c".to_string(), 0),
        ]
    );
    // the same table ranks the same way every time
    let second = rank(&quiz, &table);
    let again: Vec<(String, u64)> =
        second.list.iter().map(|p| (p.id.clone(), p.points)).collect();
    assert_eq!(order, again);
}

#[test]
fn quiz_without_questions_ends_immediately() {
    let empty = Quiz { id: "Q0".to_string(), title: "Empty".to_string(), questions: vec![] };
    let mut c = SessionController::new(vec![empty]);
    let quiz_id = "Q0".to_string();
    assert!(c.advance_question(&quiz_id).unwrap().is_none());
    assert!(c.advance_question(&quiz_id).unwrap().is_none());
}

#[test]
fn store_accessors_follow_the_cycle() {
    let mut c = controller();
    let quiz_id = "Q1".to_string();
    let p1 = "p1".to_string();
    assert!(c.store.current_question(&quiz_id).is_none());
    assert!(c.store.player_points(&p1, &quiz_id).is_none());
    c.advance_question(&quiz_id).unwrap();
    assert_eq!(c.store.current_question(&quiz_id).unwrap().id, "q0");
    submit(&mut c, "Q1", "p1", Some("c0")).unwrap();
    assert_eq!(c.store.player_points(&p1, &quiz_id), Some(1));
    let snapshot = c.store.snapshot_scores(&quiz_id).unwrap();
    assert_eq!(snapshot.entries.len(), 1);
    assert_eq!(snapshot.entries[0].player_id, "p1");
}

#[test]
fn catalog_reads_list_quizzes_in_load_order() {
    let other = Quiz { id: "Q2".to_string(), title: "Other".to_string(), questions: vec![] };
    let c = SessionController::new(vec![sample_quiz(), other]);
    let all = c.store.get_quizzes();
    let ids: Vec<String> = all.iter().map(|q| q.id.clone()).collect();
    assert_eq!(ids, vec!["Q1".to_string(), "Q2".to_string()]);
    assert_eq!(c.store.get_quiz(&"Q2".to_string()).unwrap().title, "Other");
}

#[test]
fn loading_a_duplicate_quiz_id_keeps_the_later_quiz() {
    let mut newer = sample_quiz();
    newer.title = "Replacement".to_string();
    let c = SessionController::new(vec![sample_quiz(), newer]);
    let all = c.store.get_quizzes();
    assert_eq!(all.len(), 1);
    assert_eq!(all[0].title, "Replacement");
}
