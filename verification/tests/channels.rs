use quiz_engine::catalog::{Choice, Question, Quiz};
use quiz_engine::controller::SessionController;
use tokio::sync::broadcast::error::TryRecvError;

fn quiz() -> Quiz {
    Quiz {
        id: "Q1".to_string(),
        title: "Sample".to_string(),
        questions: vec![
            Question {
                id: "q0".to_string(),
                title: "First".to_string(),
                choices: vec![Choice { id: "c0".to_string(), text: "alpha".to_string() }],
                good_answer: "c0".to_string(),
            },
            Question {
                id: "q1".to_string(),
                title: "Second".to_string(),
                choices: vec![Choice { id: "c0".to_string(), text: "beta".to_string() }],
                good_answer: "c0".to_string(),
            },
        ],
    }
}

#[test]
fn question_channel_delivers_published_questions() {
    let mut c = SessionController::new(vec![quiz()]);
    let quiz_id = "Q1".to_string();
    let mut rx = c.broker.subscribe_questions(&quiz_id);
    c.advance_question(&quiz_id).unwrap();
    let received = rx.try_recv().unwrap();
    assert_eq!(received.id, "q0");
}

#[test]
fn subscriber_sees_no_events_before_the_next_publish() {
    let mut c = SessionController::new(vec![quiz()]);
    let quiz_id = "Q1".to_string();
    let mut rx = c.broker.subscribe_questions(&quiz_id);
    assert!(matches!(rx.try_recv(), Err(TryRecvError::Empty)));
    let mut lb_rx = c.broker.subscribe_leaderboard(&quiz_id);
    assert!(matches!(lb_rx.try_recv(), Err(TryRecvError::Empty)));
}

#[test]
fn streams_terminate_when_the_cycle_ends() {
    let mut c = SessionController::new(vec![quiz()]);
    let quiz_id = "Q1".to_string();
    let mut questions_rx = c.broker.subscribe_questions(&quiz_id);
    let mut lb_rx = c.broker.subscribe_leaderboard(&quiz_id);
    assert!(c.broker.questions.has_channel(&quiz_id));
    assert!(c.broker.leaderboards.has_channel(&quiz_id));
    c.advance_question(&quiz_id).unwrap();
    c.advance_question(&quiz_id).unwrap();
    assert!(c.advance_question(&quiz_id).unwrap().is_none());
    assert!(!c.broker.questions.has_channel(&quiz_id));
    assert!(!c.broker.leaderboards.has_channel(&quiz_id));
    // both questions arrive, then the retired channel closes the stream
    assert_eq!(questions_rx.try_recv().unwrap().id, "q0");
    assert_eq!(questions_rx.try_recv().unwrap().id, "q1");
    assert!(matches!(questions_rx.try_recv(), Err(TryRecvError::Closed)));
    // nothing was published for the leaderboard before the cycle ended
    assert!(matches!(lb_rx.try_recv(), Err(TryRecvError::Closed)));
}

#[test]
fn subscribing_after_a_cycle_ends_sees_nothing_of_that_cycle() {
    let mut c = SessionController::new(vec![quiz()]);
    let quiz_id = "Q1".to_string();
    c.advance_question(&quiz_id).unwrap();
    c.advance_question(&quiz_id).unwrap();
    assert!(c.advance_question(&quiz_id).unwrap().is_none());
    // a late subscriber attaches to a fresh, independent channel
    let mut rx = c.broker.subscribe_questions(&quiz_id);
    assert!(matches!(rx.try_recv(), Err(TryRecvError::Empty)));
}

#[test]
fn late_subscriber_misses_earlier_events() {
    let mut c = SessionController::new(vec![quiz()]);
    let quiz_id = "Q1".to_string();
    c.advance_question(&quiz_id).unwrap();
    let mut rx = c.broker.subscribe_questions(&quiz_id);
    c.advance_question(&quiz_id).unwrap();
    assert_eq!(rx.try_recv().unwrap().id, "q1");
    assert!(matches!(rx.try_recv(), Err(TryRecvError::Empty)));
}

#[test]
fn leaderboard_channel_delivers_updates() {
    let mut c = SessionController::new(vec![quiz()]);
    let quiz_id = "Q1".to_string();
    let mut rx = c.broker.subscribe_leaderboard(&quiz_id);
    c.advance_question(&quiz_id).unwrap();
    let player = "p1".to_string();
    let chosen = "c0".to_string();
    c.submit_answer(&quiz_id, Some(&player), Some(&chosen)).unwrap();
    let lb = rx.try_recv().unwrap();
    assert_eq!(lb.list.len(), 1);
    assert_eq!(lb.list[0].id, "p1");
    assert_eq!(lb.list[0].points, 1);
}

#[test]
fn publishing_with_no_subscriber_is_harmless() {
    let mut c = SessionController::new(vec![quiz()]);
    let quiz_id = "Q1".to_string();
    // no subscriber exists; advancing publishes into the void
    assert_eq!(c.advance_question(&quiz_id).unwrap().unwrap().id, "q0");
    let player = "p1".to_string();
    let chosen = "c0".to_string();
    let (outcome, _) = c.submit_answer(&quiz_id, Some(&player), Some(&chosen)).unwrap();
    assert!(outcome.success);
}
