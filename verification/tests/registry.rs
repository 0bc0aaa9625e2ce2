use quiz_engine::QuizError;
use quiz_engine::registry::PlayerRegistry;
use tokio::sync::broadcast::error::TryRecvError;

#[test]
fn create_player_assigns_a_36_character_id() {
    let mut r = PlayerRegistry::new();
    let quiz_id = "Q1".to_string();
    let p = r.create_player("alice".to_string(), &quiz_id).unwrap();
    assert_eq!(p.id.len(), 36);
    assert_eq!(p.name, "alice");
    assert_eq!(p.quiz_id, "Q1");
}

#[test]
fn duplicate_username_in_the_same_quiz_is_a_conflict() {
    let mut r = PlayerRegistry::new();
    let quiz_id = "Q1".to_string();
    r.create_player("alice".to_string(), &quiz_id).unwrap();
    let second = r.create_player("alice".to_string(), &quiz_id);
    assert_eq!(second.map(|_| ()), Err(QuizError::Conflict));
}

#[test]
fn same_username_in_another_quiz_is_allowed() {
    let mut r = PlayerRegistry::new();
    let first = "Q1".to_string();
    let second = "Q2".to_string();
    r.create_player("alice".to_string(), &first).unwrap();
    let other = r.create_player("alice".to_string(), &second).unwrap();
    assert_eq!(other.quiz_id, "Q2");
}

#[test]
fn get_player_finds_registered_players_only() {
    let mut r = PlayerRegistry::new();
    let quiz_id = "Q1".to_string();
    let created = r.create_player("alice".to_string(), &quiz_id).unwrap();
    let found = r.get_player(&created.id).unwrap();
    assert_eq!(found.name, "alice");
    assert!(r.get_player(&"missing".to_string()).is_none());
}

#[test]
fn players_for_quiz_keeps_registration_order_of_that_quiz() {
    let mut r = PlayerRegistry::new();
    let q1 = "Q1".to_string();
    let q2 = "Q2".to_string();
    r.create_player("alice".to_string(), &q1).unwrap();
    r.create_player("bob".to_string(), &q2).unwrap();
    r.create_player("carol".to_string(), &q1).unwrap();
    let roster = r.players_for_quiz(&q1);
    let names: Vec<String> = roster.iter().map(|p| p.name.clone()).collect();
    assert_eq!(names, vec!["alice".to_string(), "carol".to_string()]);
}

#[test]
fn roster_channel_announces_each_new_player() {
    let mut r = PlayerRegistry::new();
    let quiz_id = "Q1".to_string();
    let mut rx = r.subscribe_roster(&quiz_id);
    assert!(matches!(rx.try_recv(), Err(TryRecvError::Empty)));
    r.create_player("dave".to_string(), &quiz_id).unwrap();
    let roster = rx.try_recv().unwrap();
    assert_eq!(roster.len(), 1);
    assert_eq!(roster[0].name, "dave");
}
