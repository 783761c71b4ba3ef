use flashy::models::Flashcard;
use flashy::session::Session;

fn card(q: &str) -> Flashcard {
    Flashcard {
        id: Some(1),
        question: q.to_string(),
        answer: "a".to_string(),
        folder: None,
        path: None,
    }
}

#[test]
fn session_walks_cards_in_order() {
    let mut session = Session::new(vec![card("one"), card("two")]);
    assert_eq!(session.next_question().unwrap().question, "one");
    assert_eq!(session.next_question().unwrap().question, "two");
    assert!(session.next_question().is_none());
}

#[test]
fn current_question_does_not_advance() {
    let mut session = Session::new(vec![card("one"), card("two")]);
    assert_eq!(session.current_question().unwrap().question, "one");
    assert_eq!(session.current_question().unwrap().question, "one");
    session.advance_questions();
    assert_eq!(session.current_question().unwrap().question, "two");
    session.advance_questions();
    assert!(session.current_question().is_none());
}

#[test]
fn empty_session_is_exhausted() {
    let mut session = Session::new(vec![]);
    assert!(session.current_question().is_none());
    assert!(session.next_question().is_none());
}
