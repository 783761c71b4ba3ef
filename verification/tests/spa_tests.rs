use chrono::Days;
use flashy::models::Answer;
use flashy::repetition::NaiveExponentialRA;
use flashy::repetition::RepetitionAlgorithm;

const RIGHT: i32 = 100;
const WRONG: i32 = 0;

fn keyed_answer(id: i32, rating: i32, now: chrono::NaiveDateTime, days: u64) -> Answer {
    Answer {
        id: Some(id),
        flashcard_id: 1,
        timestamp: now.checked_sub_days(Days::new(days)).unwrap().and_utc().timestamp(),
        answer_rating: rating,
    }
}

#[test]
fn spa_last_incorrect() {
    // Last incorrect always leads to repetition.
    let spa = NaiveExponentialRA::new(50, 128);
    let now = chrono::Utc::now().naive_utc();
    let answers = vec![
        keyed_answer(1, RIGHT, now, 1),
        keyed_answer(2, RIGHT, now, 2),
        keyed_answer(3, WRONG, now, 3),
    ];
    assert!(spa.repeat_question(&answers, now.and_utc().timestamp()));
}

#[test]
fn spa_repeat_one() {
    let spa = NaiveExponentialRA::new(50, 128);
    let now = chrono::Utc::now().naive_utc();
    let answers = vec![keyed_answer(1, RIGHT, now, 1)];
    assert!(spa.repeat_question(&answers, now.and_utc().timestamp()));
}

#[test]
fn spa_repeat_question() {
    let spa = NaiveExponentialRA::new(50, 128);
    let now = chrono::Utc::now().naive_utc();
    let answers = vec![
        keyed_answer(1, RIGHT, now, 7),
        keyed_answer(2, RIGHT, now, 6),
        keyed_answer(3, RIGHT, now, 4),
    ];
    assert!(spa.repeat_question(&answers, now.and_utc().timestamp()));
}

#[test]
fn spa_dont_repeat_question() {
    let spa = NaiveExponentialRA::new(50, 128);
    let now = chrono::Utc::now().naive_utc();
    let answers = vec![
        keyed_answer(1, RIGHT, now, 5),
        keyed_answer(2, RIGHT, now, 4),
        keyed_answer(3, RIGHT, now, 3),
    ];
    assert!(!spa.repeat_question(&answers, now.and_utc().timestamp()));
}

#[test]
fn spa_last_over_limit() {
    let spa = NaiveExponentialRA::new(50, 8);
    let now = chrono::Utc::now().naive_utc();
    let answers = vec![
        keyed_answer(1, RIGHT, now, 8),
        keyed_answer(2, RIGHT, now, 6),
        keyed_answer(3, RIGHT, now, 4),
    ];
    assert!(spa.repeat_question(&answers, now.and_utc().timestamp()));
}

#[test]
fn spa_no_questions() {
    let spa = NaiveExponentialRA::new(50, 128);
    let answers = vec![];
    assert!(spa.repeat_question(&answers, chrono::Utc::now().timestamp()));
}
