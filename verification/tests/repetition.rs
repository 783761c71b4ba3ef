use chrono::Days;
use flashy::models::Answer;
use flashy::repetition::NaiveExponentialRA;
use flashy::repetition::RepetitionAlgorithm;

const RIGHT: i32 = 100;
const WRONG: i32 = 0;

fn days_ago(now: chrono::NaiveDateTime, days: u64) -> i64 {
    now.checked_sub_days(Days::new(days)).unwrap().and_utc().timestamp()
}

fn answer(rating: i32, timestamp: i64) -> Answer {
    Answer { id: None, flashcard_id: 1, timestamp, answer_rating: rating }
}

#[test]
fn last_incorrect() {
    // Last incorrect always leads to repetition.
    let spa = NaiveExponentialRA::new(50, 128);
    let now = chrono::Utc::now().naive_utc();
    let answers = vec![
        answer(RIGHT, days_ago(now, 1)),
        answer(RIGHT, days_ago(now, 2)),
        answer(WRONG, days_ago(now, 3)),
    ];
    assert!(spa.repeat_question(&answers, now.and_utc().timestamp()));
}

#[test]
fn repeat_one() {
    let spa = NaiveExponentialRA::new(50, 128);
    let now = chrono::Utc::now().naive_utc();
    let answers = vec![answer(RIGHT, days_ago(now, 1))];
    assert!(spa.repeat_question(&answers, now.and_utc().timestamp()));
}

#[test]
fn repeat_question() {
    let spa = NaiveExponentialRA::new(50, 128);
    let now = chrono::Utc::now().naive_utc();
    let answers = vec![
        answer(RIGHT, days_ago(now, 7)),
        answer(RIGHT, days_ago(now, 6)),
        answer(RIGHT, days_ago(now, 4)),
    ];
    assert!(spa.repeat_question(&answers, now.and_utc().timestamp()));
}

#[test]
fn dont_repeat_question() {
    let spa = NaiveExponentialRA::new(50, 128);
    let now = chrono::Utc::now().naive_utc();
    let answers = vec![
        answer(RIGHT, days_ago(now, 5)),
        answer(RIGHT, days_ago(now, 4)),
        answer(RIGHT, days_ago(now, 3)),
    ];
    assert!(!spa.repeat_question(&answers, now.and_utc().timestamp()));
}

#[test]
fn last_over_limit() {
    let spa = NaiveExponentialRA::new(50, 8);
    let now = chrono::Utc::now().naive_utc();
    let answers = vec![
        answer(RIGHT, days_ago(now, 8)),
        answer(RIGHT, days_ago(now, 6)),
        answer(RIGHT, days_ago(now, 4)),
    ];
    assert!(spa.repeat_question(&answers, now.and_utc().timestamp()));
}

#[test]
fn no_questions() {
    let spa = NaiveExponentialRA::new(50, 128);
    let answers = vec![];
    assert!(spa.repeat_question(&answers, chrono::Utc::now().timestamp()));
}

#[test]
fn interval_cap_forces_due() {
    // A streak of 4 passing answers gives an interval of 8 days, which
    // reaches the day limit of 8: due even when answered moments ago.
    let spa = NaiveExponentialRA::new(50, 8);
    let now: i64 = 1_000_000_000;
    let answers = vec![
        answer(RIGHT, now - 4 * 86400),
        answer(RIGHT, now - 3 * 86400),
        answer(RIGHT, now - 2 * 86400),
        answer(RIGHT, now - 60),
    ];
    assert!(spa.repeat_question(&answers, now));
}

#[test]
fn due_boundary_is_exact() {
    // Streak 3 means an interval of 4 days: due at exactly 4 days since
    // the latest answer, not due one second earlier.
    let spa = NaiveExponentialRA::new(50, 128);
    let now: i64 = 1_000_000_000;
    let answers = vec![
        answer(RIGHT, now - 7 * 86400),
        answer(RIGHT, now - 6 * 86400),
        answer(RIGHT, now - 4 * 86400),
    ];
    assert!(spa.repeat_question(&answers, now));
    let answers_late = vec![
        answer(RIGHT, now - 7 * 86400),
        answer(RIGHT, now - 6 * 86400),
        answer(RIGHT, now - 4 * 86400 + 1),
    ];
    assert!(!spa.repeat_question(&answers_late, now));
}

#[test]
fn long_streak_is_capped() {
    // 40 consecutive passes: the interval dwarfs any i32 day limit, so
    // the cap makes the card due.
    let spa = NaiveExponentialRA::new(50, i32::MAX);
    let now: i64 = 1_000_000_000;
    let mut answers = Vec::new();
    for k in 0i64..40i64 {
        answers.push(answer(RIGHT, now - 86400 * (40 - k)));
    }
    assert!(spa.repeat_question(&answers, now));
}
