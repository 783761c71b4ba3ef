use flashy::markdown::read_markdown;
use flashy::markdown::ParseError;

fn lines_of(text: &str) -> Vec<String> {
    text.lines().map(|l| l.to_string()).collect()
}

#[test]
fn test_read_empty_markdown() {
    let markdown = "";
    let flashcards = read_markdown(&lines_of(markdown)).unwrap();
    assert_eq!(flashcards.len(), 0);
}

#[test]
fn test_read_markdown_one_question() {
    let markdown = "question #flashcard\nanswer\n---\n";
    let flashcards = read_markdown(&lines_of(markdown)).unwrap();
    assert_eq!(flashcards.len(), 1);
    assert_eq!(flashcards[0].question, "question");
    assert_eq!(flashcards[0].answer, "answer\n");
}

#[test]
fn test_multiple_questions() {
    let markdown = "question #flashcard\nanswer\n---\nquestion2 #flashcard\nanswer2\n---\n";
    let flashcards = read_markdown(&lines_of(markdown)).unwrap();
    assert_eq!(flashcards.len(), 2);
    assert_eq!(flashcards[0].question, "question");
    assert_eq!(flashcards[0].answer, "answer\n");
    assert_eq!(flashcards[1].question, "question2");
    assert_eq!(flashcards[1].answer, "answer2\n");
}

#[test]
fn test_mix_questions_text() {
    let markdown = "question #flashcard\nanswer\n---\nSome random text\nquestion2 #flashcard\nanswer2\n---\nMore random text\nquestion3 #flashcard\nanswer3\n---\n";
    let flashcards = read_markdown(&lines_of(markdown)).unwrap();
    assert_eq!(flashcards.len(), 3);
    assert_eq!(flashcards[0].question, "question");
    assert_eq!(flashcards[0].answer, "answer\n");
    assert_eq!(flashcards[1].question, "question2");
    assert_eq!(flashcards[1].answer, "answer2\n");
    assert_eq!(flashcards[2].question, "question3");
    assert_eq!(flashcards[2].answer, "answer3\n");
}

#[test]
fn test_no_questions() {
    let markdown = "Some random text\nSome more random text\n";
    let flashcards = read_markdown(&lines_of(markdown)).unwrap();
    assert_eq!(flashcards.len(), 0);
}

#[test]
fn test_unterminated_question() {
    let markdown = "question #flashcard\nanswer\n";
    let flashcards = read_markdown(&lines_of(markdown)).unwrap();
    assert_eq!(flashcards.len(), 1);
    assert_eq!(flashcards[0].question, "question");
    assert_eq!(flashcards[0].answer, "answer\n");
}

#[test]
fn test_long_question() {
    let markdown = r#"
Some text
#flashcard
a text
of a question
$x = x + 1$
- - -
An answer
to the question
- - -
Some more text
a normal card #flashcard
a normal answer
- - -
"#;
    let flashcards = read_markdown(&lines_of(markdown)).unwrap();
    assert_eq!(flashcards.len(), 2);
    assert_eq!(flashcards[0].question, "a text\nof a question\n$x = x + 1$\n");
    assert_eq!(flashcards[0].answer, "An answer\nto the question\n");
    assert_eq!(flashcards[1].question, "a normal card");
    assert_eq!(flashcards[1].answer, "a normal answer\n");
}

#[test]
fn test_empty_question() {
    let markdown = "#flashcard\n---\n---\n";
    let flashcards = read_markdown(&lines_of(markdown));
    assert!(flashcards.is_err());
}

#[test]
fn empty_long_card_is_rejected() {
    let lines = lines_of("#flashcard\n---\n---\n");
    assert_eq!(read_markdown(&lines), Err(ParseError::EmptyCard));
}

#[test]
fn empty_question_text_is_rejected() {
    let lines = lines_of("#note #flashcard\nanswer\n---\n");
    assert_eq!(read_markdown(&lines), Err(ParseError::EmptyQuestion));
}

#[test]
fn empty_answer_text_is_rejected() {
    let lines = lines_of("question #flashcard\n---\n");
    assert_eq!(read_markdown(&lines), Err(ParseError::EmptyAnswer));
}

#[test]
fn parse_error_messages() {
    assert_eq!(
        ParseError::EmptyCard.message(),
        "Card cannot have an empty question or answer text"
    );
    assert_eq!(ParseError::EmptyQuestion.message(), "Card cannot have empty question text");
    assert_eq!(ParseError::EmptyAnswer.message(), "Card cannot have empty answer text");
}

#[test]
fn parsed_cards_carry_no_key_or_provenance() {
    let flashcards = read_markdown(&lines_of("question #flashcard\nanswer\n---\n")).unwrap();
    assert_eq!(flashcards[0].id, None);
    assert_eq!(flashcards[0].folder, None);
    assert_eq!(flashcards[0].path, None);
}

#[test]
fn lines_are_trimmed_into_blocks() {
    let markdown = "  question   #flashcard\n   answer one  \nanswer two\n---\n";
    let flashcards = read_markdown(&lines_of(markdown)).unwrap();
    assert_eq!(flashcards.len(), 1);
    assert_eq!(flashcards[0].question, "question");
    assert_eq!(flashcards[0].answer, "answer one\nanswer two\n");
}
