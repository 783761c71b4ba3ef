use anyhow::Context;
use flashy::errors::chained_errs_to_string;
use flashy::errors::join_messages;
use flashy::models::Flashcard;

#[test]
fn join_empty_and_single() {
    assert_eq!(join_messages(&vec![]), "");
    assert_eq!(join_messages(&vec!["only".to_string()]), "only");
}

#[test]
fn join_several_messages() {
    let msgs = vec!["a".to_string(), "b".to_string(), "c".to_string()];
    assert_eq!(join_messages(&msgs), "a; b; c");
}

#[test]
fn chained_error_renders_whole_chain() {
    let root = anyhow::Error::msg("root cause");
    let err = root.context("middle").context("outer");
    assert_eq!(chained_errs_to_string(err), "outer; middle; root cause");
}

#[test]
fn single_error_renders_alone() {
    let err = anyhow::Error::msg("just this");
    assert_eq!(chained_errs_to_string(err), "just this");
}

#[test]
fn with_path_tags_provenance() {
    let card = Flashcard {
        id: None,
        question: "q".to_string(),
        answer: "a".to_string(),
        folder: None,
        path: None,
    };
    let tagged = card.with_path("notes".to_string(), "cards.md".to_string());
    assert_eq!(tagged.folder, Some("notes".to_string()));
    assert_eq!(tagged.path, Some("cards.md".to_string()));
    assert_eq!(tagged.question, "q");
}
