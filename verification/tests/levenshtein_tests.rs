use flashy::levenshtein::levenshtein;

#[test]
fn distance_exact_values() {
    assert_eq!(levenshtein("", ""), 0);
    assert_eq!(levenshtein("abc", ""), 3);
    assert_eq!(levenshtein("", "abc"), 3);
    assert_eq!(levenshtein("abc", "abc"), 0);
    assert_eq!(levenshtein("kitten", "sitting"), 3);
    assert_eq!(levenshtein("flaw", "lawn"), 2);
    assert_eq!(levenshtein("a very long text", "a very loong text"), 1);
}

#[test]
fn distance_handles_non_ascii() {
    // Distances count characters, not bytes.
    assert_eq!(levenshtein("über", "uber"), 1);
    assert_eq!(levenshtein("čaj", "čaj"), 0);
}

#[test]
fn distance_agrees_with_strsim() {
    let samples = [
        "",
        "a",
        "flashcard",
        "a flashcard",
        "arghargh",
        "text of question 2 is a bore to be honest",
        "text of question 2 is a bore to be honest.",
        "aaaaaaaaaaaaaaaaaaaaaaaaaaaaaaaaaaaa",
        "baaaaaaaaaaaaaaaaaaaaaaaaaaaaaaaaaaa",
    ];
    for a in samples.iter() {
        for b in samples.iter() {
            assert_eq!(levenshtein(a, b), strsim::levenshtein(a, b));
        }
    }
}
