//! The card model: flashcards and their recorded answers.

use vstd::prelude::*;

verus! {

/// A single flashcard.
///
/// A card loaded from storage carries its identity key in `id`; a card
/// freshly parsed from a note file has no key until it is reconciled
/// against the stored collection.
#[derive(Debug, Clone, PartialEq, Eq)]
pub struct Flashcard {
    pub id: Option<i32>,
    pub question: String,
    pub answer: String,
    /// The root folder the card was loaded from, if any.
    pub folder: Option<String>,
    /// The path of the note file the card was parsed from, if any.
    pub path: Option<String>,
}

impl Flashcard {
    /// Tags a parsed card with the folder and file it came from.
    pub fn with_path(self, folder: String, path: String) -> (r: Flashcard)
        ensures
            r.id == self.id,
            r.question == self.question,
            r.answer == self.answer,
            r.folder == Some(folder),
            r.path == Some(path),
    {
        Flashcard { folder: Some(folder), path: Some(path), ..self }
    }
}

/// One recorded answer to a flashcard, immutable once recorded.
///
/// `timestamp` counts seconds since the Unix epoch; the unverified shell
/// converts its wall-clock date-times to and from this representation.
/// A card's history is kept sorted by `timestamp`, oldest first.
#[derive(Debug, Clone, Copy, PartialEq, Eq)]
pub struct Answer {
    pub id: Option<i32>,
    pub flashcard_id: i32,
    pub timestamp: i64,
    pub answer_rating: i32,
}

} // verus!
