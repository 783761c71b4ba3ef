//! A personal spaced-repetition flashcard library.
//!
//! The two components with real algorithmic content are verified here:
//! the reconciler, which matches freshly parsed cards against the stored
//! collection under a length-scaled Levenshtein threshold, and the
//! scheduler, which decides from a card's answer history whether the card
//! is due for review. Around them stand the card model, the markdown
//! line parser that extracts candidate cards, and a review session cursor.
//! Storage, file reading and the interactive shell are unverified
//! collaborators that call into this crate.

pub mod errors;
pub mod levenshtein;
pub mod markdown;
pub mod models;
pub mod repetition;
pub mod session;
pub mod sync;
pub mod text;

pub use models::Answer;
pub use models::Flashcard;
