//! One session of flashcard learning: a cursor over the cards picked for
//! review.

use vstd::prelude::*;

use crate::models::Flashcard;

verus! {

/// A review session: the cards to go through, and how far the review has
/// advanced.
pub struct Session {
    pub cards: Vec<Flashcard>,
    pub current_card: usize,
}

impl Session {
    /// A fresh session over the given cards, starting at the first one.
    pub fn new(cards: Vec<Flashcard>) -> (s: Session)
        ensures
            s.cards == cards,
            s.current_card == 0,
    {
        Self { cards, current_card: 0 }
    }

    /// Moves past the current card.
    pub fn advance_questions(&mut self)
        requires
            old(self).current_card < usize::MAX,
        ensures
            final(self).cards == old(self).cards,
            final(self).current_card == old(self).current_card + 1,
    {
        self.current_card += 1;
    }

    /// The card under the cursor, advancing past it; `None` once the
    /// session is exhausted.
    pub fn next_question(&mut self) -> (r: Option<&Flashcard>)
        ensures
            final(self).cards == old(self).cards,
            if old(self).current_card < old(self).cards@.len() {
                r matches Some(c) && *c == old(self).cards@[old(self).current_card as int]
                    && final(self).current_card == old(self).current_card + 1
            } else {
                r is None && final(self).current_card == old(self).current_card
            },
    {
        if self.current_card < self.cards.len() {
            let card = &self.cards[self.current_card];
            self.current_card += 1;
            Some(card)
        } else {
            None
        }
    }

    /// The card under the cursor without advancing; `None` once the
    /// session is exhausted.
    pub fn current_question(&mut self) -> (r: Option<&Flashcard>)
        ensures
            *final(self) == *old(self),
            if old(self).current_card < old(self).cards@.len() {
                r matches Some(c) && *c == old(self).cards@[old(self).current_card as int]
            } else {
                r is None
            },
    {
        if self.current_card < self.cards.len() {
            Some(&self.cards[self.current_card])
        } else {
            None
        }
    }
}

} // verus!
