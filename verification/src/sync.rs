//! Reconciliation of freshly parsed flashcards against the stored
//! collection.
//!
//! Two cards count as "the same card, possibly edited" when the
//! Levenshtein distance between their question texts is at most a
//! threshold that scales with the texts' length, so long questions
//! tolerate proportionally more character drift than short ones. Each
//! incoming card is classified either as an update of an existing record
//! (keeping the stored identity key, replacing the content) or as a brand
//! new record. When several stored cards fall within the threshold, the
//! first one in stored order is chosen: a deliberate, deterministic
//! tie-break, kept as-is rather than silently switching to closest-match.

use vstd::prelude::*;

use crate::levenshtein::edit_distance;
use crate::levenshtein::lemma_edit_distance_identical;
use crate::levenshtein::levenshtein;
use crate::models::Flashcard;

verus! {

use vstd::string::StrSliceExecFns;

/// A reconciliation decision for one incoming card: insert it as new, or
/// overwrite the content of the stored card whose key it carries.
#[derive(Debug, PartialEq, Eq)]
pub enum CardType {
    New(Flashcard),
    Old(Flashcard),
}

/// How many character edits the question texts may differ by and still
/// count as the same card: the ceiling of a fifth (20 percent) of the
/// exact average of the two question lengths, counted in characters —
/// ceil((len_a + len_b) / 10) over the rationals.
pub open spec fn spec_threshold(len_a: nat, len_b: nat) -> nat {
    (((len_a + len_b) + 9) / 10) as nat
}

/// Law: the threshold is exactly the ceiling of a fifth of the exact
/// average length (len_a + len_b) / 2 — the least t with
/// 10 * t >= len_a + len_b, and zero only when both texts are empty.
pub proof fn lemma_threshold_is_ceiling(len_a: nat, len_b: nat)
    ensures
        10 * spec_threshold(len_a, len_b) >= len_a + len_b,
        spec_threshold(len_a, len_b) > 0 ==> 10 * (spec_threshold(len_a, len_b) - 1) < len_a
            + len_b,
        spec_threshold(len_a, len_b) == 0 ==> len_a + len_b == 0,
{
    let sum = len_a + len_b;
    assert(10 * ((sum + 9) / 10) >= sum) by (nonlinear_arith);
    assert((sum + 9) / 10 > 0 ==> 10 * ((sum + 9) / 10 - 1) < sum) by (nonlinear_arith);
    assert((sum + 9) / 10 == 0 ==> sum == 0) by (nonlinear_arith);
}

/// Whether an existing card and a candidate card are similar enough to be
/// treated as the same card.
pub open spec fn spec_similar(existing: Flashcard, candidate: Flashcard) -> bool {
    edit_distance(existing.question@, candidate.question@) <= spec_threshold(
        existing.question@.len(),
        candidate.question@.len(),
    )
}

/// The index of the first existing card similar to the candidate, in
/// stored order, or -1 when there is none.
pub open spec fn spec_match_index(existing: Seq<Flashcard>, candidate: Flashcard) -> int
    decreases existing.len(),
{
    if existing.len() == 0 {
        -1
    } else if spec_similar(existing[0], candidate) {
        0
    } else {
        let rest = spec_match_index(existing.drop_first(), candidate);
        if rest < 0 {
            -1
        } else {
            rest + 1
        }
    }
}

/// The decision for one candidate: matched to the first similar existing
/// card (its key is kept, the content becomes the candidate's), or new.
pub open spec fn spec_decide(existing: Seq<Flashcard>, candidate: Flashcard) -> CardType {
    let m = spec_match_index(existing, candidate);
    if m < 0 {
        CardType::New(candidate)
    } else {
        CardType::Old(
            Flashcard {
                id: existing[m].id,
                question: candidate.question,
                answer: candidate.answer,
                folder: candidate.folder,
                path: candidate.path,
            },
        )
    }
}

/// The match index is either -1 with no similar card at all, or a valid
/// index of a similar card.
proof fn lemma_match_index_properties(existing: Seq<Flashcard>, candidate: Flashcard)
    ensures
        spec_match_index(existing, candidate) == -1 || 0 <= spec_match_index(existing, candidate)
            < existing.len(),
        spec_match_index(existing, candidate) == -1 ==> forall|k: int|
            0 <= k < existing.len() ==> !spec_similar(existing[k], candidate),
        spec_match_index(existing, candidate) >= 0 ==> spec_similar(
            existing[spec_match_index(existing, candidate)],
            candidate,
        ),
    decreases existing.len(),
{
    if existing.len() == 0 {
    } else if spec_similar(existing[0], candidate) {
    } else {
        lemma_match_index_properties(existing.drop_first(), candidate);
        if spec_match_index(existing, candidate) == -1 {
            assert forall|k: int| 0 <= k < existing.len() implies !spec_similar(
                existing[k],
                candidate,
            ) by {
                if k > 0 {
                    assert(existing[k] == existing.drop_first()[k - 1]);
                }
            }
        }
    }
}

/// When the first similar card stands at index `j`, the match index is `j`.
proof fn lemma_match_index_first(existing: Seq<Flashcard>, candidate: Flashcard, j: int)
    requires
        0 <= j < existing.len(),
        spec_similar(existing[j], candidate),
        forall|k: int| 0 <= k < j ==> !spec_similar(existing[k], candidate),
    ensures
        spec_match_index(existing, candidate) == j,
    decreases j,
{
    if j == 0 {
    } else {
        assert(forall|k: int|
            0 <= k < existing.drop_first().len() ==> existing.drop_first()[k] == existing[k + 1]);
        lemma_match_index_first(existing.drop_first(), candidate, j - 1);
    }
}

/// Whether the two cards' question texts are within the similarity
/// threshold of each other.
fn is_similar(existing: &Flashcard, candidate: &Flashcard) -> (r: bool)
    ensures
        r == spec_similar(*existing, *candidate),
{
    let d = levenshtein(existing.question.as_str(), candidate.question.as_str());
    let len_a = existing.question.as_str().unicode_len();
    let len_b = candidate.question.as_str().unicode_len();
    let limit = (len_a as u128 + len_b as u128 + 9) / 10;
    d as u128 <= limit
}

/// Finds the first existing card similar to the candidate, in stored
/// order.
fn find_match(existing: &Vec<Flashcard>, candidate: &Flashcard) -> (m: Option<usize>)
    ensures
        match m {
            Some(j) => j < existing@.len() && spec_match_index(existing@, *candidate) == j,
            None => spec_match_index(existing@, *candidate) == -1,
        },
{
    let mut j: usize = 0;
    while j < existing.len()
        invariant
            j <= existing@.len(),
            forall|k: int| 0 <= k < j ==> !spec_similar(existing@[k], *candidate),
        decreases existing@.len() - j,
    {
        if is_similar(&existing[j], candidate) {
            proof {
                lemma_match_index_first(existing@, *candidate, j as int);
            }
            return Some(j);
        }
        j += 1;
    }
    proof {
        lemma_match_index_properties(existing@, *candidate);
    }
    None
}

/// Reconciles a batch of freshly parsed cards against the stored
/// collection: one decision per incoming card, in incoming order.
///
/// The cost is O(existing * incoming) full edit-distance computations and
/// each of those is quadratic in the question lengths; that is the
/// documented price of the design, acceptable for a personal collection.
/// The function is pure and deterministic: the decisions are a function of
/// the inputs alone.
pub fn sync(old_flashcards: &Vec<Flashcard>, new_flashcards: Vec<Flashcard>) -> (r: Vec<CardType>)
    ensures
        r@.len() == new_flashcards@.len(),
        forall|k: int|
            0 <= k < r@.len() ==> r@[k] == spec_decide(old_flashcards@, new_flashcards@[k]),
{
    let ghost incoming = new_flashcards@;
    let mut rest = new_flashcards;
    let mut result: Vec<CardType> = Vec::new();
    while rest.len() > 0
        invariant
            result@.len() + rest@.len() == incoming.len(),
            rest@ == incoming.skip(result@.len() as int),
            forall|k: int|
                0 <= k < result@.len() ==> result@[k] == spec_decide(old_flashcards@, incoming[k]),
        decreases rest@.len(),
    {
        let ghost done = result@.len() as int;
        let card = rest.remove(0);
        proof {
            assert(card == incoming[done]);
            assert(rest@ =~= incoming.skip(done + 1));
        }
        match find_match(old_flashcards, &card) {
            Some(j) => {
                let existing = &old_flashcards[j];
                let Flashcard { id: _, question, answer, folder, path } = card;
                result.push(
                    CardType::Old(Flashcard { id: existing.id, question, answer, folder, path }),
                );
            },
            None => {
                result.push(CardType::New(card));
            },
        }
    }
    result
}

/// Law: a candidate whose question is identical to some stored card's
/// question is always matched (the distance of a text to itself is zero,
/// and every threshold admits zero).
pub proof fn lemma_identical_question_matched(existing: Seq<Flashcard>, candidate: Flashcard)
    requires
        exists|i: int| 0 <= i < existing.len() && existing[i].question@ == candidate.question@,
    ensures
        spec_decide(existing, candidate) is Old,
{
    let i = choose|i: int|
        0 <= i < existing.len() && existing[i].question@ == candidate.question@;
    lemma_edit_distance_identical(existing[i].question@, candidate.question@);
    assert(spec_similar(existing[i], candidate));
    lemma_match_index_properties(existing, candidate);
}

/// Law: with no stored cards at all, every candidate is classified as new.
pub proof fn lemma_empty_existing_unmatched(candidate: Flashcard)
    ensures
        spec_decide(Seq::<Flashcard>::empty(), candidate) == CardType::New(candidate),
{
}

/// Law: reconciliation is deterministic. Any two outcomes that satisfy
/// the contract of `sync` for the same inputs are equal, decision by
/// decision; there is no hidden randomness.
pub proof fn lemma_sync_deterministic(
    existing: Seq<Flashcard>,
    incoming: Seq<Flashcard>,
    r1: Seq<CardType>,
    r2: Seq<CardType>,
)
    requires
        r1.len() == incoming.len(),
        forall|k: int| 0 <= k < r1.len() ==> r1[k] == spec_decide(existing, incoming[k]),
        r2.len() == incoming.len(),
        forall|k: int| 0 <= k < r2.len() ==> r2[k] == spec_decide(existing, incoming[k]),
    ensures
        r1 == r2,
{
    assert(r1 =~= r2);
}

} // verus!
