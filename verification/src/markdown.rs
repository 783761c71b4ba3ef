//! The markdown line parser: extracts candidate flashcards from the lines
//! of a note file.
//!
//! Two formats are recognized. A line whose text ends in a `#flashcard`
//! tag is a short card: the question is the text before the first `#`,
//! and the answer is every following line up to a horizontal rule. A line
//! that itself starts with `#flashcard` (after trimming) opens a long
//! card: the question is every line up to a rule, and the answer every
//! line up to the next rule. All other lines are ordinary note text and
//! are skipped. File reading is the unverified shell's job; this module
//! sees the lines as plain strings.

use vstd::prelude::*;

use crate::models::Flashcard;
use crate::text::first_hash;
use crate::text::first_hash_str;
use crate::text::has_flashcard_tag;
use crate::text::has_flashcard_tag_str;
use crate::text::is_hr;
use crate::text::is_hr_line;
use crate::text::starts_with;
use crate::text::starts_with_str;
use crate::text::trim;
use crate::text::trim_str;

verus! {

use vstd::string::StrSliceExecFns;
use vstd::string::StringExecFns;

/// Why a batch of lines was rejected.
#[derive(Debug, Clone, Copy, PartialEq, Eq)]
pub enum ParseError {
    /// A long-format card whose question or answer text is empty.
    EmptyCard,
    /// A tagged question line with no question text before the tag.
    EmptyQuestion,
    /// A tagged question with no answer text before the next rule.
    EmptyAnswer,
}

impl ParseError {
    /// The message for this rejection.
    pub open spec fn spec_message(&self) -> Seq<char> {
        match self {
            ParseError::EmptyCard => "Card cannot have an empty question or answer text"@,
            ParseError::EmptyQuestion => "Card cannot have empty question text"@,
            ParseError::EmptyAnswer => "Card cannot have empty answer text"@,
        }
    }

    /// The human-readable message for this rejection.
    pub fn message(&self) -> (r: &'static str)
        ensures
            r@ == self.spec_message(),
    {
        match self {
            ParseError::EmptyCard => "Card cannot have an empty question or answer text",
            ParseError::EmptyQuestion => "Card cannot have empty question text",
            ParseError::EmptyAnswer => "Card cannot have empty answer text",
        }
    }
}

/// The question and answer text of one parsed card, at specification
/// level.
pub struct CardText {
    pub question: Seq<char>,
    pub answer: Seq<char>,
}

/// The index of the first horizontal-rule line at or after `i`, or the
/// number of lines when no rule follows.
pub open spec fn hr_scan(lines: Seq<Seq<char>>, i: int) -> int
    decreases lines.len() - i,
{
    if i < 0 || i >= lines.len() {
        lines.len() as int
    } else if is_hr(lines[i]) {
        i
    } else {
        hr_scan(lines, i + 1)
    }
}

/// The scan stops at the first rule: everything before it is plain text.
proof fn lemma_hr_scan_bounds(lines: Seq<Seq<char>>, i: int)
    requires
        0 <= i <= lines.len(),
    ensures
        i <= hr_scan(lines, i) <= lines.len(),
        hr_scan(lines, i) < lines.len() ==> is_hr(lines[hr_scan(lines, i)]),
        forall|k: int| i <= k < hr_scan(lines, i) ==> !is_hr(lines[k]),
    decreases lines.len() - i,
{
    if i < lines.len() && !is_hr(lines[i]) {
        lemma_hr_scan_bounds(lines, i + 1);
    }
}

/// When no rule stands in `[start, i)` and one stands at `i` (or `i` is
/// the end), the scan from `start` lands on `i`.
proof fn lemma_hr_scan_at(lines: Seq<Seq<char>>, start: int, i: int)
    requires
        0 <= start <= i <= lines.len(),
        forall|k: int| start <= k < i ==> !is_hr(lines[k]),
        i < lines.len() ==> is_hr(lines[i]),
    ensures
        hr_scan(lines, start) == i,
    decreases i - start,
{
    if start < i {
        lemma_hr_scan_at(lines, start + 1, i);
    }
}

/// The text of the lines in `[i, end)`: each line trimmed, a newline
/// after each.
pub open spec fn block_text(lines: Seq<Seq<char>>, i: int, end: int) -> Seq<char>
    decreases end - i,
{
    if i >= end {
        Seq::empty()
    } else {
        trim(lines[i]) + "\n"@ + block_text(lines, i + 1, end)
    }
}

/// Extending a block by one line appends that line's trimmed text and a
/// newline.
proof fn lemma_block_text_snoc(lines: Seq<Seq<char>>, i: int, end: int)
    requires
        i <= end,
    ensures
        block_text(lines, i, end + 1) == block_text(lines, i, end) + trim(lines[end]) + "\n"@,
    decreases end - i,
{
    if i >= end {
        assert(block_text(lines, end + 1, end + 1) == Seq::<char>::empty());
        assert(block_text(lines, i, end) == Seq::<char>::empty());
        assert(block_text(lines, i, end + 1) == trim(lines[end]) + "\n"@ + Seq::<char>::empty());
        assert(trim(lines[end]) + "\n"@ + Seq::<char>::empty() =~= (Seq::<char>::empty() + trim(
            lines[end],
        )) + "\n"@);
    } else {
        lemma_block_text_snoc(lines, i + 1, end);
        assert(trim(lines[i]) + "\n"@ + (block_text(lines, i + 1, end) + trim(lines[end]) + "\n"@)
            =~= (trim(lines[i]) + "\n"@ + block_text(lines, i + 1, end)) + trim(lines[end])
            + "\n"@);
    }
}

/// The line after a scanned block: past the rule that ended it, or the
/// end of the input.
pub open spec fn next_index(lines: Seq<Seq<char>>, end: int) -> int {
    if end < lines.len() {
        end + 1
    } else {
        end
    }
}

/// The parse of the lines from `i` on: the cards found, in order, or the
/// first rejection.
pub open spec fn parse_from(lines: Seq<Seq<char>>, i: int) -> Result<Seq<CardText>, ParseError>
    decreases lines.len() - i,
        via parse_from_decreases
{
    if !(0 <= i < lines.len()) {
        Ok(Seq::empty())
    } else {
        let line = lines[i];
        if starts_with(trim(line), "#flashcard"@) {
            let q_end = hr_scan(lines, i + 1);
            let question = block_text(lines, i + 1, q_end);
            let a_start = next_index(lines, q_end);
            let a_end = hr_scan(lines, a_start);
            let answer = block_text(lines, a_start, a_end);
            if question.len() == 0 || answer.len() == 0 {
                Err(ParseError::EmptyCard)
            } else {
                match parse_from(lines, next_index(lines, a_end)) {
                    Ok(rest) => Ok(seq![CardText { question, answer }] + rest),
                    Err(e) => Err(e),
                }
            }
        } else if !has_flashcard_tag(line) {
            parse_from(lines, i + 1)
        } else {
            let question = trim(line.take(first_hash(line)));
            if question.len() == 0 {
                Err(ParseError::EmptyQuestion)
            } else {
                let a_end = hr_scan(lines, i + 1);
                let answer = block_text(lines, i + 1, a_end);
                if answer.len() == 0 {
                    Err(ParseError::EmptyAnswer)
                } else {
                    match parse_from(lines, next_index(lines, a_end)) {
                        Ok(rest) => Ok(seq![CardText { question, answer }] + rest),
                        Err(e) => Err(e),
                    }
                }
            }
        }
    }
}

#[via_fn]
proof fn parse_from_decreases(lines: Seq<Seq<char>>, i: int) {
    if 0 <= i < lines.len() {
        lemma_hr_scan_bounds(lines, i + 1);
        lemma_hr_scan_bounds(lines, next_index(lines, hr_scan(lines, i + 1)));
    }
}

/// The texts of the given cards.
pub open spec fn card_texts(cards: Seq<Flashcard>) -> Seq<CardText> {
    cards.map_values(|c: Flashcard| CardText { question: c.question@, answer: c.answer@ })
}

/// Whether every card is freshly parsed: no identity key, no provenance
/// yet.
pub open spec fn fresh_cards(cards: Seq<Flashcard>) -> bool {
    forall|k: int|
        0 <= k < cards.len() ==> (#[trigger] cards[k]).id is None && cards[k].folder is None
            && cards[k].path is None
}

/// Collects trimmed lines, each followed by a newline, until a horizontal
/// rule or the end of the input; returns the text and the index of the
/// line after the block.
pub fn read_until_hr(lines: &Vec<String>, start: usize) -> (r: (String, usize))
    requires
        start <= lines@.len(),
    ensures
        r.0@ == block_text(
            lines.deep_view(),
            start as int,
            hr_scan(lines.deep_view(), start as int),
        ),
        r.1 == next_index(lines.deep_view(), hr_scan(lines.deep_view(), start as int)),
        start <= r.1 <= lines@.len(),
{
    let ghost dv = lines.deep_view();
    proof {
        assert(dv.len() == lines@.len());
    }
    let mut text = String::new();
    let mut i: usize = start;
    while i < lines.len()
        invariant
            dv == lines.deep_view(),
            dv.len() == lines@.len(),
            start <= i <= lines@.len(),
            forall|k: int| start <= k < i ==> !is_hr(dv[k]),
            text@ == block_text(dv, start as int, i as int),
        ensures
            start <= i <= lines@.len(),
            forall|k: int| start <= k < i ==> !is_hr(dv[k]),
            text@ == block_text(dv, start as int, i as int),
            i < lines@.len() ==> is_hr(dv[i as int]),
        decreases lines@.len() - i,
    {
        let line = &lines[i];
        if is_hr_line(line.as_str()) {
            break ;
        }
        let t = trim_str(line.as_str());
        text.append(t.as_str());
        text.append("\n");
        proof {
            lemma_block_text_snoc(dv, start as int, i as int);
            assert(text@ == block_text(dv, start as int, i as int) + trim(dv[i as int]) + "\n"@);
        }
        i += 1;
    }
    proof {
        lemma_hr_scan_at(dv, start as int, i as int);
    }
    if i < lines.len() {
        (text, i + 1)
    } else {
        (text, i)
    }
}

/// Parses a long-format card whose opening `#flashcard` marker line has
/// already been consumed: the question is the block of lines up to a
/// horizontal rule, the answer the block up to the next one; neither may
/// be empty. Returns the card and the index of the line after it.
pub fn long_question(lines: &Vec<String>, start: usize) -> (r: Result<(Flashcard, usize), ParseError>)
    requires
        start <= lines@.len(),
    ensures
        ({
            let dv = lines.deep_view();
            let q_end = hr_scan(dv, start as int);
            let question = block_text(dv, start as int, q_end);
            let a_start = next_index(dv, q_end);
            let a_end = hr_scan(dv, a_start);
            let answer = block_text(dv, a_start, a_end);
            match r {
                Ok((card, next)) => question.len() > 0 && answer.len() > 0 && card.question@
                    == question && card.answer@ == answer && card.id is None && card.folder is None
                    && card.path is None && next == next_index(dv, a_end) && start <= next
                    <= lines@.len(),
                Err(e) => e == ParseError::EmptyCard && (question.len() == 0 || answer.len()
                    == 0),
            }
        }),
{
    let (question, after_q) = read_until_hr(lines, start);
    let (answer, after_a) = read_until_hr(lines, after_q);
    if question.as_str().is_empty() || answer.as_str().is_empty() {
        return Err(ParseError::EmptyCard);
    }
    Ok((Flashcard { id: None, question, answer, folder: None, path: None }, after_a))
}

/// Parses the lines of a markdown note file into the candidate cards they
/// hold, in file order, or the first rejection. The cards come without
/// identity keys or provenance; reconciliation and tagging happen later.
pub fn read_markdown(lines: &Vec<String>) -> (r: Result<Vec<Flashcard>, ParseError>)
    ensures
        ({
            let p = parse_from(lines.deep_view(), 0);
            match r {
                Ok(cards) => p == Ok::<Seq<CardText>, ParseError>(card_texts(cards@)) && fresh_cards(cards@),
                Err(e) => p == Err::<Seq<CardText>, ParseError>(e),
            }
        }),
{
    let ghost dv = lines.deep_view();
    let mut cards: Vec<Flashcard> = Vec::new();
    let mut i: usize = 0;
    proof {
        assert(dv.len() == lines@.len());
        assert(card_texts(cards@) =~= Seq::<CardText>::empty());
        if parse_from(dv, 0) is Ok {
            assert(card_texts(cards@) + parse_from(dv, 0)->Ok_0 =~= parse_from(dv, 0)->Ok_0);
        }
    }
    while i < lines.len()
        invariant
            dv == lines.deep_view(),
            dv.len() == lines@.len(),
            i <= lines@.len(),
            fresh_cards(cards@),
            match parse_from(dv, i as int) {
                Ok(rest) => parse_from(dv, 0) == Ok::<Seq<CardText>, ParseError>(card_texts(cards@) + rest),
                Err(e) => parse_from(dv, 0) == Err::<Seq<CardText>, ParseError>(e),
            },
        decreases lines@.len() - i,
    {
        let ghost i0 = i as int;
        let line = &lines[i];
        let trimmed = trim_str(line.as_str());
        if starts_with_str(trimmed.as_str(), "#flashcard") {
            // Long format: the question block, a rule, the answer block.
            match long_question(lines, i + 1) {
                Ok((card, next)) => {
                    let ghost ct = CardText { question: card.question@, answer: card.answer@ };
                    let ghost prior = cards@;
                    cards.push(card);
                    proof {
                        lemma_read_step(dv, i0, prior, cards@.last(), ct, next as int);
                    }
                    i = next;
                },
                Err(e) => {
                    proof {
                        assert(parse_from(dv, i0) == Err::<Seq<CardText>, ParseError>(
                            ParseError::EmptyCard,
                        ));
                    }
                    return Err(e);
                },
            }
        } else if !has_flashcard_tag_str(line.as_str()) {
            // An ordinary note line; not a card.
            i = i + 1;
        } else {
            // Short format: question text before the first '#', the
            // answer on the following lines up to a rule.
            let fh = first_hash_str(line.as_str());
            let prefix = line.as_str().substring_char(0, fh);
            proof {
                assert(prefix@ =~= dv[i0].take(first_hash(dv[i0])));
            }
            let question = trim_str(prefix);
            if question.as_str().is_empty() {
                proof {
                    assert(parse_from(dv, i0) == Err::<Seq<CardText>, ParseError>(
                        ParseError::EmptyQuestion,
                    ));
                }
                return Err(ParseError::EmptyQuestion);
            }
            let (answer, after_a) = read_until_hr(lines, i + 1);
            if answer.as_str().is_empty() {
                proof {
                    assert(parse_from(dv, i0) == Err::<Seq<CardText>, ParseError>(
                        ParseError::EmptyAnswer,
                    ));
                }
                return Err(ParseError::EmptyAnswer);
            }
            let ghost ct = CardText { question: question@, answer: answer@ };
            let ghost prior = cards@;
            cards.push(Flashcard { id: None, question, answer, folder: None, path: None });
            proof {
                lemma_read_step(dv, i0, prior, cards@.last(), ct, after_a as int);
            }
            i = after_a;
        }
    }
    proof {
        assert(parse_from(dv, i as int) == Ok::<Seq<CardText>, ParseError>(Seq::empty()));
        assert(card_texts(cards@) + Seq::<CardText>::empty() =~= card_texts(cards@));
    }
    Ok(cards)
}

/// One step of the main parse loop: when the card just pushed is the one
/// the specification parses at line `i0`, the composed invariant carries
/// over to the rest of the input.
proof fn lemma_read_step(
    dv: Seq<Seq<char>>,
    i0: int,
    prior: Seq<Flashcard>,
    card: Flashcard,
    ct: CardText,
    next: int,
)
    requires
        card.question@ == ct.question,
        card.answer@ == ct.answer,
        parse_from(dv, i0) == (match parse_from(dv, next) {
            Ok(rest) => Ok::<Seq<CardText>, ParseError>(seq![ct] + rest),
            Err(e) => Err::<Seq<CardText>, ParseError>(e),
        }),
        match parse_from(dv, i0) {
            Ok(rest) => parse_from(dv, 0) == Ok::<Seq<CardText>, ParseError>(
                card_texts(prior) + rest,
            ),
            Err(e) => parse_from(dv, 0) == Err::<Seq<CardText>, ParseError>(e),
        },
    ensures
        match parse_from(dv, next) {
            Ok(rest) => parse_from(dv, 0) == Ok::<Seq<CardText>, ParseError>(
                card_texts(prior.push(card)) + rest,
            ),
            Err(e) => parse_from(dv, 0) == Err::<Seq<CardText>, ParseError>(e),
        },
{
    match parse_from(dv, next) {
        Ok(rest) => {
            assert(card_texts(prior) + (seq![ct] + rest) =~= card_texts(prior.push(card)) + rest);
        },
        Err(_) => {
        },
    }
}

} // verus!
