//! Review scheduling: deciding from a card's answer history whether the
//! card is due for review now.

use vstd::prelude::*;

use crate::models::Answer;

verus! {

use vstd::arithmetic::power2::lemma2_to64;
use vstd::arithmetic::power2::lemma_pow2_strictly_increases;
use vstd::arithmetic::power2::lemma_pow2_unfold;
use vstd::arithmetic::power2::pow2;

/// Whether one answer passes: its rating reached the minimum.
pub open spec fn spec_is_correct(minimum_rating: int, answer: Answer) -> bool {
    answer.answer_rating >= minimum_rating
}

/// The streak: how many of the most recent answers pass, walking backward
/// from the latest until a failing answer or the start of the history.
pub open spec fn spec_streak(minimum_rating: int, answers: Seq<Answer>) -> nat
    decreases answers.len(),
{
    if answers.len() == 0 {
        0
    } else if !spec_is_correct(minimum_rating, answers.last()) {
        0
    } else {
        1 + spec_streak(minimum_rating, answers.drop_last())
    }
}

/// The scheduling decision over a history sorted oldest to newest, with
/// the current time supplied by the caller as seconds since the epoch.
///
/// A card is due when it was never answered, or the latest answer failed,
/// or the review interval of 2^(streak - 1) days has reached the
/// configured day limit (so no card is deferred forever), or at least
/// that many days have passed since the latest answer.
pub open spec fn spec_due(minimum_rating: int, limit: int, answers: Seq<Answer>, now: int) -> bool {
    if answers.len() == 0 {
        true
    } else if !spec_is_correct(minimum_rating, answers.last()) {
        true
    } else {
        let interval = pow2((spec_streak(minimum_rating, answers) - 1) as nat) as int;
        if interval >= limit {
            true
        } else {
            now - answers.last().timestamp >= 86400 * interval
        }
    }
}

/// A repetition algorithm decides, per card, whether the card should be
/// offered for review. Implementations fix the meaning through
/// `spec_repeat_question`.
pub trait RepetitionAlgorithm {
    /// The decision this algorithm makes, as a mathematical function of
    /// the history and the current time.
    spec fn spec_repeat_question(&self, answers: Seq<Answer>, now: i64) -> bool;

    /// Returns true if the question should be offered, otherwise returns
    /// false. The answers must be sorted by timestamp, with the most
    /// recent answer being the last one; `now` is the current time in
    /// seconds since the epoch, supplied by the caller so the decision
    /// stays a pure, testable computation.
    fn repeat_question(&self, answers: &Vec<Answer>, now: i64) -> (r: bool)
        ensures
            r == self.spec_repeat_question(answers@, now),
    ;
}

/// A naive exponential spaced repetition algorithm.
/// The questions are repeated after 2^N days, where N is the number of
/// consecutive good answers at the end of the history; earlier results
/// beyond that streak are ignored.
pub struct NaiveExponentialRA {
    pub minimum_rating: i32,
    /// A maximum day limit which overrides the normal exponential
    /// procedure: once the computed interval reaches it, the question is
    /// always repeated.
    pub limit: i32,
}

/// When the tail `answers[len - t ..]` all pass and the answer just
/// before it (if any) fails, the streak is exactly `t`.
proof fn lemma_streak_value(minimum_rating: int, answers: Seq<Answer>, t: int)
    requires
        0 <= t <= answers.len(),
        forall|k: int|
            answers.len() - t <= k < answers.len() ==> spec_is_correct(minimum_rating, answers[k]),
        t < answers.len() ==> !spec_is_correct(minimum_rating, answers[answers.len() - 1 - t]),
    ensures
        spec_streak(minimum_rating, answers) == t,
    decreases t,
{
    if t > 0 {
        lemma_streak_value(minimum_rating, answers.drop_last(), t - 1);
    }
}

impl NaiveExponentialRA {
    pub fn new(minimum_rating: i32, limit: i32) -> (r: Self)
        ensures
            r == (NaiveExponentialRA { minimum_rating, limit }),
    {
        Self { minimum_rating, limit }
    }

    fn is_correct(&self, answer: &Answer) -> (r: bool)
        ensures
            r == spec_is_correct(self.minimum_rating as int, *answer),
    {
        answer.answer_rating >= self.minimum_rating
    }
}

impl RepetitionAlgorithm for NaiveExponentialRA {
    open spec fn spec_repeat_question(&self, answers: Seq<Answer>, now: i64) -> bool {
        spec_due(self.minimum_rating as int, self.limit as int, answers, now as int)
    }

    fn repeat_question(&self, answers: &Vec<Answer>, now: i64) -> (r: bool)
        ensures
            r == self.spec_repeat_question(answers@, now),
    {
        let len = answers.len();
        if len == 0 {
            return true;
        }
        if !self.is_correct(&answers[len - 1]) {
            return true;
        }
        // Count the streak of consecutive passing answers from the end.
        let mut t: usize = 1;
        while t < len && answers[len - 1 - t].answer_rating >= self.minimum_rating
            invariant
                1 <= t <= len,
                len == answers@.len(),
                forall|k: int|
                    len - t <= k < len ==> spec_is_correct(self.minimum_rating as int, answers@[k]),
            decreases len - t,
    // t now is the streak length
    {
            t += 1;
        }
        proof {
            lemma_streak_value(self.minimum_rating as int, answers@, t as int);
        }
        if t >= 32 {
            // 2^(t - 1) is at least 2^31, which exceeds any i32 limit.
            proof {
                lemma2_to64();
                if t - 1 > 31 {
                    lemma_pow2_strictly_increases(31, (t - 1) as nat);
                }
            }
            return true;
        }
        // interval = 2^(t - 1), with t - 1 at most 30, so it fits easily.
        proof {
            lemma2_to64();
        }
        let mut interval: i64 = 1;
        let mut e: usize = 0;
        while e < t - 1
            invariant
                t <= 31,
                e <= t - 1,
                interval == pow2(e as nat),
            decreases t - 1 - e,
        {
            proof {
                lemma2_to64();
                lemma_pow2_unfold((e + 1) as nat);
                if e + 1 < 31 {
                    lemma_pow2_strictly_increases((e + 1) as nat, 31);
                }
            }
            interval = 2 * interval;
            e += 1;
        }
        proof {
            lemma2_to64();
            if t - 1 < 31 {
                lemma_pow2_strictly_increases((t - 1) as nat, 31);
            }
        }
        if interval >= self.limit as i64 {
            return true;
        }
        // Days elapsed since the most recent answer, saturated at the i64
        // range ends; saturation cannot change the comparison's outcome.
        let ts = answers[len - 1].timestamp;
        let diff = match now.checked_sub(ts) {
            Some(d) => d,
            None => {
                if ts < 0 {
                    i64::MAX
                } else {
                    i64::MIN
                }
            },
        };
        diff >= 86400 * interval
    }
}

/// Law: a card with no history at all is always due, whatever the
/// thresholds.
pub proof fn lemma_empty_history_due(minimum_rating: int, limit: int, now: int)
    ensures
        spec_due(minimum_rating, limit, Seq::<Answer>::empty(), now),
{
}

/// Law: a card whose most recent answer failed is always due, whatever
/// came before it.
pub proof fn lemma_failing_last_due(
    minimum_rating: int,
    limit: int,
    answers: Seq<Answer>,
    now: int,
)
    requires
        answers.len() > 0,
        answers.last().answer_rating < minimum_rating,
    ensures
        spec_due(minimum_rating, limit, answers, now),
{
}

/// Law: once the computed interval 2^(streak - 1) reaches the day limit,
/// the card is due regardless of how recently it was answered.
pub proof fn lemma_interval_cap_due(
    minimum_rating: int,
    limit: int,
    answers: Seq<Answer>,
    now: int,
)
    requires
        answers.len() > 0,
        pow2((spec_streak(minimum_rating, answers) - 1) as nat) >= limit,
    ensures
        spec_due(minimum_rating, limit, answers, now),
{
}

} // verus!
