//! The score of one expedition.

use vstd::prelude::*;
use crate::cards::{Card, card_value, is_card, is_point_card, read_card};
use crate::error::Error;
use crate::text::{is_white_space, trim_end, trim_start, trim_text, trimmed};
use crate::validate::{allowance, lemma_uses_subrange, uses};

verus! {

/// The fixed cost of opening an expedition.
pub const EXPEDITION_COST: i16 = 20;

/// The bonus for an expedition text of at least eight characters.
pub const LENGTH_BONUS: i16 = 20;

/// The text length from which the bonus is paid.
pub const LENGTH_BONUS_FROM: usize = 8;

/// The ranks of the lexicon: `d`, `2`..`9` and `t`.
pub open spec fn is_rank(k: char) -> bool {
    k == 'd' || ('2' <= k && k <= '9') || k == 't'
}

/// No card rank of `s` is used beyond its allowance (three doublers, one of
/// each numbered rank); other characters are not limited here.
pub open spec fn within_card_limits(s: Seq<char>) -> bool {
    forall|k: char| is_rank(k) ==> #[trigger] uses(s, k) <= allowance(k)
}

/// The number of doublers in `s`.
pub open spec fn doublers(s: Seq<char>) -> nat {
    uses(s, 'd')
}

/// The points of all numbered cards in `s`.
pub open spec fn raw_sum(s: Seq<char>) -> int
    decreases s.len(),
{
    if s.len() == 0 {
        0
    } else {
        raw_sum(s.drop_last()) + card_value(s.last())
    }
}

/// The first character of `s` that is no card, if any.
pub open spec fn first_unknown(s: Seq<char>) -> Option<char>
    decreases s.len(),
{
    if s.len() == 0 {
        None
    } else if !is_card(s[0]) {
        Some(s[0])
    } else {
        first_unknown(s.drop_first())
    }
}

/// The bonus for a text of `text_len` characters.
pub open spec fn length_bonus(text_len: nat) -> int {
    if text_len >= LENGTH_BONUS_FROM {
        LENGTH_BONUS as int
    } else {
        0
    }
}

/// The score of the cards `cards` written in a text of `text_len`
/// characters: the points less the cost, times one more than the number of
/// doublers, plus the length bonus.
pub open spec fn expedition_score(cards: Seq<char>, text_len: nat) -> int {
    (raw_sum(cards) - EXPEDITION_COST) * (doublers(cards) + 1) + length_bonus(text_len)
}

/// What scoring the expedition text `text` gives: its cards are the text
/// without surrounding white space; no cards at all score nothing; the
/// bonus goes by the whole text's length; the first character that is no
/// card is an error.
pub open spec fn expedition_outcome(text: Seq<char>) -> Result<int, char> {
    let cards = trimmed(text);
    match first_unknown(cards) {
        Some(c) => Err(c),
        None => Ok(
            if cards.len() == 0 {
                0
            } else {
                expedition_score(cards, text.len())
            },
        ),
    }
}

proof fn lemma_trim_start_suffix(s: Seq<char>) -> (a: int)
    ensures
        0 <= a <= s.len(),
        trim_start(s) == s.subrange(a, s.len() as int),
    decreases s.len(),
{
    if s.len() > 0 && is_white_space(s[0]) {
        let b = lemma_trim_start_suffix(s.drop_first());
        assert(s.drop_first().subrange(b, s.len() - 1) =~= s.subrange(b + 1, s.len() as int));
        b + 1
    } else {
        assert(s.subrange(0, s.len() as int) =~= s);
        0
    }
}

proof fn lemma_trim_end_prefix(s: Seq<char>) -> (b: int)
    ensures
        0 <= b <= s.len(),
        trim_end(s) == s.subrange(0, b),
    decreases s.len(),
{
    if s.len() > 0 && is_white_space(s.last()) {
        let b = lemma_trim_end_prefix(s.drop_last());
        assert(s.drop_last().subrange(0, b) =~= s.subrange(0, b));
        b
    } else {
        assert(s.subrange(0, s.len() as int) =~= s);
        s.len() as int
    }
}

/// Trimming keeps a run of consecutive characters of the text.
pub proof fn lemma_trimmed_subrange(s: Seq<char>) -> (ab: (int, int))
    ensures
        0 <= ab.0 <= ab.1 <= s.len(),
        trimmed(s) == s.subrange(ab.0, ab.1),
{
    let a = lemma_trim_start_suffix(s);
    let t = s.subrange(a, s.len() as int);
    let b = lemma_trim_end_prefix(t);
    assert(t.subrange(0, b) =~= s.subrange(a, a + b));
    (a, a + b)
}

/// A run of consecutive characters of a text within the card limits is
/// within them too.
pub proof fn lemma_limits_subrange(s: Seq<char>, a: int, b: int)
    requires
        within_card_limits(s),
        0 <= a <= b <= s.len(),
    ensures
        within_card_limits(s.subrange(a, b)),
{
    assert forall|k: char| is_rank(k) implies #[trigger] uses(s.subrange(a, b), k) <= allowance(
        k,
    ) by {
        lemma_uses_subrange(s, a, b, k);
    }
}

/// The points of a text are the sum over the numbered ranks of their value
/// times their number of uses.
pub proof fn lemma_raw_sum_by_rank(s: Seq<char>)
    ensures
        raw_sum(s) == 2 * uses(s, '2') + 3 * uses(s, '3') + 4 * uses(s, '4') + 5 * uses(s, '5')
            + 6 * uses(s, '6') + 7 * uses(s, '7') + 8 * uses(s, '8') + 9 * uses(s, '9') + 10
            * uses(s, 't'),
    decreases s.len(),
{
    if s.len() > 0 {
        lemma_raw_sum_by_rank(s.drop_last());
        let c = s.last();
        if '2' <= c && c <= '9' {
            assert(c == '2' || c == '3' || c == '4' || c == '5' || c == '6' || c == '7' || c
                == '8' || c == '9');
        }
    }
}

/// Within the card limits, the points are at most 54 and the doublers at
/// most three.
pub proof fn lemma_limits_bound(s: Seq<char>)
    requires
        within_card_limits(s),
    ensures
        0 <= raw_sum(s) <= 54,
        doublers(s) <= 3,
{
    lemma_raw_sum_by_rank(s);
    assert(is_rank('2') && is_rank('3') && is_rank('4') && is_rank('5') && is_rank('6')
        && is_rank('7') && is_rank('8') && is_rank('9') && is_rank('t') && is_rank('d'));
    assert(uses(s, '2') <= 1 && uses(s, '3') <= 1 && uses(s, '4') <= 1 && uses(s, '5') <= 1
        && uses(s, '6') <= 1 && uses(s, '7') <= 1 && uses(s, '8') <= 1 && uses(s, '9') <= 1
        && uses(s, 't') <= 1 && uses(s, 'd') <= 3);
}

/// Within the card limits, an expedition scores between -80 and 156.
pub proof fn lemma_score_bound(s: Seq<char>, text_len: nat)
    requires
        within_card_limits(s),
    ensures
        -80 <= expedition_score(s, text_len) <= 156,
{
    lemma_limits_bound(s);
    let r = raw_sum(s);
    let d = doublers(s) as int;
    assert(-80 <= (r - 20) * (d + 1) <= 136) by (nonlinear_arith)
        requires
            0 <= r <= 54,
            0 <= d <= 3,
    ;
}

proof fn lemma_first_unknown_at(s: Seq<char>, i: int)
    requires
        0 <= i < s.len(),
        forall|j: int| 0 <= j < i ==> is_card(#[trigger] s[j]),
        !is_card(s[i]),
    ensures
        first_unknown(s) == Some(s[i]),
    decreases i,
{
    if i > 0 {
        let t = s.drop_first();
        assert forall|j: int| 0 <= j < i - 1 implies is_card(#[trigger] t[j]) by {
            assert(t[j] == s[j + 1]);
        }
        lemma_first_unknown_at(t, i - 1);
    }
}

/// A text of cards only has no unknown character.
pub proof fn lemma_first_unknown_none(s: Seq<char>)
    requires
        forall|j: int| 0 <= j < s.len() ==> is_card(#[trigger] s[j]),
    ensures
        first_unknown(s) == None::<char>,
    decreases s.len(),
{
    if s.len() > 0 {
        let t = s.drop_first();
        assert forall|j: int| 0 <= j < t.len() implies is_card(#[trigger] t[j]) by {
            assert(t[j] == s[j + 1]);
        }
        lemma_first_unknown_none(t);
    }
}

/// Scores one expedition text. The text must keep to the card limits, as a
/// validated expedition does; a character that is no card is an error.
pub fn calc_expedition_score(cards_text: &str) -> (r: Result<i16, Error>)
    requires
        within_card_limits(cards_text@),
    ensures
        match (r, expedition_outcome(cards_text@)) {
            (Ok(v), Ok(w)) => v == w,
            (Err(e), Err(c)) => e == Error::CardError(c),
            _ => false,
        },
{
    let cards = trim_text(cards_text);
    let ghost u = cards@;
    proof {
        let ab = lemma_trimmed_subrange(cards_text@);
        lemma_limits_subrange(cards_text@, ab.0, ab.1);
    }
    let n = cards.unicode_len();
    let mut points: i16 = 0;
    let mut doubled: i16 = 0;
    let mut i: usize = 0;
    for c in it: cards.chars()
        invariant
            u == cards@,
            u == trimmed(cards_text@),
            within_card_limits(u),
            n == u.len(),
            it.seq() == u,
            i == it.index(),
            i <= n,
            points == raw_sum(u.take(i as int)),
            doubled == doublers(u.take(i as int)),
            forall|j: int| 0 <= j < i ==> is_card(#[trigger] u[j]),
    {
        let ghost next = u.take(i as int + 1);
        proof {
            assert(next.drop_last() =~= u.take(i as int));
            lemma_limits_subrange(u, 0, i as int + 1);
            assert(next == u.subrange(0, i as int + 1));
            lemma_limits_bound(next);
        }
        match read_card(c) {
            None => {
                proof {
                    lemma_first_unknown_at(u, i as int);
                }
                return Err(Error::CardError(c));
            },
            Some(Card::Doubler) => {
                doubled = doubled + 1;
            },
            Some(Card::Points(p)) => {
                points = points + p as i16;
            },
        }
        i = i + 1;
    }
    proof {
        assert(u.take(i as int) =~= u);
        lemma_first_unknown_none(u);
        lemma_limits_bound(u);
        assert(-80 <= (points - 20) * (doubled + 1) <= 136) by (nonlinear_arith)
            requires
                0 <= points <= 54,
                0 <= doubled <= 3,
        ;
    }
    if n == 0 {
        return Ok(0);
    }
    let mut score: i16 = (points - EXPEDITION_COST) * (doubled + 1);
    if cards_text.unicode_len() >= LENGTH_BONUS_FROM {
        score = score + LENGTH_BONUS;
    }
    Ok(score)
}

} // verus!

verus! {

/// A text that neither starts nor ends with white space trims to itself.
pub proof fn lemma_trimmed_plain(s: Seq<char>)
    requires
        s.len() > 0 ==> !is_white_space(s[0]) && !is_white_space(s.last()),
    ensures
        trimmed(s) == s,
{
}

/// Points add up over a concatenation.
pub proof fn lemma_raw_sum_concat(x: Seq<char>, y: Seq<char>)
    ensures
        raw_sum(x + y) == raw_sum(x) + raw_sum(y),
    decreases y.len(),
{
    if y.len() > 0 {
        lemma_raw_sum_concat(x, y.drop_last());
        assert((x + y).drop_last() =~= x + y.drop_last());
    } else {
        assert(x + y =~= x);
    }
}

/// A run of `n` doublers.
pub open spec fn doubler_run(n: nat) -> Seq<char> {
    Seq::new(n, |i: int| 'd')
}

proof fn lemma_doubler_run(n: nat)
    ensures
        raw_sum(doubler_run(n)) == 0,
        doublers(doubler_run(n)) == n,
    decreases n,
{
    if n > 0 {
        lemma_doubler_run((n - 1) as nat);
        assert(doubler_run(n).drop_last() =~= doubler_run((n - 1) as nat));
    } else {
        assert(doubler_run(n) =~= Seq::<char>::empty());
    }
}

proof fn lemma_no_doublers(s: Seq<char>)
    requires
        forall|i: int| 0 <= i < s.len() ==> is_point_card(#[trigger] s[i]),
    ensures
        doublers(s) == 0,
    decreases s.len(),
{
    if s.len() > 0 {
        let t = s.drop_last();
        assert forall|i: int| 0 <= i < t.len() implies is_point_card(#[trigger] t[i]) by {
            assert(t[i] == s[i]);
        }
        lemma_no_doublers(t);
        assert(is_point_card(s[s.len() - 1]));
    }
}

/// Doublers alone: one, two or three `d` cards score `-20` times one more
/// than their number.
pub proof fn lemma_doublers_alone(n: nat)
    requires
        1 <= n <= 3,
    ensures
        expedition_outcome(doubler_run(n)) == Ok::<int, char>(-20 * (n + 1)),
{
    let s = doubler_run(n);
    lemma_trimmed_plain(s);
    lemma_doubler_run(n);
    assert forall|j: int| 0 <= j < s.len() implies is_card(#[trigger] s[j]) by {}
    lemma_first_unknown_none(s);
}

/// An expedition of one or more numbered cards alone, shorter than eight
/// characters, scores its points less twenty.
pub proof fn lemma_numbered_short(s: Seq<char>)
    requires
        0 < s.len() < LENGTH_BONUS_FROM,
        forall|i: int| 0 <= i < s.len() ==> is_point_card(#[trigger] s[i]),
    ensures
        expedition_outcome(s) == Ok::<int, char>(raw_sum(s) - 20),
{
    assert(is_point_card(s[0]) && is_point_card(s[s.len() - 1]));
    lemma_trimmed_plain(s);
    lemma_no_doublers(s);
    assert forall|j: int| 0 <= j < s.len() implies is_card(#[trigger] s[j]) by {
        assert(is_point_card(s[j]));
    }
    lemma_first_unknown_none(s);
    lemma_times_one(raw_sum(s) - 20);
}

/// The length bonus is a flat twenty from eight characters on, whatever the
/// sign of the rest of the score, and nothing below.
pub proof fn lemma_length_bonus_flat(cards: Seq<char>, text_len: nat)
    ensures
        text_len >= LENGTH_BONUS_FROM ==> expedition_score(cards, text_len) == expedition_score(
            cards,
            0,
        ) + 20,
        text_len < LENGTH_BONUS_FROM ==> expedition_score(cards, text_len) == expedition_score(
            cards,
            0,
        ),
{
}

/// Doublers put in front of numbered cards multiply their net score, and the
/// length bonus is added after the multiplication.
pub proof fn lemma_doubling_then_bonus(k: nat, cards: Seq<char>, text_len: nat)
    requires
        forall|i: int| 0 <= i < cards.len() ==> is_point_card(#[trigger] cards[i]),
    ensures
        expedition_score(doubler_run(k) + cards, text_len) == expedition_score(cards, 0) * (k + 1)
            + length_bonus(text_len),
{
    lemma_doubler_run(k);
    lemma_no_doublers(cards);
    lemma_raw_sum_concat(doubler_run(k), cards);
    crate::validate::lemma_uses_concat(doubler_run(k), cards, 'd');
    let s = doubler_run(k) + cards;
    assert(raw_sum(s) == raw_sum(cards));
    assert(doublers(s) == k);
    lemma_times_one(raw_sum(cards) - 20);
}

proof fn lemma_times_one(x: int)
    ensures
        x * 1 == x,
{
    assert(x * 1 == x) by (nonlinear_arith);
}

} // verus!
