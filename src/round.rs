//! The score of a player's whole round submission.

use vstd::prelude::*;
use crate::cards::is_card;
use crate::error::Error;
use crate::score::{
    calc_expedition_score, expedition_outcome, expedition_score, lemma_first_unknown_none,
    lemma_limits_subrange, lemma_score_bound, lemma_trimmed_plain, lemma_trimmed_subrange,
    within_card_limits,
};
use crate::text::{
    is_blank, is_white_space, join_spaces, lemma_split_join, split_expeditions, split_spaces,
    trim_owned, trimmed,
};
use crate::validate::{check_player_cards, legal_expedition, submission_verdict, MAX_EXPEDITIONS};

verus! {

/// One scored expedition of a submission.
pub struct ExpeditionScore {
    /// The expedition's cards as written, without surrounding white space.
    pub cards: String,
    /// Its score.
    pub score: i16,
}

/// A scored submission: its total and each expedition's score, in order.
pub struct LoggedResult {
    /// The sum of the expeditions' scores.
    pub result: i16,
    /// The expeditions in the order they were written.
    pub expeditions: Vec<ExpeditionScore>,
}

/// What scoring one piece of a submission gives: the piece is scored
/// without its surrounding white space.
pub open spec fn piece_outcome(piece: Seq<char>) -> Result<int, char> {
    expedition_outcome(trimmed(piece))
}

/// The sum of the pieces' scores, or the first character that is no card.
pub open spec fn pieces_total(pieces: Seq<Seq<char>>) -> Result<int, char>
    decreases pieces.len(),
{
    if pieces.len() == 0 {
        Ok(0)
    } else {
        match pieces_total(pieces.drop_last()) {
            Err(c) => Err(c),
            Ok(v) => match piece_outcome(pieces.last()) {
                Err(c) => Err(c),
                Ok(w) => Ok(v + w),
            },
        }
    }
}

/// What scoring a whole submission gives: its verdict first, then the sum
/// over its expeditions.
pub open spec fn round_outcome(line: Seq<char>) -> Result<int, Error> {
    match submission_verdict(line) {
        Err(why) => Err(Error::ValidationRejected(why)),
        Ok(_) => match pieces_total(split_spaces(line)) {
            Ok(v) => Ok(v),
            Err(c) => Err(Error::CardError(c)),
        },
    }
}

/// `res` is the scoring of the submission `line` with total `total`: one
/// entry per expedition, in order, each with its trimmed cards and score.
pub open spec fn scored_as(res: LoggedResult, line: Seq<char>, total: int) -> bool {
    let pieces = split_spaces(line);
    &&& res.result == total
    &&& -480 <= total <= 936
    &&& res.expeditions@.len() == pieces.len()
    &&& forall|k: int|
        0 <= k < res.expeditions@.len() ==> {
            &&& (#[trigger] res.expeditions@[k]).cards@ == trimmed(pieces[k])
            &&& piece_outcome(pieces[k]) == Ok::<int, char>(res.expeditions@[k].score as int)
        }
}

/// A legal expedition keeps to the card limits.
pub proof fn lemma_legal_within_limits(s: Seq<char>)
    requires
        legal_expedition(s),
    ensures
        within_card_limits(s),
{
    assert forall|k: char| crate::score::is_rank(k) implies #[trigger] crate::validate::uses(s, k)
        <= crate::validate::allowance(k) by {
        assert(crate::validate::uses(s, k) <= crate::validate::allowance(k));
    }
}

/// The trimmed form of a legal expedition keeps to the card limits.
proof fn lemma_trimmed_legal(s: Seq<char>)
    requires
        legal_expedition(s),
    ensures
        within_card_limits(trimmed(s)),
{
    lemma_legal_within_limits(s);
    let ab = lemma_trimmed_subrange(s);
    lemma_limits_subrange(s, ab.0, ab.1);
}

/// Scores a player's submission for one round: it is validated as a whole
/// first, then each expedition is scored without its surrounding white
/// space, left to right, and the scores are summed.
pub fn calc_player_round_score(line: &str) -> (r: Result<LoggedResult, Error>)
    ensures
        match (r, round_outcome(line@)) {
            (Ok(res), Ok(v)) => scored_as(res, line@, v),
            (Err(e), Err(f)) => e == f,
            _ => false,
        },
{
    match check_player_cards(line) {
        Err(why) => {
            return Err(Error::ValidationRejected(why));
        },
        Ok(()) => {},
    }
    let pieces = split_expeditions(line);
    let ghost want = split_spaces(line@);
    let mut total: i16 = 0;
    let mut expeditions: Vec<ExpeditionScore> = Vec::new();
    let mut j: usize = 0;
    while j < pieces.len()
        invariant
            want == split_spaces(line@),
            submission_verdict(line@) is Ok,
            pieces@.len() == want.len(),
            pieces@.len() <= MAX_EXPEDITIONS,
            forall|q: int| 0 <= q < pieces@.len() ==> #[trigger] pieces@[q]@ == want[q],
            j <= pieces@.len(),
            pieces_total(want.take(j as int)) == Ok::<int, char>(total as int),
            -80 * j <= total <= 156 * j,
            expeditions@.len() == j,
            forall|q: int|
                0 <= q < j ==> {
                    &&& (#[trigger] expeditions@[q]).cards@ == trimmed(want[q])
                    &&& piece_outcome(want[q]) == Ok::<int, char>(expeditions@[q].score as int)
                },
        decreases pieces@.len() - j,
    {
        proof {
            assert(legal_expedition(want[j as int]));
            lemma_trimmed_legal(want[j as int]);
            assert(want.take(j as int + 1).drop_last() =~= want.take(j as int));
        }
        let cards = trim_owned(pieces[j].as_str());
        match calc_expedition_score(cards.as_str()) {
            Err(e) => {
                proof {
                    assert(want.take(j as int + 1).last() == want[j as int]);
                    lemma_totals_stop(want, j as int + 1);
                }
                return Err(e);
            },
            Ok(score) => {
                proof {
                    let t = trimmed(want[j as int]);
                    let ab = lemma_trimmed_subrange(t);
                    lemma_limits_subrange(t, ab.0, ab.1);
                    lemma_score_bound(
                        trimmed(trimmed(want[j as int])),
                        trimmed(want[j as int]).len(),
                    );
                    assert(want.take(j as int + 1).last() == want[j as int]);
                }
                total = total + score;
                expeditions.push(ExpeditionScore { cards, score });
            },
        }
        j = j + 1;
    }
    proof {
        assert(want.take(j as int) =~= want);
    }
    Ok(LoggedResult { result: total, expeditions })
}

/// Once a prefix of the pieces meets a character that is no card, so does
/// the whole sequence, with the same character.
proof fn lemma_totals_stop(pieces: Seq<Seq<char>>, i: int)
    requires
        0 <= i <= pieces.len(),
        pieces_total(pieces.take(i)) is Err,
    ensures
        pieces_total(pieces) == pieces_total(pieces.take(i)),
    decreases pieces.len() - i,
{
    if i < pieces.len() {
        assert(pieces.take(i + 1).drop_last() =~= pieces.take(i));
        lemma_totals_stop(pieces, i + 1);
    } else {
        assert(pieces.take(i) =~= pieces);
    }
}

} // verus!

verus! {

/// The sum of the scores of expeditions written without white space.
pub open spec fn scores_sum(expeditions: Seq<Seq<char>>) -> int
    decreases expeditions.len(),
{
    if expeditions.len() == 0 {
        0
    } else {
        scores_sum(expeditions.drop_last()) + expedition_score(
            expeditions.last(),
            expeditions.last().len(),
        )
    }
}

/// An expedition of cards only: at least one, and nothing else.
pub open spec fn cards_only(e: Seq<char>) -> bool {
    e.len() > 0 && forall|i: int| 0 <= i < e.len() ==> is_card(#[trigger] e[i])
}

proof fn lemma_cards_only_outcome(e: Seq<char>)
    requires
        cards_only(e),
    ensures
        expedition_outcome(e) == Ok::<int, char>(expedition_score(e, e.len())),
        piece_outcome(e) == expedition_outcome(e),
{
    assert(is_card(e[0]) && is_card(e[e.len() - 1]));
    lemma_trimmed_plain(e);
    lemma_first_unknown_none(e);
}

proof fn lemma_pieces_total_sum(es: Seq<Seq<char>>)
    requires
        forall|k: int| 0 <= k < es.len() ==> cards_only(#[trigger] es[k]),
    ensures
        pieces_total(es) == Ok::<int, char>(scores_sum(es)),
    decreases es.len(),
{
    if es.len() > 0 {
        let rest = es.drop_last();
        assert forall|k: int| 0 <= k < rest.len() implies cards_only(#[trigger] rest[k]) by {
            assert(rest[k] == es[k]);
        }
        lemma_pieces_total_sum(rest);
        assert(cards_only(es[es.len() - 1]));
        lemma_cards_only_outcome(es.last());
    }
}

/// Scoring a round is a plain sum: one to six legal expeditions of cards
/// only, joined by single spaces, score the sum of their own scores.
pub proof fn lemma_round_is_sum(expeditions: Seq<Seq<char>>)
    requires
        1 <= expeditions.len() <= MAX_EXPEDITIONS,
        forall|k: int|
            0 <= k < expeditions.len() ==> cards_only(#[trigger] expeditions[k])
                && legal_expedition(expeditions[k]),
    ensures
        forall|k: int|
            0 <= k < expeditions.len() ==> expedition_outcome(#[trigger] expeditions[k])
                == Ok::<int, char>(expedition_score(expeditions[k], expeditions[k].len())),
        round_outcome(join_spaces(expeditions)) == Ok::<int, Error>(scores_sum(expeditions)),
{
    let es = expeditions;
    assert forall|k: int, i: int| 0 <= k < es.len() && 0 <= i < es[k].len() implies #[trigger] es[k][i]
        != ' ' by {
        assert(cards_only(es[k]));
        assert(is_card(es[k][i]));
    }
    lemma_split_join(es);
    let line = join_spaces(es);
    let e = es.last();
    assert(cards_only(es[es.len() - 1]));
    assert(is_card(e[e.len() - 1]));
    if es.len() == 1 {
        assert(line[line.len() - 1] == e[e.len() - 1]);
    } else {
        let head = join_spaces(es.drop_last()) + seq![' '];
        assert(line == head + e);
        assert(line[line.len() - 1] == e[e.len() - 1]);
    }
    assert(!is_white_space(line[line.len() - 1]));
    assert(!is_blank(line));
    assert forall|k: int| 0 <= k < es.len() implies expedition_outcome(#[trigger] es[k])
        == Ok::<int, char>(expedition_score(es[k], es[k].len())) by {
        lemma_cards_only_outcome(es[k]);
    }
    lemma_pieces_total_sum(es);
}

/// Scoring depends on the text alone: the same text gets the same verdict,
/// the same expedition score and the same round score.
pub proof fn lemma_same_text_same_result(a: Seq<char>, b: Seq<char>)
    requires
        a == b,
    ensures
        submission_verdict(a) == submission_verdict(b),
        expedition_outcome(a) == expedition_outcome(b),
        round_outcome(a) == round_outcome(b),
{
}

} // verus!
