//! Validation of expeditions and of whole round submissions.

use vstd::prelude::*;
use crate::text::{is_blank, lemma_trimmed_empty, split_expeditions, split_spaces, trimmed};

verus! {

/// The largest number of expeditions in one submission.
pub const MAX_EXPEDITIONS: usize = 6;

/// The rank that a character occupies in an expedition: `1` is the older
/// spelling of `t` and shares its place.
pub open spec fn rank_of(c: char) -> char {
    if c == '1' {
        't'
    } else {
        c
    }
}

/// How many characters of rank `k` an expedition may hold: three doublers,
/// one of each numbered rank, one line end; none of anything else.
pub open spec fn allowance(k: char) -> nat {
    if k == 'd' {
        3
    } else if ('2' <= k && k <= '9') || k == 't' || k == '\n' {
        1
    } else {
        0
    }
}

/// How many characters of `s` have rank `k`.
pub open spec fn uses(s: Seq<char>, k: char) -> nat
    decreases s.len(),
{
    if s.len() == 0 {
        0
    } else {
        uses(s.drop_last(), k) + if rank_of(s.last()) == k {
            1nat
        } else {
            0nat
        }
    }
}

/// An expedition is legal when no rank is used beyond its allowance: this
/// rules out unknown characters, a fourth doubler and any repeated card.
pub open spec fn legal_expedition(s: Seq<char>) -> bool {
    forall|k: char| #[trigger] uses(s, k) <= allowance(k)
}

/// Why a submission was turned down before any scoring.
#[derive(Clone, Copy, Debug, PartialEq, Eq, Structural)]
pub enum Rejection {
    /// The submission is empty or white space only.
    NoCards,
    /// The submission holds more than six expeditions.
    TooManyExpeditions,
    /// Some expedition holds an unknown card, or a card beyond its allowance.
    BadOrDuplicateCard,
}

/// The verdict on a whole submission: blank text first, then the number of
/// expeditions, then each expedition.
pub open spec fn submission_verdict(s: Seq<char>) -> Result<(), Rejection> {
    let pieces = split_spaces(s);
    if is_blank(s) {
        Err(Rejection::NoCards)
    } else if pieces.len() > MAX_EXPEDITIONS {
        Err(Rejection::TooManyExpeditions)
    } else if exists|j: int| 0 <= j < pieces.len() && !legal_expedition(#[trigger] pieces[j]) {
        Err(Rejection::BadOrDuplicateCard)
    } else {
        Ok(())
    }
}

/// Uses add up over a concatenation.
pub proof fn lemma_uses_concat(x: Seq<char>, y: Seq<char>, k: char)
    ensures
        uses(x + y, k) == uses(x, k) + uses(y, k),
    decreases y.len(),
{
    if y.len() > 0 {
        lemma_uses_concat(x, y.drop_last(), k);
        assert((x + y).drop_last() =~= x + y.drop_last());
    } else {
        assert(x + y =~= x);
    }
}

/// A piece of a text uses no rank more often than the whole text.
pub proof fn lemma_uses_subrange(s: Seq<char>, a: int, b: int, k: char)
    requires
        0 <= a <= b <= s.len(),
    ensures
        uses(s.subrange(a, b), k) <= uses(s, k),
{
    lemma_uses_concat(s.take(a), s.subrange(a, b), k);
    lemma_uses_concat(s.take(b), s.subrange(b, s.len() as int), k);
    assert(s.take(a) + s.subrange(a, b) =~= s.take(b));
    assert(s.take(b) + s.subrange(b, s.len() as int) =~= s);
}

proof fn lemma_uses_step(s: Seq<char>, i: int)
    requires
        0 <= i < s.len(),
    ensures
        forall|k: char|
            #[trigger] uses(s.take(i + 1), k) == uses(s.take(i), k) + if rank_of(s[i]) == k {
                1nat
            } else {
                0nat
            },
{
    assert(s.take(i + 1).drop_last() =~= s.take(i));
}

/// The key of each counter slot of the validator.
spec fn slot_key(j: int) -> char {
    if j == 0 {
        'd'
    } else if 1 <= j <= 8 {
        (j + '1' as int) as char
    } else if j == 9 {
        't'
    } else {
        '\n'
    }
}

/// The counter slot of a rank and its allowance, if it has one.
fn slot_of(k: char) -> (r: Option<(usize, u8)>)
    ensures
        match r {
            Some((j, limit)) => j < 11 && slot_key(j as int) == k && limit == allowance(k)
                && limit > 0,
            None => allowance(k) == 0,
        },
{
    if k == 'd' {
        Some((0, 3))
    } else if '2' <= k && k <= '9' {
        Some(((k as u32 - '1' as u32) as usize, 1))
    } else if k == 't' {
        Some((9, 1))
    } else if k == '\n' {
        Some((10, 1))
    } else {
        None
    }
}

/// Checks one expedition against the allowances of the card lexicon.
pub fn expedition_is_legal(expedition: &str) -> (r: bool)
    ensures
        r == legal_expedition(expedition@),
{
    let mut counts: Vec<u8> = vec![0u8, 0, 0, 0, 0, 0, 0, 0, 0, 0, 0];
    let ghost s = expedition@;
    let n = expedition.unicode_len();
    let mut i: usize = 0;
    for c in it: expedition.chars()
        invariant
            s == expedition@,
            n == s.len(),
            it.seq() == s,
            i == it.index(),
            i <= s.len(),
            counts@.len() == 11,
            forall|j: int| 0 <= j < 11 ==> counts@[j] == uses(s.take(i as int), slot_key(j)),
            legal_expedition(s.take(i as int)),
    {
        proof {
            lemma_uses_step(s, i as int);
        }
        let k = if c == '1' {
            't'
        } else {
            c
        };
        match slot_of(k) {
            None => {
                proof {
                    assert(uses(s.take(i as int + 1), k) > allowance(k));
                    lemma_uses_subrange(s, 0, i as int + 1, k);
                    assert(s.take(i as int + 1) == s.subrange(0, i as int + 1));
                }
                return false;
            },
            Some((j, limit)) => {
                if counts[j] >= limit {
                    proof {
                        assert(uses(s.take(i as int + 1), k) > allowance(k));
                        lemma_uses_subrange(s, 0, i as int + 1, k);
                    }
                    return false;
                }
                counts.set(j, counts[j] + 1);
                proof {
                    assert forall|q: int| 0 <= q < 11 implies counts@[q] == uses(
                        s.take(i as int + 1),
                        slot_key(q),
                    ) by {
                        if q != j {
                            assert(slot_key(q) != slot_key(j as int));
                        }
                    }
                    assert forall|m: char| #[trigger]
                        uses(s.take(i as int + 1), m) <= allowance(m) by {
                        assert(uses(s.take(i as int), m) <= allowance(m));
                    }
                }
            },
        }
        i = i + 1;
    }
    proof {
        assert(s.take(i as int) =~= s);
    }
    true
}

/// Checks a whole submission: not blank, at most six expeditions, each of
/// them legal. Says why it was turned down.
pub fn check_player_cards(user_input: &str) -> (r: Result<(), Rejection>)
    ensures
        r == submission_verdict(user_input@),
{
    let rest = crate::text::trim_owned(user_input);
    proof {
        lemma_trimmed_empty(user_input@);
    }
    if rest.as_str().is_empty() {
        return Err(Rejection::NoCards);
    }
    let pieces = split_expeditions(user_input);
    if pieces.len() > MAX_EXPEDITIONS {
        return Err(Rejection::TooManyExpeditions);
    }
    let ghost want = split_spaces(user_input@);
    let mut j: usize = 0;
    while j < pieces.len()
        invariant
            want == split_spaces(user_input@),
            !is_blank(user_input@),
            want.len() <= MAX_EXPEDITIONS,
            j <= pieces@.len(),
            pieces@.len() == want.len(),
            forall|q: int| 0 <= q < pieces@.len() ==> #[trigger] pieces@[q]@ == want[q],
            forall|q: int| 0 <= q < j ==> legal_expedition(#[trigger] want[q]),
        decreases pieces@.len() - j,
    {
        if !expedition_is_legal(pieces[j].as_str()) {
            assert(!legal_expedition(want[j as int]));
            return Err(Rejection::BadOrDuplicateCard);
        }
        j = j + 1;
    }
    Ok(())
}

/// Whether a submission may be scored: `true` exactly when
/// [`check_player_cards`] finds nothing wrong.
pub fn sanity_check_player_cards(user_input: &str) -> (r: bool)
    ensures
        r == (submission_verdict(user_input@) is Ok),
{
    check_player_cards(user_input).is_ok()
}

} // verus!

verus! {

proof fn lemma_uses_at(p: Seq<char>, i: int)
    requires
        0 <= i < p.len(),
    ensures
        uses(p, rank_of(p[i])) >= 1,
{
    let q = p.subrange(i, i + 1);
    assert(q.drop_last() =~= Seq::<char>::empty());
    lemma_uses_subrange(p, i, i + 1, rank_of(p[i]));
}

proof fn lemma_uses_twice(p: Seq<char>, i: int, j: int)
    requires
        0 <= i < j < p.len(),
        rank_of(p[i]) == rank_of(p[j]),
    ensures
        uses(p, rank_of(p[i])) >= 2,
{
    let r = rank_of(p[i]);
    let x = p.subrange(0, i + 1);
    let y = p.subrange(i + 1, p.len() as int);
    assert(x + y =~= p);
    lemma_uses_concat(x, y, r);
    assert(x[i] == p[i]);
    lemma_uses_at(x, i);
    assert(y[j - i - 1] == p[j]);
    lemma_uses_at(y, j - i - 1);
}

proof fn lemma_uses_witness(p: Seq<char>, k: char)
    requires
        uses(p, k) >= 1,
    ensures
        exists|i: int| 0 <= i < p.len() && rank_of(#[trigger] p[i]) == k,
    decreases p.len(),
{
    let t = p.drop_last();
    if rank_of(p.last()) != k {
        lemma_uses_witness(t, k);
        let i = choose|i: int| 0 <= i < t.len() && rank_of(#[trigger] t[i]) == k;
        assert(p[i] == t[i]);
    } else {
        assert(rank_of(p[p.len() - 1]) == k);
    }
}

/// A blank submission is turned down for having no cards.
pub proof fn lemma_blank_rejected(s: Seq<char>)
    requires
        is_blank(s),
    ensures
        submission_verdict(s) == Err::<(), Rejection>(Rejection::NoCards),
{
}

/// A submission of more than six expeditions is turned down.
pub proof fn lemma_too_many_rejected(s: Seq<char>)
    requires
        split_spaces(s).len() > MAX_EXPEDITIONS,
    ensures
        submission_verdict(s) is Err,
{
}

/// A submission with an expedition of more than three doublers is turned
/// down.
pub proof fn lemma_fourth_doubler_rejected(s: Seq<char>, k: int)
    requires
        0 <= k < split_spaces(s).len(),
        uses(split_spaces(s)[k], 'd') > 3,
    ensures
        submission_verdict(s) is Err,
{
    assert(!legal_expedition(split_spaces(s)[k]));
}

/// A submission with an expedition that holds one numbered card twice is
/// turned down (`t` and `1` count as the same card).
pub proof fn lemma_repeated_card_rejected(s: Seq<char>, k: int, i: int, j: int)
    requires
        0 <= k < split_spaces(s).len(),
        0 <= i < j < split_spaces(s)[k].len(),
        rank_of(split_spaces(s)[k][i]) == rank_of(split_spaces(s)[k][j]),
        split_spaces(s)[k][i] != 'd',
    ensures
        submission_verdict(s) is Err,
{
    let p = split_spaces(s)[k];
    lemma_uses_twice(p, i, j);
    assert(uses(p, rank_of(p[i])) > allowance(rank_of(p[i])));
}

/// A submission with an expedition that holds a character which is no card
/// (nor the line end) is turned down.
pub proof fn lemma_unknown_card_rejected(s: Seq<char>, k: int, i: int)
    requires
        0 <= k < split_spaces(s).len(),
        0 <= i < split_spaces(s)[k].len(),
        !crate::cards::is_card(split_spaces(s)[k][i]),
        split_spaces(s)[k][i] != '\n',
    ensures
        submission_verdict(s) is Err,
{
    let p = split_spaces(s)[k];
    lemma_uses_at(p, i);
    assert(uses(p, rank_of(p[i])) > allowance(rank_of(p[i])));
}

/// An expedition of cards only, with at most three doublers and each other
/// card (counting `1` as `t`) at most once, in any order.
pub open spec fn distinct_cards(p: Seq<char>) -> bool {
    &&& forall|i: int| 0 <= i < p.len() ==> crate::cards::is_card(#[trigger] p[i])
    &&& uses(p, 'd') <= 3
    &&& forall|i: int, j: int|
        0 <= i < j < p.len() && #[trigger] rank_of(p[i]) == #[trigger] rank_of(p[j]) ==> p[i]
            == 'd'
}

proof fn lemma_distinct_once(p: Seq<char>, k: char)
    requires
        distinct_cards(p),
        k != 'd',
    ensures
        uses(p, k) <= 1,
    decreases p.len(),
{
    if p.len() > 0 {
        let t = p.drop_last();
        assert(uses(t, 'd') <= uses(p, 'd'));
        assert forall|i: int, j: int|
            0 <= i < j < t.len() && #[trigger] rank_of(t[i]) == #[trigger] rank_of(t[j]) implies t[i]
            == 'd' by {
            assert(t[i] == p[i] && t[j] == p[j]);
        }
        assert forall|i: int| 0 <= i < t.len() implies crate::cards::is_card(#[trigger] t[i]) by {
            assert(t[i] == p[i]);
        }
        lemma_distinct_once(t, k);
        if rank_of(p.last()) == k && uses(t, k) >= 1 {
            lemma_uses_witness(t, k);
            let i = choose|i: int| 0 <= i < t.len() && rank_of(#[trigger] t[i]) == k;
            assert(t[i] == p[i]);
            assert(rank_of(p[i]) == rank_of(p[p.len() - 1]));
        }
    }
}

proof fn lemma_distinct_legal(p: Seq<char>)
    requires
        distinct_cards(p),
    ensures
        legal_expedition(p),
{
    assert forall|k: char| #[trigger] uses(p, k) <= allowance(k) by {
        if k != 'd' {
            lemma_distinct_once(p, k);
            if uses(p, k) >= 1 {
                lemma_uses_witness(p, k);
                let i = choose|i: int| 0 <= i < p.len() && rank_of(#[trigger] p[i]) == k;
                assert(crate::cards::is_card(p[i]));
            }
        }
    }
}

/// A submission that is not blank, of at most six expeditions, each of
/// cards only with at most three doublers and every other card at most
/// once, in any order and with `1` for `t`, is accepted.
pub proof fn lemma_distinct_cards_accepted(s: Seq<char>)
    requires
        !is_blank(s),
        split_spaces(s).len() <= MAX_EXPEDITIONS,
        forall|k: int| 0 <= k < split_spaces(s).len() ==> distinct_cards(#[trigger] split_spaces(s)[k]),
    ensures
        submission_verdict(s) == Ok::<(), Rejection>(()),
{
    assert forall|k: int| 0 <= k < split_spaces(s).len() implies legal_expedition(
        #[trigger] split_spaces(s)[k],
    ) by {
        lemma_distinct_legal(split_spaces(s)[k]);
    }
}

} // verus!
