//! The card lexicon: which characters are cards, and what each is worth.

use vstd::prelude::*;

verus! {

/// One card of an expedition.
#[derive(Clone, Copy, Debug, PartialEq, Eq, Structural)]
pub enum Card {
    /// A `d` card: multiplies the expedition's net score once more.
    Doubler,
    /// A numbered card (`2`..`9`, or `t`/`1` worth ten) with its points.
    Points(u8),
}

/// Whether `c` is a numbered card: a digit `2`..`9`, `t`, or `1` (the older
/// spelling of `t`).
pub open spec fn is_point_card(c: char) -> bool {
    ('2' <= c && c <= '9') || c == 't' || c == '1'
}

/// Whether `c` is any card of the lexicon.
pub open spec fn is_card(c: char) -> bool {
    c == 'd' || is_point_card(c)
}

/// The points of a card; zero for a doubler and for anything that is no card.
pub open spec fn card_value(c: char) -> int {
    if '2' <= c && c <= '9' {
        c as int - '0' as int
    } else if c == 't' || c == '1' {
        10
    } else {
        0
    }
}

/// The card that `c` spells, if any.
pub open spec fn card_spec(c: char) -> Option<Card> {
    if c == 'd' {
        Some(Card::Doubler)
    } else if is_point_card(c) {
        Some(Card::Points(card_value(c) as u8))
    } else {
        None
    }
}

/// Reads one character as a card: `None` for a character outside the lexicon.
pub fn read_card(c: char) -> (r: Option<Card>)
    ensures
        r == card_spec(c),
{
    if c == 'd' {
        Some(Card::Doubler)
    } else if '2' <= c && c <= '9' {
        Some(Card::Points((c as u32 - '0' as u32) as u8))
    } else if c == 't' || c == '1' {
        Some(Card::Points(10))
    } else {
        None
    }
}

} // verus!
