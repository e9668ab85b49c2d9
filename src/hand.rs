//! Hand strength: ranking cards with rs_poker's evaluator and comparing hands.

use vstd::prelude::*;
use crate::cards::{Card, Rank};

verus! {

/// A poker hand category with the ranks that break ties inside it.
#[derive(Clone, Debug)]
pub enum HandRank {
    HighCard(Vec<Rank>),
    Pair(Rank, Vec<Rank>),
    TwoPair(Rank, Rank, Rank),
    ThreeOfAKind(Rank, Vec<Rank>),
    Straight(Rank),
    Flush(Vec<Rank>),
    FullHouse(Rank, Rank),
    FourOfAKind(Rank, Rank),
    StraightFlush(Rank),
    RoyalFlush,
}

/// Strength of a best five-card hand: a category (`0` high card, `1` pair,
/// `2` two pair, `3` three of a kind, `4` straight, `5` flush, `6` full house,
/// `7` four of a kind, `8` straight flush) and a value that orders hands
/// within the same category.
#[derive(Clone, Copy, Debug, PartialEq, Eq, Structural)]
pub struct HandStrength {
    pub category: u8,
    pub value: u32,
}

type PokerCard = rs_poker::core::Card;
type PokerValue = rs_poker::core::Value;
type PokerSuit = rs_poker::core::Suit;
type PokerRank = rs_poker::core::Rank;

/// The strength that rs_poker's evaluator gives a set of cards.
pub uninterp spec fn strength_of(cards: Seq<Card>) -> HandStrength;

/// No card occurs twice.
pub open spec fn distinct_cards(cards: Seq<Card>) -> bool {
    forall|i: int, j: int| 0 <= i < j < cards.len() ==> cards[i] != cards[j]
}

/// The cards that the evaluator ranks without panicking: no card twice,
/// at most seven of them (a hand in play never holds more), and not
/// exactly four.
pub open spec fn rankable(cards: Seq<Card>) -> bool {
    distinct_cards(cards) && cards.len() <= 7 && cards.len() != 4
}

/// Relies on rs_poker's `Rankable::rank`, which finds the best five-card
/// hand among the cards and reports one of nine categories with an
/// in-category value; it panics on a repeated card, on some four-card sets,
/// and on sets made only of four-of-a-kinds (8, 12 or 16 cards).
#[verifier::external_body]
fn rank_cards(cards: &Vec<Card>) -> (r: HandStrength)
    requires
        rankable(cards@),
    ensures
        r == strength_of(cards@),
        r.category <= 8,
{
    let hand: Vec<PokerCard> = cards.iter().map(|c| PokerCard::new(PokerValue::from_u8(c.rank.index()), PokerSuit::from_u8(c.suit.index()))).collect();
    let (category, value) = match rs_poker::core::Rankable::rank(&hand) {
        PokerRank::HighCard(v) => (0, v),
        PokerRank::OnePair(v) => (1, v),
        PokerRank::TwoPair(v) => (2, v),
        PokerRank::ThreeOfAKind(v) => (3, v),
        PokerRank::Straight(v) => (4, v),
        PokerRank::Flush(v) => (5, v),
        PokerRank::FullHouse(v) => (6, v),
        PokerRank::FourOfAKind(v) => (7, v),
        PokerRank::StraightFlush(v) => (8, v),
    };
    HandStrength { category, value }
}

/// Whether `cards` can be ranked: no repeated card, at most seven cards,
/// and a count other than four.
pub fn is_rankable(cards: &Vec<Card>) -> (r: bool)
    ensures
        r == rankable(cards@),
{
    if cards.len() == 4 || cards.len() > 7 {
        return false;
    }
    let n = cards.len();
    let mut i: usize = 0;
    while i < n
        invariant
            n == cards@.len(),
            i <= n,
            forall|a: int, b: int| 0 <= a < i && a < b < n ==> cards@[a] != cards@[b],
        decreases n - i,
    {
        let mut j: usize = i + 1;
        while j < n
            invariant
                n == cards@.len(),
                i < n,
                i + 1 <= j <= n,
                forall|a: int, b: int| 0 <= a < i && a < b < n ==> cards@[a] != cards@[b],
                forall|b: int| i < b < j ==> cards@[i as int] != cards@[b],
            decreases n - j,
        {
            if cards[i] == cards[j] {
                return false;
            }
            j = j + 1;
        }
        i = i + 1;
    }
    true
}

/// Ranks the cards with the evaluator, or gives `None` when they cannot be
/// ranked (a repeated card, more than seven cards, or exactly four).
pub fn evaluate(cards: &Vec<Card>) -> (r: Option<HandStrength>)
    ensures
        rankable(cards@) ==> r == Some(strength_of(cards@)),
        !rankable(cards@) ==> r.is_none(),
        r matches Some(s) ==> s.category <= 8,
{
    if is_rankable(cards) {
        Some(rank_cards(cards))
    } else {
        None
    }
}

/// `a` is a strictly better hand than `b`: a higher category, or the same
/// category and a higher value.
pub open spec fn beats(a: HandStrength, b: HandStrength) -> bool {
    a.category > b.category || (a.category == b.category && a.value > b.value)
}

/// Whether hand `a` strictly beats hand `b`.
pub fn stronger(a: HandStrength, b: HandStrength) -> (r: bool)
    ensures
        r == beats(a, b),
{
    a.category > b.category || (a.category == b.category && a.value > b.value)
}

/// Hands are totally ordered: of two strengths exactly one of "first beats
/// second", "second beats first", "tie" holds; beating is transitive; a
/// higher category always wins; and a hand ties with itself.
pub proof fn lemma_strength_total_order(a: HandStrength, b: HandStrength, c: HandStrength)
    ensures
        beats(a, b) || beats(b, a) || a == b,
        !(beats(a, b) && beats(b, a)),
        !beats(a, a),
        beats(a, b) && beats(b, c) ==> beats(a, c),
        a.category > b.category ==> beats(a, b),
{
}

/// The name of a hand category.
pub open spec fn category_name(category: u8) -> Seq<char> {
    if category == 0 {
        "High Card"@
    } else if category == 1 {
        "Pair"@
    } else if category == 2 {
        "Two Pair"@
    } else if category == 3 {
        "Three of a Kind"@
    } else if category == 4 {
        "Straight"@
    } else if category == 5 {
        "Flush"@
    } else if category == 6 {
        "Full House"@
    } else if category == 7 {
        "Four of a Kind"@
    } else {
        "Straight Flush"@
    }
}

impl HandStrength {
    /// The name of this hand's category, e.g. `Full House`.
    pub fn category_name(&self) -> (r: &'static str)
        ensures
            r@ == category_name(self.category),
    {
        if self.category == 0 {
            "High Card"
        } else if self.category == 1 {
            "Pair"
        } else if self.category == 2 {
            "Two Pair"
        } else if self.category == 3 {
            "Three of a Kind"
        } else if self.category == 4 {
            "Straight"
        } else if self.category == 5 {
            "Flush"
        } else if self.category == 6 {
            "Full House"
        } else if self.category == 7 {
            "Four of a Kind"
        } else {
            "Straight Flush"
        }
    }
}

} // verus!
