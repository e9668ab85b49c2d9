//! Cards, the fresh 52-card deck and shuffling.

use vstd::prelude::*;
use rand::seq::SliceRandom;

verus! {

/// Card rank, ordered from `Two` up to `Ace`.
#[derive(Clone, Copy, Debug, PartialEq, Eq, Structural)]
pub enum Rank {
    Two,
    Three,
    Four,
    Five,
    Six,
    Seven,
    Eight,
    Nine,
    Ten,
    Jack,
    Queen,
    King,
    Ace,
}

/// Card suit; suits are unordered and matter only for flushes.
#[derive(Clone, Copy, Debug, PartialEq, Eq, Structural)]
pub enum Suit {
    Hearts,
    Diamonds,
    Clubs,
    Spades,
}

/// An immutable playing card.
#[derive(Clone, Copy, Debug, PartialEq, Eq, Structural)]
pub struct Card {
    pub rank: Rank,
    pub suit: Suit,
}

/// Position of a rank in the order `Two < Three < ... < Ace`.
pub open spec fn rank_index(r: Rank) -> int {
    match r {
        Rank::Two => 0,
        Rank::Three => 1,
        Rank::Four => 2,
        Rank::Five => 3,
        Rank::Six => 4,
        Rank::Seven => 5,
        Rank::Eight => 6,
        Rank::Nine => 7,
        Rank::Ten => 8,
        Rank::Jack => 9,
        Rank::Queen => 10,
        Rank::King => 11,
        Rank::Ace => 12,
    }
}

/// The rank at a position of the rank order (positions past the end give `Ace`).
pub open spec fn rank_at(i: int) -> Rank {
    if i <= 0 {
        Rank::Two
    } else if i == 1 {
        Rank::Three
    } else if i == 2 {
        Rank::Four
    } else if i == 3 {
        Rank::Five
    } else if i == 4 {
        Rank::Six
    } else if i == 5 {
        Rank::Seven
    } else if i == 6 {
        Rank::Eight
    } else if i == 7 {
        Rank::Nine
    } else if i == 8 {
        Rank::Ten
    } else if i == 9 {
        Rank::Jack
    } else if i == 10 {
        Rank::Queen
    } else if i == 11 {
        Rank::King
    } else {
        Rank::Ace
    }
}

/// Position of a suit in deck order: Hearts, Diamonds, Clubs, Spades.
pub open spec fn suit_index(s: Suit) -> int {
    match s {
        Suit::Hearts => 0,
        Suit::Diamonds => 1,
        Suit::Clubs => 2,
        Suit::Spades => 3,
    }
}

/// The suit at a position of deck order (positions past the end give `Spades`).
pub open spec fn suit_at(i: int) -> Suit {
    if i <= 0 {
        Suit::Hearts
    } else if i == 1 {
        Suit::Diamonds
    } else if i == 2 {
        Suit::Clubs
    } else {
        Suit::Spades
    }
}

/// The card at position `i` of a fresh deck: suits in order, each with all
/// thirteen ranks from `Two` to `Ace`.
pub open spec fn deck_card(i: int) -> Card {
    Card { rank: rank_at(i % 13), suit: suit_at(i / 13) }
}

/// Position of a card in a fresh deck.
pub open spec fn card_index(c: Card) -> int {
    suit_index(c.suit) * 13 + rank_index(c.rank)
}

/// The fresh, unshuffled 52-card deck.
pub open spec fn full_deck() -> Seq<Card> {
    Seq::new(52, |i: int| deck_card(i))
}

/// A card's deck position lies in the deck and leads back to the card.
pub proof fn lemma_card_index_inverse(c: Card)
    ensures
        0 <= card_index(c) < 52,
        deck_card(card_index(c)) == c,
{
}

/// The card at a deck position has that position.
pub proof fn lemma_deck_card_inverse(i: int)
    requires
        0 <= i < 52,
    ensures
        card_index(deck_card(i)) == i,
{
}

/// A fresh deck holds every one of the 52 (rank, suit) pairs exactly once.
pub proof fn lemma_full_deck_complete()
    ensures
        full_deck().len() == 52,
        full_deck().no_duplicates(),
        forall|c: Card| full_deck().contains(c),
{
    assert forall|i: int, j: int|
        0 <= i < 52 && 0 <= j < 52 && i != j implies full_deck()[i] != full_deck()[j] by {
        lemma_deck_card_inverse(i);
        lemma_deck_card_inverse(j);
    }
    assert forall|c: Card| full_deck().contains(c) by {
        lemma_card_index_inverse(c);
        assert(full_deck()[card_index(c)] == c);
    }
}

impl Rank {
    /// The rank at position `i` of the rank order.
    pub fn from_index(i: u8) -> (r: Rank)
        requires
            i < 13,
        ensures
            r == rank_at(i as int),
            rank_index(r) == i,
    {
        match i {
            0 => Rank::Two,
            1 => Rank::Three,
            2 => Rank::Four,
            3 => Rank::Five,
            4 => Rank::Six,
            5 => Rank::Seven,
            6 => Rank::Eight,
            7 => Rank::Nine,
            8 => Rank::Ten,
            9 => Rank::Jack,
            10 => Rank::Queen,
            11 => Rank::King,
            _ => Rank::Ace,
        }
    }

    /// Position of this rank in the order `Two < ... < Ace`.
    pub fn index(&self) -> (r: u8)
        ensures
            r == rank_index(*self),
    {
        match self {
            Rank::Two => 0,
            Rank::Three => 1,
            Rank::Four => 2,
            Rank::Five => 3,
            Rank::Six => 4,
            Rank::Seven => 5,
            Rank::Eight => 6,
            Rank::Nine => 7,
            Rank::Ten => 8,
            Rank::Jack => 9,
            Rank::Queen => 10,
            Rank::King => 11,
            Rank::Ace => 12,
        }
    }

    /// The rank's short name: `2` to `10`, then `J`, `Q`, `K`, `A`.
    pub fn to_string(&self) -> (r: String)
        ensures
            r@ == rank_label(*self),
    {
        let s = match self {
            Rank::Two => "2",
            Rank::Three => "3",
            Rank::Four => "4",
            Rank::Five => "5",
            Rank::Six => "6",
            Rank::Seven => "7",
            Rank::Eight => "8",
            Rank::Nine => "9",
            Rank::Ten => "10",
            Rank::Jack => "J",
            Rank::Queen => "Q",
            Rank::King => "K",
            Rank::Ace => "A",
        };
        String::from_str(s)
    }
}

/// The short name of a rank.
pub open spec fn rank_label(r: Rank) -> Seq<char> {
    match r {
        Rank::Two => "2"@,
        Rank::Three => "3"@,
        Rank::Four => "4"@,
        Rank::Five => "5"@,
        Rank::Six => "6"@,
        Rank::Seven => "7"@,
        Rank::Eight => "8"@,
        Rank::Nine => "9"@,
        Rank::Ten => "10"@,
        Rank::Jack => "J"@,
        Rank::Queen => "Q"@,
        Rank::King => "K"@,
        Rank::Ace => "A"@,
    }
}

/// The full name of a suit.
pub open spec fn suit_name(s: Suit) -> Seq<char> {
    match s {
        Suit::Hearts => "Hearts"@,
        Suit::Diamonds => "Diamonds"@,
        Suit::Clubs => "Clubs"@,
        Suit::Spades => "Spades"@,
    }
}

/// The one-character glyph of a suit.
pub open spec fn suit_glyph(s: Suit) -> Seq<char> {
    match s {
        Suit::Hearts => "♥"@,
        Suit::Diamonds => "♦"@,
        Suit::Clubs => "♣"@,
        Suit::Spades => "♠"@,
    }
}

/// A card written as `[` rank label, suit glyph `]`, e.g. `[10♠]`.
pub open spec fn card_label(c: Card) -> Seq<char> {
    "["@ + rank_label(c.rank) + suit_glyph(c.suit) + "]"@
}

impl Suit {
    /// The suit at position `i` of deck order.
    pub fn from_index(i: u8) -> (r: Suit)
        requires
            i < 4,
        ensures
            r == suit_at(i as int),
            suit_index(r) == i,
    {
        match i {
            0 => Suit::Hearts,
            1 => Suit::Diamonds,
            2 => Suit::Clubs,
            _ => Suit::Spades,
        }
    }

    /// Position of this suit in deck order.
    pub fn index(&self) -> (r: u8)
        ensures
            r == suit_index(*self),
    {
        match self {
            Suit::Hearts => 0,
            Suit::Diamonds => 1,
            Suit::Clubs => 2,
            Suit::Spades => 3,
        }
    }

    /// The suit's full name, e.g. `Hearts`.
    pub fn to_string(&self) -> (r: String)
        ensures
            r@ == suit_name(*self),
    {
        let s = match self {
            Suit::Hearts => "Hearts",
            Suit::Diamonds => "Diamonds",
            Suit::Clubs => "Clubs",
            Suit::Spades => "Spades",
        };
        String::from_str(s)
    }

    fn glyph(&self) -> (r: &'static str)
        ensures
            r@ == suit_glyph(*self),
    {
        match self {
            Suit::Hearts => "♥",
            Suit::Diamonds => "♦",
            Suit::Clubs => "♣",
            Suit::Spades => "♠",
        }
    }
}

impl Card {
    /// The card in brackets, e.g. `[A♥]`.
    pub fn to_string(&self) -> (r: String)
        ensures
            r@ == card_label(*self),
    {
        let mut s = String::from_str("[");
        let rank = self.rank.to_string();
        s.append(rank.as_str());
        s.append(self.suit.glyph());
        s.append("]");
        s
    }
}

/// The fresh 52-card deck in its fixed order: Hearts, Diamonds, Clubs,
/// Spades, each from `Two` to `Ace`.
pub fn create_deck() -> (deck: Vec<Card>)
    ensures
        deck@ == full_deck(),
        deck@.len() == 52,
        deck@.no_duplicates(),
        forall|c: Card| deck@.contains(c),
{
    let mut deck: Vec<Card> = Vec::with_capacity(52);
    let mut s: u8 = 0;
    while s < 4
        invariant
            s <= 4,
            deck@.len() == 13 * s,
            forall|i: int| 0 <= i < deck@.len() ==> deck@[i] == deck_card(i),
        decreases 4 - s,
    {
        let suit = Suit::from_index(s);
        let mut r: u8 = 0;
        while r < 13
            invariant
                s < 4,
                r <= 13,
                suit == suit_at(s as int),
                deck@.len() == 13 * s + r,
                forall|i: int| 0 <= i < deck@.len() ==> deck@[i] == deck_card(i),
            decreases 13 - r,
        {
            let rank = Rank::from_index(r);
            deck.push(Card { rank, suit });
            proof {
                let k = 13 * s + r;
                assert(k % 13 == r as int) by (nonlinear_arith)
                    requires k == 13 * s + r, r < 13;
                assert(k / 13 == s as int) by (nonlinear_arith)
                    requires k == 13 * s + r, r < 13;
            }
            r = r + 1;
        }
        s = s + 1;
    }
    proof {
        assert(deck@ =~= full_deck());
        lemma_full_deck_complete();
    }
    deck
}

/// Relies on rand's `SliceRandom::shuffle` with the thread-local generator:
/// it permutes the slice in place, so the same cards remain.
#[verifier::external_body]
fn shuffle_in_place(cards: &mut Vec<Card>)
    ensures
        final(cards)@.to_multiset() == old(cards)@.to_multiset(),
{
    cards.shuffle(&mut rand::thread_rng());
}

/// Puts the cards in a random order; the same multiset of cards remains.
pub fn shuffle_cards(cards: &mut Vec<Card>)
    ensures
        final(cards)@.len() == old(cards)@.len(),
        final(cards)@.to_multiset() == old(cards)@.to_multiset(),
{
    shuffle_in_place(cards);
    proof {
        old(cards)@.to_multiset_ensures();
        cards@.to_multiset_ensures();
    }
}

} // verus!
