//! Winner resolution: who takes the pot and how the win is described.

use vstd::prelude::*;
use crate::cards::Card;
use crate::game::{total_chips, Game, Player, lemma_total_chips_bounds, lemma_total_chips_update};
use crate::hand::{HandStrength, beats, evaluate, rankable, strength_of, stronger};

verus! {

/// A seat's hole cards followed by the board.
pub open spec fn cards_of(g: Game, j: int) -> Seq<Card> {
    g.players@[j].hand@ + g.community_cards@
}

/// Seat `j` takes part in the showdown comparison: still in the hand, with
/// at least two hole cards that, with the board, the evaluator can rank.
pub open spec fn ranked_seat(g: Game, j: int) -> bool {
    !g.players@[j].folded && g.players@[j].hand@.len() >= 2 && rankable(cards_of(g, j))
}

/// Among the first `k` seats, the earliest seat holding the best ranked hand.
pub open spec fn best_seat_upto(g: Game, k: int) -> Option<int>
    decreases k,
{
    if k <= 0 {
        None
    } else {
        let prev = best_seat_upto(g, k - 1);
        if ranked_seat(g, k - 1) && (prev.is_none()
            || beats(strength_of(cards_of(g, k - 1)), strength_of(cards_of(g, prev.unwrap())))) {
            Some(k - 1)
        } else {
            prev
        }
    }
}

/// The strength of the best ranked hand among the first `k` seats.
pub open spec fn best_upto(g: Game, k: int) -> Option<HandStrength> {
    match best_seat_upto(g, k) {
        Some(w) => Some(strength_of(cards_of(g, w))),
        None => None,
    }
}

/// The earliest seat before `k` that has not folded; `len` when none has.
pub open spec fn first_unfolded_upto(ps: Seq<Player>, k: int) -> int
    decreases k,
{
    if k <= 0 {
        ps.len() as int
    } else if first_unfolded_upto(ps, k - 1) != ps.len() {
        first_unfolded_upto(ps, k - 1)
    } else if !ps[k - 1].folded {
        k - 1
    } else {
        ps.len() as int
    }
}

/// Number of players who have not folded.
pub open spec fn unfolded_count(ps: Seq<Player>) -> int
    decreases ps.len(),
{
    if ps.len() == 0 {
        0
    } else {
        unfolded_count(ps.drop_last()) + if ps.last().folded { 0int } else { 1int }
    }
}

/// The seat that wins the pot: the best ranked hand (earliest among equals)
/// when more than one player is in and someone could be ranked, otherwise
/// the first player still in.
pub open spec fn winner_seat(g: Game) -> int {
    let n = g.players@.len() as int;
    if unfolded_count(g.players@) != 1 && best_seat_upto(g, n).is_some() {
        best_seat_upto(g, n).unwrap()
    } else {
        first_unfolded_upto(g.players@, n)
    }
}

/// Card labels separated by single spaces.
pub open spec fn join_labels(cs: Seq<Card>) -> Seq<char>
    decreases cs.len(),
{
    if cs.len() == 0 {
        Seq::empty()
    } else if cs.len() == 1 {
        crate::cards::card_label(cs[0])
    } else {
        join_labels(cs.drop_last()) + " "@ + crate::cards::card_label(cs.last())
    }
}

/// The description of a win by seat `w`: for a lone survivor, that the
/// others folded; otherwise the winning category with the hole cards (a
/// pocket pair also named by its rank, a suited flush by its suit), or only
/// the category when there are no cards to show.
pub open spec fn describe(g: Game, w: int, sole: bool, best: Option<HandStrength>) -> Seq<char> {
    let hand = g.players@[w].hand@;
    let hole = join_labels(hand);
    if sole {
        if hand.len() == 0 {
            "by default (others folded)"@
        } else if g.community_cards@.len() == 0 {
            "with their hole cards (others folded)"@
        } else {
            "by being the last player standing (others folded)"@
        }
    } else {
        let category: u8 = match best {
            Some(s) => s.category,
            None => 0,
        };
        let name = crate::hand::category_name(category);
        if g.community_cards@.len() == 0 || hand.len() == 0 {
            name
        } else if category == 1 && hand[0].rank == hand[1].rank {
            "Pair of "@ + crate::cards::rank_label(hand[0].rank) + "s with "@ + hole
        } else if category == 5 && hand.len() == 2 && hand[0].suit == hand[1].suit {
            "Flush ("@ + crate::cards::suit_name(hand[0].suit) + ") with "@ + hole
        } else {
            name + " with "@ + hole
        }
    }
}

/// The description returned for the winner of table `g`.
pub open spec fn win_description(g: Game, w: int) -> Seq<char> {
    describe(g, w, unfolded_count(g.players@) == 1, best_upto(g, g.players@.len() as int))
}

/// The first unfolded seat is unfolded, and every seat before it folded.
pub proof fn lemma_first_unfolded(ps: Seq<Player>, k: int)
    requires
        0 <= k <= ps.len(),
    ensures
        first_unfolded_upto(ps, k) == ps.len() ==> forall|j: int| 0 <= j < k ==> ps[j].folded,
        first_unfolded_upto(ps, k) != ps.len() ==> first_unfolded_upto(ps, k) < k
            && !ps[first_unfolded_upto(ps, k)].folded,
    decreases k,
{
    if k > 0 {
        lemma_first_unfolded(ps, k - 1);
    }
}

/// The best seat is a ranked seat among those scanned.
pub proof fn lemma_best_seat_range(g: Game, k: int)
    requires
        0 <= k <= g.players@.len(),
    ensures
        best_seat_upto(g, k) matches Some(w) ==> 0 <= w < k && ranked_seat(g, w),
    decreases k,
{
    if k > 0 {
        lemma_best_seat_range(g, k - 1);
    }
}

/// The seat chosen as best holds a hand that no ranked seat beats, and that
/// every ranked seat before it falls short of.
pub proof fn lemma_best_seat_is_best(g: Game, k: int)
    requires
        0 <= k <= g.players@.len(),
    ensures
        best_seat_upto(g, k) matches Some(w) ==> forall|j: int| 0 <= j < k && ranked_seat(g, j) ==> {
            &&& !beats(strength_of(cards_of(g, j)), strength_of(cards_of(g, w)))
            &&& j < w ==> beats(strength_of(cards_of(g, w)), strength_of(cards_of(g, j)))
        },
        best_seat_upto(g, k).is_none() ==> forall|j: int| 0 <= j < k ==> !ranked_seat(g, j),
    decreases k,
{
    if k > 0 {
        lemma_best_seat_is_best(g, k - 1);
        lemma_best_seat_range(g, k - 1);
        let prev = best_seat_upto(g, k - 1);
        let sk = strength_of(cards_of(g, k - 1));
        if let Some(w) = best_seat_upto(g, k) {
            assert forall|j: int| 0 <= j < k && ranked_seat(g, j) implies {
                &&& !beats(strength_of(cards_of(g, j)), strength_of(cards_of(g, w)))
                &&& j < w ==> beats(strength_of(cards_of(g, w)), strength_of(cards_of(g, j)))
            } by {
                let sj = strength_of(cards_of(g, j));
                crate::hand::lemma_strength_total_order(sj, sj, sj);
                if j < k - 1 && w == k - 1 {
                    let sp = strength_of(cards_of(g, prev.unwrap()));
                    crate::hand::lemma_strength_total_order(sj, sk, sp);
                    crate::hand::lemma_strength_total_order(sk, sp, sj);
                    crate::hand::lemma_strength_total_order(sj, sp, sk);
                }
            }
        }
    }
}

/// Card labels of a hand separated by single spaces, e.g. `[A♥] [10♠]`.
pub fn join_card_labels(cards: &Vec<Card>) -> (r: String)
    ensures
        r@ == join_labels(cards@),
{
    let mut s = String::new();
    let mut i: usize = 0;
    while i < cards.len()
        invariant
            i <= cards@.len(),
            s@ == join_labels(cards@.subrange(0, i as int)),
        decreases cards@.len() - i,
    {
        assert(cards@.subrange(0, i + 1).drop_last() =~= cards@.subrange(0, i as int));
        if i > 0 {
            s.append(" ");
        }
        let label = cards[i].to_string();
        s.append(label.as_str());
        proof {
            if i == 0 {
                assert(s@ =~= join_labels(cards@.subrange(0, 1)));
            }
        }
        i = i + 1;
    }
    assert(cards@.subrange(0, i as int) =~= cards@);
    s
}

impl Game {
    /// The seat's hole cards followed by the board.
    pub fn seat_cards(&self, j: usize) -> (r: Vec<Card>)
        requires
            j < self.players@.len(),
        ensures
            r@ == cards_of(*self, j as int),
    {
        let mut r: Vec<Card> = Vec::new();
        let hand = &self.players[j].hand;
        let mut i: usize = 0;
        while i < hand.len()
            invariant
                i <= hand@.len(),
                r@ == hand@.subrange(0, i as int),
            decreases hand@.len() - i,
        {
            r.push(hand[i]);
            assert(r@ =~= hand@.subrange(0, i + 1));
            i = i + 1;
        }
        let mut k: usize = 0;
        while k < self.community_cards.len()
            invariant
                k <= self.community_cards@.len(),
                r@ == hand@ + self.community_cards@.subrange(0, k as int),
            decreases self.community_cards@.len() - k,
        {
            r.push(self.community_cards[k]);
            assert(r@ =~= hand@ + self.community_cards@.subrange(0, k + 1));
            k = k + 1;
        }
        assert(r@ =~= hand@ + self.community_cards@);
        r
    }

    /// Awards the whole pot to one player still in the hand and returns the
    /// winner's seat, the amount won and a description of the win. With a
    /// single player left, that player wins without any evaluation. Otherwise
    /// each player still in with at least two hole cards has hole cards plus
    /// board ranked, and the best hand wins, the earliest seat among equals;
    /// when nobody could be ranked, the first player still in wins. The pot
    /// goes to the winner in one piece (there are no side pots) and the pot
    /// becomes zero; nothing else changes.
    pub fn determine_winner(&mut self) -> (r: (usize, u32, String))
        requires
            old(self).wf(),
            exists|j: int| 0 <= j < old(self).players@.len() && !old(self).players@[j].folded,
        ensures
            final(self).wf(),
            ({
                let g = *old(self);
                let n = g.players@.len() as int;
                let w = r.0 as int;
                &&& w == winner_seat(g)
                &&& 0 <= w < n
                &&& !g.players@[w].folded
                &&& r.1 == g.pot
                &&& r.2@ == win_description(g, w)
                &&& unfolded_count(g.players@) != 1 && ranked_seat(g, w) ==> forall|j: int|
                    0 <= j < n && #[trigger] ranked_seat(g, j) ==> {
                        &&& !beats(strength_of(cards_of(g, j)), strength_of(cards_of(g, w)))
                        &&& j < w ==> beats(strength_of(cards_of(g, w)), strength_of(cards_of(g, j)))
                    }
                &&& unfolded_count(g.players@) != 1 && !ranked_seat(g, w) ==> forall|j: int|
                    0 <= j < n ==> !#[trigger] ranked_seat(g, j)
                &&& final(self).pot == 0
                &&& final(self).players@ == g.players@.update(w, Player {
                    chips: (g.players@[w].chips + g.pot) as u32,
                    ..g.players@[w]
                })
                &&& final(self).money() == g.money()
            }),
            final(self).round == old(self).round,
            final(self).deck@ == old(self).deck@,
            final(self).community_cards@ == old(self).community_cards@,
            final(self).current_player_idx == old(self).current_player_idx,
            final(self).dealer_idx == old(self).dealer_idx,
            final(self).small_blind_idx == old(self).small_blind_idx,
            final(self).big_blind_idx == old(self).big_blind_idx,
            final(self).min_bet == old(self).min_bet,
            final(self).last_action_count == old(self).last_action_count,
            final(self).bb_has_acted_preflop == old(self).bb_has_acted_preflop,
            final(self).players_acted_this_round@ == old(self).players_acted_this_round@,
            final(self).last_aggressor == old(self).last_aggressor,
            final(self).round_action_complete == old(self).round_action_complete,
            final(self).player_contributions_this_round@ == old(self).player_contributions_this_round@,
            final(self).api_key == old(self).api_key,
    {
        let n = self.players.len();
        let ghost g = *self;
        let mut unfolded: usize = 0;
        let mut first: usize = n;
        let mut j: usize = 0;
        while j < n
            invariant
                n == self.players@.len(),
                *self == g,
                j <= n,
                unfolded == unfolded_count(self.players@.subrange(0, j as int)),
                unfolded <= j,
                first == first_unfolded_upto(self.players@, j as int),
            decreases n - j,
        {
            assert(self.players@.subrange(0, j + 1).drop_last() =~= self.players@.subrange(0, j as int));
            if !self.players[j].folded {
                if first == n {
                    first = j;
                }
                unfolded = unfolded + 1;
            }
            j = j + 1;
        }
        proof {
            assert(self.players@.subrange(0, n as int) =~= self.players@);
            lemma_first_unfolded(self.players@, n as int);
        }

        let mut winner: usize = first;
        let mut best: Option<HandStrength> = None;
        if unfolded != 1 {
            let mut k: usize = 0;
            while k < n
                invariant
                    n == self.players@.len(),
                    *self == g,
                    k <= n,
                    first < n,
                    best == best_upto(g, k as int),
                    best.is_some() ==> winner == best_seat_upto(g, k as int).unwrap(),
                    best matches Some(b) ==> b.category <= 8,
                    best.is_none() ==> winner == first && best_seat_upto(g, k as int).is_none(),
                    best_seat_upto(g, k as int).is_some() == best.is_some(),
                decreases n - k,
            {
                if !self.players[k].folded && self.players[k].hand.len() >= 2 {
                    let cards = self.seat_cards(k);
                    match evaluate(&cards) {
                        Some(s) => {
                            let better = match best {
                                Some(b) => stronger(s, b),
                                None => true,
                            };
                            if better {
                                best = Some(s);
                                winner = k;
                            }
                        },
                        None => {},
                    }
                }
                k = k + 1;
            }
        }
        proof {
            lemma_best_seat_range(g, n as int);
            lemma_best_seat_is_best(g, n as int);
        }

        let description = self.describe_win(winner, unfolded == 1, best);

        let winnings = self.pot;
        let ghost ps0 = self.players@;
        proof {
            lemma_total_chips_bounds(ps0);
        }
        let prize = self.players[winner].chips + winnings;
        self.players[winner].chips = prize;
        self.pot = 0;
        proof {
            lemma_total_chips_update(ps0, winner as int, self.players@[winner as int]);
            assert(self.players@ =~= ps0.update(winner as int, self.players@[winner as int]));
        }
        (winner, winnings, description)
    }

    /// The text that describes a win, see `win_description`.
    fn describe_win(&self, w: usize, sole: bool, best: Option<HandStrength>) -> (r: String)
        requires
            w < self.players@.len(),
            sole == (unfolded_count(self.players@) == 1),
            !sole ==> best == best_upto(*self, self.players@.len() as int),
            best.is_some() ==> self.players@[w as int].hand@.len() >= 2,
            best matches Some(s) ==> s.category <= 8,
        ensures
            r@ == describe(*self, w as int, sole, best),
    {
        let hand = &self.players[w].hand;
        if sole {
            if hand.len() == 0 {
                String::from_str("by default (others folded)")
            } else if self.community_cards.len() == 0 {
                String::from_str("with their hole cards (others folded)")
            } else {
                String::from_str("by being the last player standing (others folded)")
            }
        } else {
            let category: u8 = match best {
                Some(s) => s.category,
                None => 0,
            };
            let name = HandStrength { category, value: 0 }.category_name();
            if self.community_cards.len() == 0 || hand.len() == 0 {
                return String::from_str(name);
            }
            let hole = join_card_labels(hand);
            if category == 1 && hand[0].rank == hand[1].rank {
                let mut s = String::from_str("Pair of ");
                let rank = hand[0].rank.to_string();
                s.append(rank.as_str());
                s.append("s with ");
                s.append(hole.as_str());
                s
            } else if category == 5 && hand.len() == 2 && hand[0].suit == hand[1].suit {
                let mut s = String::from_str("Flush (");
                let suit = hand[0].suit.to_string();
                s.append(suit.as_str());
                s.append(") with ");
                s.append(hole.as_str());
                s
            } else {
                let mut s = String::from_str(name);
                s.append(" with ");
                s.append(hole.as_str());
                s
            }
        }
    }
}

} // verus!
