//! The table state, the action executor and the betting-round state machine.

use vstd::prelude::*;
use vstd::multiset::Multiset;
use crate::cards::{Card, create_deck, shuffle_cards};

verus! {

/// How a bot weighs its choices; it never changes what is legal.
#[derive(Clone, Copy, Debug, PartialEq, Eq, Structural)]
pub enum BotDifficulty {
    Easy,
    Medium,
    Hard,
}

/// The betting rounds of a hand, in order.
#[derive(Clone, Copy, Debug, PartialEq, Eq, Structural)]
pub enum Round {
    PreFlop,
    Flop,
    Turn,
    River,
    Showdown,
}

/// An action a player asks for; `Raise` carries the amount to add.
#[derive(Clone, Copy, Debug, PartialEq, Eq, Structural)]
pub enum GameAction {
    Fold,
    Call,
    Raise(u32),
    Check,
}

/// One seat at the table.
#[derive(Clone)]
pub struct Player {
    pub name: String,
    pub hand: Vec<Card>,
    pub chips: u32,
    pub current_bet: u32,
    pub folded: bool,
    pub is_bot: bool,
    pub bot_difficulty: BotDifficulty,
}

/// The whole table: seats, cards, pot, positions and the bookkeeping of the
/// current betting round.
pub struct Game {
    pub players: Vec<Player>,
    pub deck: Vec<Card>,
    pub community_cards: Vec<Card>,
    pub pot: u32,
    pub current_player_idx: usize,
    pub min_bet: u32,
    pub round: Round,
    pub api_key: Option<String>,
    pub dealer_idx: usize,
    pub small_blind_idx: usize,
    pub big_blind_idx: usize,
    pub last_action_count: usize,
    pub bb_has_acted_preflop: bool,
    pub players_acted_this_round: Vec<usize>,
    pub last_aggressor: Option<usize>,
    pub round_action_complete: bool,
    pub player_contributions_this_round: Vec<u32>,
}

/// The forced bet every player pays at the start of a hand.
pub const ANTE: u32 = 1;

/// The table's minimum bet, also the big blind.
pub const MIN_BET: u32 = 10;

/// Actions in one round past which a hand is cut short.
pub const SAFETY_ACTION_LIMIT: usize = 25;

/// Sum of the chip stacks.
pub open spec fn total_chips(ps: Seq<Player>) -> int
    decreases ps.len(),
{
    if ps.len() == 0 {
        0
    } else {
        total_chips(ps.drop_last()) + ps.last().chips
    }
}

/// Sum of a sequence of amounts.
pub open spec fn sum_amounts(s: Seq<u32>) -> int
    decreases s.len(),
{
    if s.len() == 0 {
        0
    } else {
        sum_amounts(s.drop_last()) + s.last()
    }
}

/// The highest current bet at the table (`0` with no players).
pub open spec fn max_bet(ps: Seq<Player>) -> u32
    decreases ps.len(),
{
    if ps.len() == 0 {
        0
    } else if ps.last().current_bet > max_bet(ps.drop_last()) {
        ps.last().current_bet
    } else {
        max_bet(ps.drop_last())
    }
}

/// A player who can still act: not folded and not all-in.
pub open spec fn is_active(p: Player) -> bool {
    !p.folded && p.chips > 0
}

/// Number of players who can still act.
pub open spec fn active_count(ps: Seq<Player>) -> int
    decreases ps.len(),
{
    if ps.len() == 0 {
        0
    } else {
        active_count(ps.drop_last()) + if is_active(ps.last()) { 1int } else { 0int }
    }
}

/// No bet exceeds the highest bet, which some seat holds.
pub proof fn lemma_max_bet_bounds(ps: Seq<Player>)
    ensures
        forall|j: int| 0 <= j < ps.len() ==> ps[j].current_bet <= max_bet(ps),
        ps.len() == 0 ==> max_bet(ps) == 0,
        ps.len() > 0 ==> exists|j: int| 0 <= j < ps.len() && ps[j].current_bet == max_bet(ps),
    decreases ps.len(),
{
    if ps.len() > 0 {
        lemma_max_bet_bounds(ps.drop_last());
        assert forall|j: int| 0 <= j < ps.len() implies ps[j].current_bet <= max_bet(ps) by {
            if j < ps.len() - 1 {
                assert(ps.drop_last()[j] == ps[j]);
            }
        }
        if ps.last().current_bet > max_bet(ps.drop_last()) || ps.len() == 1 {
            assert(ps[ps.len() - 1].current_bet == max_bet(ps));
        } else {
            let j = choose|j: int| 0 <= j < ps.drop_last().len() && ps.drop_last()[j].current_bet == max_bet(ps.drop_last());
            assert(ps[j].current_bet == max_bet(ps));
        }
    }
}

/// No stack exceeds the total of the stacks.
pub proof fn lemma_total_chips_bounds(ps: Seq<Player>)
    ensures
        forall|j: int| 0 <= j < ps.len() ==> ps[j].chips <= total_chips(ps),
        total_chips(ps) >= 0,
    decreases ps.len(),
{
    if ps.len() > 0 {
        lemma_total_chips_bounds(ps.drop_last());
        assert forall|j: int| 0 <= j < ps.len() implies ps[j].chips <= total_chips(ps) by {
            if j < ps.len() - 1 {
                assert(ps.drop_last()[j] == ps[j]);
            }
        }
    }
}

/// Changing one stack changes the total by the same amount.
pub proof fn lemma_total_chips_update(ps: Seq<Player>, i: int, p: Player)
    requires
        0 <= i < ps.len(),
    ensures
        total_chips(ps.update(i, p)) == total_chips(ps) - ps[i].chips + p.chips,
    decreases ps.len(),
{
    if i < ps.len() - 1 {
        lemma_total_chips_update(ps.drop_last(), i, p);
        assert(ps.update(i, p).drop_last() =~= ps.drop_last().update(i, p));
    } else {
        assert(ps.update(i, p).drop_last() =~= ps.drop_last());
    }
}

/// Totals of two seatings whose stacks agree, seat by seat, are equal.
pub proof fn lemma_total_chips_same(a: Seq<Player>, b: Seq<Player>)
    requires
        a.len() == b.len(),
        forall|j: int| 0 <= j < a.len() ==> a[j].chips == b[j].chips,
    ensures
        total_chips(a) == total_chips(b),
    decreases a.len(),
{
    if a.len() > 0 {
        lemma_total_chips_same(a.drop_last(), b.drop_last());
    }
}

/// A prefix holds no more chips than the whole table.
pub proof fn lemma_total_chips_prefix(ps: Seq<Player>, k: int)
    requires
        0 <= k <= ps.len(),
    ensures
        total_chips(ps.subrange(0, k)) <= total_chips(ps),
    decreases ps.len() - k,
{
    if k < ps.len() {
        lemma_total_chips_prefix(ps, k + 1);
        assert(ps.subrange(0, k + 1).drop_last() =~= ps.subrange(0, k));
    } else {
        assert(ps.subrange(0, k) =~= ps);
    }
}

/// Two seatings whose seats can act alike have the same number of players
/// who can act.
pub proof fn lemma_active_count_same(a: Seq<Player>, b: Seq<Player>)
    requires
        a.len() == b.len(),
        forall|j: int| 0 <= j < a.len() ==> is_active(a[j]) == is_active(b[j]),
    ensures
        active_count(a) == active_count(b),
    decreases a.len(),
{
    if a.len() > 0 {
        lemma_active_count_same(a.drop_last(), b.drop_last());
    }
}

/// What a requested action becomes once made legal.
#[derive(Clone, Copy, Debug, PartialEq, Eq, Structural)]
pub struct Resolution {
    /// The action actually taken.
    pub action: GameAction,
    /// The player's total bet this round afterwards (`None` for a fold).
    pub total_bet: Option<u32>,
    /// Chips moved from the player's stack into the pot.
    pub moved: u32,
    /// The action is a bet or raise, which re-opens the betting.
    pub aggressive: bool,
}

pub open spec fn min_u32(a: int, b: u32) -> u32 {
    if a < b { a as u32 } else { b }
}

/// A call of what is owed, capped by the stack; a check when nothing is owed.
pub open spec fn call_or_check(highest: u32, bet: u32, chips: u32) -> Resolution {
    if highest > bet {
        let m = min_u32(highest - bet, chips);
        Resolution { action: GameAction::Call, total_bet: Some((bet + m) as u32), moved: m, aggressive: false }
    } else {
        Resolution { action: GameAction::Check, total_bet: Some(bet), moved: 0, aggressive: false }
    }
}

/// The legal action that a request becomes, for a player with `bet` in front
/// and `chips` behind, when the highest bet is `highest` and the minimum bet
/// `min_bet`.
pub open spec fn resolve(action: GameAction, highest: u32, bet: u32, chips: u32, min_bet: u32) -> Resolution {
    match action {
        GameAction::Fold => Resolution { action: GameAction::Fold, total_bet: None, moved: 0, aggressive: false },
        GameAction::Call => call_or_check(highest, bet, chips),
        GameAction::Check => call_or_check(highest, bet, chips),
        GameAction::Raise(amount) => {
            if highest == 0 {
                let b = min_u32(amount as int, chips);
                if b < min_bet {
                    Resolution { action: GameAction::Check, total_bet: Some(0), moved: 0, aggressive: false }
                } else {
                    Resolution { action: GameAction::Raise(b), total_bet: Some(b), moved: b, aggressive: true }
                }
            } else if bet + amount < highest + min_bet {
                call_or_check(highest, bet, chips)
            } else {
                let r = min_u32(amount as int, chips);
                Resolution { action: GameAction::Raise(r), total_bet: Some((bet + r) as u32), moved: r, aggressive: true }
            }
        },
    }
}

/// Makes a requested action legal: a call with nothing owed becomes a
/// check, a check facing a bet becomes a call, an opening bet under the
/// minimum becomes a check, a raise under the minimum increment becomes a
/// call (or a check), and every amount is capped by the stack. The result
/// depends on the arguments alone.
pub fn resolve_action(action: GameAction, highest: u32, bet: u32, chips: u32, min_bet: u32) -> (r: Resolution)
    requires
        bet <= highest,
        bet + chips <= u32::MAX,
    ensures
        r == resolve(action, highest, bet, chips, min_bet),
        r.moved <= chips,
{
    match action {
        GameAction::Fold => Resolution { action: GameAction::Fold, total_bet: None, moved: 0, aggressive: false },
        GameAction::Call => call_or_check_exec(highest, bet, chips),
        GameAction::Check => call_or_check_exec(highest, bet, chips),
        GameAction::Raise(amount) => {
            if highest == 0 {
                let b = if amount < chips { amount } else { chips };
                if b < min_bet {
                    Resolution { action: GameAction::Check, total_bet: Some(0), moved: 0, aggressive: false }
                } else {
                    Resolution { action: GameAction::Raise(b), total_bet: Some(b), moved: b, aggressive: true }
                }
            } else if (bet as u64) + (amount as u64) < (highest as u64) + (min_bet as u64) {
                call_or_check_exec(highest, bet, chips)
            } else {
                let r = if amount < chips { amount } else { chips };
                Resolution { action: GameAction::Raise(r), total_bet: Some(bet + r), moved: r, aggressive: true }
            }
        },
    }
}

fn call_or_check_exec(highest: u32, bet: u32, chips: u32) -> (r: Resolution)
    requires
        bet + chips <= u32::MAX,
    ensures
        r == call_or_check(highest, bet, chips),
        r.moved <= chips,
{
    if highest > bet {
        let owed = highest - bet;
        let m = if owed < chips { owed } else { chips };
        Resolution { action: GameAction::Call, total_bet: Some(bet + m), moved: m, aggressive: false }
    } else {
        Resolution { action: GameAction::Check, total_bet: Some(bet), moved: 0, aggressive: false }
    }
}

/// The seat after a resolved action: chips move from the stack to the bet,
/// and a fold marks the seat folded.
pub open spec fn after_action(p: Player, res: Resolution) -> Player {
    Player {
        chips: (p.chips - res.moved) as u32,
        current_bet: (p.current_bet + res.moved) as u32,
        folded: p.folded || res.action == GameAction::Fold,
        ..p
    }
}

/// The seats that have acted, after seat `i` acts without betting or raising.
pub open spec fn mark_acted(acted: Seq<usize>, i: usize) -> Seq<usize> {
    if acted.contains(i) { acted } else { acted.push(i) }
}

/// First seat at or after offset `k` (counting from `from + 1` around the
/// table) holding a player who can act; `from` itself when there is none.
pub open spec fn scan_active(ps: Seq<Player>, from: int, k: int) -> int
    decreases ps.len() + 1 - k,
{
    if k > ps.len() || k < 1 {
        from
    } else if is_active(ps[(from + k) % (ps.len() as int)]) {
        (from + k) % (ps.len() as int)
    } else {
        scan_active(ps, from, k + 1)
    }
}

/// The next seat after `from`, going around the table, whose player can
/// act; `from` when nobody can.
pub open spec fn next_active(ps: Seq<Player>, from: int) -> int {
    scan_active(ps, from, 1)
}

/// The circular scan from offset `k` reaches seat `j` (at offset `t`), so
/// when `j` can act the scan stops at a seat that can act.
proof fn lemma_scan_active_hits(ps: Seq<Player>, from: int, k: int, t: int, j: int)
    requires
        0 <= from < ps.len(),
        1 <= k <= t <= ps.len(),
        (from + t) % (ps.len() as int) == j,
        0 <= j < ps.len(),
        is_active(ps[j]),
    ensures
        0 <= scan_active(ps, from, k) < ps.len(),
        is_active(ps[scan_active(ps, from, k)]),
    decreases t - k,
{
    let n = ps.len() as int;
    assert(0 <= (from + k) % n < n) by (nonlinear_arith)
        requires n > 0, from + k >= 0;
    if !is_active(ps[(from + k) % n]) {
        lemma_scan_active_hits(ps, from, k + 1, t, j);
    }
}

/// When some seat can act, the next seat that can act is found.
pub proof fn lemma_next_active_is_active(ps: Seq<Player>, from: int, j: int)
    requires
        0 <= from < ps.len(),
        0 <= j < ps.len(),
        is_active(ps[j]),
    ensures
        0 <= next_active(ps, from) < ps.len(),
        is_active(ps[next_active(ps, from)]),
{
    let n = ps.len() as int;
    let t = if j > from { j - from } else { j - from + n };
    assert((from + t) % n == j) by (nonlinear_arith)
        requires n > 0, 0 <= from < n, 0 <= j < n, t == (if j > from { j - from } else { j - from + n });
    lemma_scan_active_hits(ps, from, 1, t, j);
}

/// A positive count of players who can act has a witness.
pub proof fn lemma_active_witness(ps: Seq<Player>)
    requires
        active_count(ps) > 0,
    ensures
        exists|j: int| 0 <= j < ps.len() && is_active(#[trigger] ps[j]),
    decreases ps.len(),
{
    if ps.len() > 0 {
        if is_active(ps.last()) {
            assert(is_active(ps[ps.len() - 1]));
        } else {
            lemma_active_witness(ps.drop_last());
            let j = choose|j: int| 0 <= j < ps.drop_last().len() && is_active(#[trigger] ps.drop_last()[j]);
            assert(ps[j] == ps.drop_last()[j]);
        }
    }
}

/// The seat `k` places after `from` at a table of `n` seats.
pub fn seat_after(from: usize, k: usize, n: usize) -> (r: usize)
    requires
        from < n,
        k <= n,
    ensures
        r == (from + k) % (n as int),
        r < n,
{
    if k < n - from {
        proof {
            assert((from + k) % (n as int) == from + k) by (nonlinear_arith)
                requires from + k < n, 0 <= from, 0 <= k;
        }
        from + k
    } else {
        proof {
            assert((from + k) % (n as int) == from + k - n) by (nonlinear_arith)
                requires from + k >= n, from + k < 2 * n, 0 <= from;
        }
        k - (n - from)
    }
}

proof fn seat_after_full_circle(from: int, n: int)
    requires
        0 <= from < n,
    ensures
        (from + n) % n == from,
{
    assert((from + n) % n == from) by (nonlinear_arith)
        requires 0 <= from < n;
}

/// The seat keeps its identity: name, kind of player and bot tier.
pub open spec fn same_identity(a: Player, b: Player) -> bool {
    a.name == b.name && a.is_bot == b.is_bot && a.bot_difficulty == b.bot_difficulty
}

/// The ante a stack of `chips` pays: the full ante, or all that is left.
pub open spec fn ante_paid(chips: u32) -> u32 {
    if chips >= ANTE { ANTE } else { chips }
}

/// The blind owed by seat `j` at a table of `n` seats with the given blind
/// positions: the minimum bet for the big blind, half of it for the small
/// blind, nothing for the rest or at a table of one.
pub open spec fn blind_due(j: int, sb: int, bb: int, n: int, min_bet: u32) -> u32 {
    if n < 2 {
        0
    } else if j == bb {
        min_bet
    } else if j == sb {
        (min_bet / 2) as u32
    } else {
        0
    }
}

/// The blind a stack actually posts after its ante: what is owed, or all
/// that is left.
pub open spec fn blind_paid(chips: u32, due: u32) -> u32 {
    let rest = chips - ante_paid(chips);
    if rest >= due { due } else { rest as u32 }
}

/// The number of community cards dealt when a round begins: 3 on the
/// flop, 1 on the turn and on the river, none otherwise.
pub open spec fn deal_count(round: Round) -> int {
    match round {
        Round::Flop => 3,
        Round::Turn => 1,
        Round::River => 1,
        _ => 0,
    }
}

/// The number of cards on the board for a round: 3 on the flop, 4 on the
/// turn, 5 on the river.
pub open spec fn board_size(round: Round) -> int {
    match round {
        Round::Flop => 3,
        Round::Turn => 4,
        Round::River => 5,
        Round::Showdown => 5,
        Round::PreFlop => 0,
    }
}

/// The round that follows `r`; a new hand follows the showdown.
pub open spec fn next_round_of(r: Round) -> Round {
    match r {
        Round::PreFlop => Round::Flop,
        Round::Flop => Round::Turn,
        Round::Turn => Round::River,
        Round::River => Round::Showdown,
        Round::Showdown => Round::PreFlop,
    }
}

/// The top `m` cards of a deck (its last ones), in the order they are dealt.
pub open spec fn taken(deck: Seq<Card>, m: int) -> Seq<Card> {
    Seq::new(m as nat, |i: int| deck[deck.len() - 1 - i])
}

/// Moves up to `k` cards from the end of `deck` to the end of `dest`, one at
/// a time.
fn draw_cards(deck: &mut Vec<Card>, dest: &mut Vec<Card>, k: usize)
    ensures
        ({
            let m = if old(deck)@.len() >= k { k as int } else { old(deck)@.len() as int };
            &&& final(deck)@ == old(deck)@.subrange(0, old(deck)@.len() - m)
            &&& final(dest)@ == old(dest)@ + taken(old(deck)@, m)
        }),
{
    let ghost d0 = deck@;
    let ghost e0 = dest@;
    let mut i: usize = 0;
    while i < k
        invariant
            i <= k,
            i <= d0.len() ==> deck@ == d0.subrange(0, d0.len() - i) && dest@ == e0 + taken(d0, i as int),
            i > d0.len() ==> deck@ == d0.subrange(0, 0) && dest@ == e0 + taken(d0, d0.len() as int),
        decreases k - i,
    {
        let ghost before = dest@;
        match deck.pop() {
            Some(c) => {
                dest.push(c);
            },
            None => {},
        }
        proof {
            if i < d0.len() {
                assert(deck@ =~= d0.subrange(0, d0.len() - (i + 1)));
                assert(dest@ =~= e0 + taken(d0, i + 1));
            }
        }
        i = i + 1;
    }
}

/// Brings the board to exactly `size` cards: a longer board is cut back to
/// its first `size` cards, a shorter one keeps its cards and gets the
/// missing ones from the top of the deck.
fn fill_board(deck: &mut Vec<Card>, board: &mut Vec<Card>, size: usize)
    requires
        size <= old(deck)@.len(),
    ensures
        ({
            let keep = if old(board)@.len() < size { old(board)@.len() as int } else { size as int };
            &&& final(board)@ == old(board)@.subrange(0, keep) + taken(old(deck)@, size - keep)
            &&& final(deck)@ == old(deck)@.subrange(0, old(deck)@.len() - (size - keep))
            &&& final(board)@.len() == size
        }),
{
    if board.len() > size {
        board.truncate(size);
    } else {
        assert(board@.subrange(0, board@.len() as int) =~= board@);
    }
    let missing = size - board.len();
    draw_cards(deck, board, missing);
}

/// Every card held in the seats' hands, as a multiset.
pub open spec fn held_cards(ps: Seq<Player>) -> Multiset<Card>
    decreases ps.len(),
{
    if ps.len() == 0 {
        Multiset::empty()
    } else {
        held_cards(ps.drop_last()).add(ps.last().hand@.to_multiset())
    }
}

/// Changing one seat's hand changes the held cards by the same cards.
pub proof fn lemma_held_cards_update(ps: Seq<Player>, j: int, p: Player)
    requires
        0 <= j < ps.len(),
    ensures
        held_cards(ps.update(j, p)).add(ps[j].hand@.to_multiset()) =~= held_cards(ps).add(p.hand@.to_multiset()),
    decreases ps.len(),
{
    broadcast use vstd::multiset::group_multiset_axioms;
    let q = ps.update(j, p);
    let a = ps[j].hand@.to_multiset();
    let b = p.hand@.to_multiset();
    let lq = q.last().hand@.to_multiset();
    let lp = ps.last().hand@.to_multiset();
    if j < ps.len() - 1 {
        lemma_held_cards_update(ps.drop_last(), j, p);
        assert(q.drop_last() =~= ps.drop_last().update(j, p));
        assert(ps.drop_last()[j] == ps[j]);
        let hq = held_cards(q.drop_last());
        let hp = held_cards(ps.drop_last());
        assert(hq.add(a) == hp.add(b));
        assert forall|x: Card| #[trigger] held_cards(q).add(a).count(x) == held_cards(ps).add(b).count(x) by {
            assert(hq.add(a).count(x) == hp.add(b).count(x));
        }
    } else {
        assert(q.drop_last() =~= ps.drop_last());
        let h = held_cards(ps.drop_last());
        assert forall|x: Card| #[trigger] held_cards(q).add(a).count(x) == held_cards(ps).add(b).count(x) by {
            assert(held_cards(q).count(x) == h.count(x) + b.count(x));
            assert(held_cards(ps).count(x) == h.count(x) + a.count(x));
        }
    }
}

/// Seatings whose hands agree hold the same cards.
pub proof fn lemma_held_cards_same(a: Seq<Player>, b: Seq<Player>)
    requires
        a.len() == b.len(),
        forall|j: int| 0 <= j < a.len() ==> a[j].hand@ == b[j].hand@,
    ensures
        held_cards(a) == held_cards(b),
    decreases a.len(),
{
    if a.len() > 0 {
        lemma_held_cards_same(a.drop_last(), b.drop_last());
    }
}

/// Seats with empty hands hold no cards.
pub proof fn lemma_held_cards_empty(ps: Seq<Player>)
    requires
        forall|j: int| 0 <= j < ps.len() ==> ps[j].hand@.len() == 0,
    ensures
        held_cards(ps) =~= Multiset::empty(),
    decreases ps.len(),
{
    broadcast use vstd::multiset::group_multiset_axioms;
    if ps.len() > 0 {
        lemma_held_cards_empty(ps.drop_last());
        assert(ps.last().hand@ =~= Seq::<Card>::empty());
        ps.last().hand@.to_multiset_ensures();
    }
}

/// Empties every hand, clears every fold and zeroes every current bet.
fn reset_seats(players: &mut Vec<Player>)
    ensures
        final(players)@.len() == old(players)@.len(),
        forall|j: int| 0 <= j < final(players)@.len() ==> {
            let p = #[trigger] final(players)@[j];
            let q = old(players)@[j];
            &&& same_identity(p, q)
            &&& p.chips == q.chips
            &&& p.hand@.len() == 0
            &&& !p.folded
            &&& p.current_bet == 0
        },
{
    let n = players.len();
    let mut j: usize = 0;
    while j < n
        invariant
            n == players@.len(),
            j <= n,
            forall|t: int| 0 <= t < n ==> {
                let p = #[trigger] players@[t];
                let q = old(players)@[t];
                &&& same_identity(p, q)
                &&& p.chips == q.chips
                &&& t < j ==> p.hand@.len() == 0 && !p.folded && p.current_bet == 0
            },
        decreases n - j,
    {
        players[j].hand = Vec::new();
        players[j].folded = false;
        players[j].current_bet = 0;
        j = j + 1;
    }
}

/// Gives one card from the end of the deck to each seat in turn; once the
/// deck is empty the remaining seats get none.
fn deal_one_each(players: &mut Vec<Player>, deck: &mut Vec<Card>)
    ensures
        final(players)@.len() == old(players)@.len(),
        forall|j: int| 0 <= j < final(players)@.len() ==> {
            let p = #[trigger] final(players)@[j];
            let q = old(players)@[j];
            &&& same_identity(p, q)
            &&& p.chips == q.chips
            &&& p.folded == q.folded
            &&& p.current_bet == q.current_bet
            &&& q.hand@.len() <= p.hand@.len() <= q.hand@.len() + 1
            &&& old(deck)@.len() >= old(players)@.len() ==> p.hand@.len() == q.hand@.len() + 1
        },
        old(deck)@.len() >= old(players)@.len() ==> final(deck)@.len() == old(deck)@.len() - old(players)@.len(),
        final(deck)@.to_multiset().add(held_cards(final(players)@))
            == old(deck)@.to_multiset().add(held_cards(old(players)@)),
        final(deck)@.len() <= old(deck)@.len(),
{
    let n = players.len();
    let mut j: usize = 0;
    while j < n
        invariant
            n == players@.len(),
            j <= n,
            forall|t: int| 0 <= t < n ==> {
                let p = #[trigger] players@[t];
                let q = old(players)@[t];
                &&& same_identity(p, q)
                &&& p.chips == q.chips
                &&& p.folded == q.folded
                &&& p.current_bet == q.current_bet
                &&& q.hand@.len() <= p.hand@.len() <= q.hand@.len() + 1
                &&& t >= j ==> p.hand@.len() == q.hand@.len()
                &&& t < j && old(deck)@.len() >= n ==> p.hand@.len() == q.hand@.len() + 1
            },
            old(deck)@.len() >= n ==> deck@.len() == old(deck)@.len() - j,
            deck@.to_multiset().add(held_cards(players@)) == old(deck)@.to_multiset().add(held_cards(old(players)@)),
            deck@.len() <= old(deck)@.len(),
        decreases n - j,
    {
        let ghost d0 = deck@;
        let ghost ps0 = players@;
        match deck.pop() {
            Some(card) => {
                players[j].hand.push(card);
                proof {
                    broadcast use vstd::multiset::group_multiset_axioms;
                    let p = players@[j as int];
                    assert(d0 =~= deck@.push(card));
                    deck@.to_multiset_ensures();
                    ps0[j as int].hand@.to_multiset_ensures();
                    assert(p.hand@ =~= ps0[j as int].hand@.push(card));
                    assert(players@ =~= ps0.update(j as int, p));
                    lemma_held_cards_update(ps0, j as int, p);
                    let a = ps0[j as int].hand@.to_multiset();
                    let b = p.hand@.to_multiset();
                    assert(d0.to_multiset() == deck@.to_multiset().insert(card));
                    assert(b == a.insert(card));
                    assert(held_cards(players@).add(a) == held_cards(ps0).add(b));
                    assert forall|x: Card| #[trigger] deck@.to_multiset().add(held_cards(players@)).count(x)
                        == d0.to_multiset().add(held_cards(ps0)).count(x) by {
                        assert(held_cards(players@).add(a).count(x) == held_cards(ps0).add(b).count(x));
                    }
                    assert(deck@.to_multiset().add(held_cards(players@)) =~= d0.to_multiset().add(held_cards(ps0)));
                }
            },
            None => {
                assert(players@ =~= ps0);
            },
        }
        j = j + 1;
    }
}


/// Zeroes every current bet and changes nothing else.
pub(crate) fn clear_bets(players: &mut Vec<Player>)
    ensures
        final(players)@.len() == old(players)@.len(),
        forall|j: int| 0 <= j < final(players)@.len() ==> {
            let p = #[trigger] final(players)@[j];
            let q = old(players)@[j];
            &&& same_identity(p, q)
            &&& p.chips == q.chips
            &&& p.hand == q.hand
            &&& p.folded == q.folded
            &&& p.current_bet == 0
        },
{
    let n = players.len();
    let mut j: usize = 0;
    while j < n
        invariant
            n == players@.len(),
            j <= n,
            forall|t: int| 0 <= t < n ==> {
                let p = #[trigger] players@[t];
                let q = old(players)@[t];
                &&& same_identity(p, q)
                &&& p.chips == q.chips
                &&& p.hand == q.hand
                &&& p.folded == q.folded
                &&& t < j ==> p.current_bet == 0
            },
        decreases n - j,
    {
        players[j].current_bet = 0;
        j = j + 1;
    }
}

/// The player has folded, matched `highest`, or is all-in.
pub open spec fn matched_or_out(p: Player, highest: u32) -> bool {
    p.folded || p.current_bet == highest || p.chips == 0
}

/// Every player still in the hand has matched the highest bet or is all-in.
pub open spec fn bets_matched(ps: Seq<Player>, highest: u32) -> bool {
    forall|j: int| 0 <= j < ps.len() ==> matched_or_out(#[trigger] ps[j], highest)
}

/// Seat `j` cannot act, or has acted since the last bet or raise.
pub open spec fn acted_or_idle(ps: Seq<Player>, acted: Seq<usize>, j: int) -> bool {
    is_active(ps[j]) ==> acted.contains(j as usize)
}

/// Every player who can act has acted since the last bet or raise.
pub open spec fn everyone_acted(ps: Seq<Player>, acted: Seq<usize>) -> bool {
    forall|j: int| 0 <= j < ps.len() ==> acted_or_idle(ps, acted, j)
}

/// The player at seat `j` still has to answer the bet at `highest`: they can
/// act, and have not both acted since the last raise and matched it.
pub open spec fn must_answer(ps: Seq<Player>, acted: Seq<usize>, j: int, highest: u32) -> bool {
    is_active(ps[j]) && !(acted.contains(j as usize) && ps[j].current_bet == highest)
}

/// From offset `k` on, the first seat after the aggressor `a` whose player
/// must answer the bet; `None` once the scan comes back to `a`.
pub open spec fn scan_to_act(ps: Seq<Player>, acted: Seq<usize>, a: int, highest: u32, k: int) -> Option<usize>
    decreases ps.len() - k,
{
    if k >= ps.len() || k < 1 {
        None
    } else if must_answer(ps, acted, (a + k) % (ps.len() as int), highest) {
        Some(((a + k) % (ps.len() as int)) as usize)
    } else {
        scan_to_act(ps, acted, a, highest, k + 1)
    }
}

/// The first seat after the aggressor `a` whose player must answer the bet.
pub open spec fn to_act_after(ps: Seq<Player>, acted: Seq<usize>, a: int, highest: u32) -> Option<usize> {
    scan_to_act(ps, acted, a, highest, 1)
}

/// A seat found by the aggressor scan is at the table and can act.
pub proof fn lemma_scan_to_act_range(ps: Seq<Player>, acted: Seq<usize>, a: int, highest: u32, k: int)
    requires
        0 <= a < ps.len(),
        ps.len() <= usize::MAX,
    ensures
        scan_to_act(ps, acted, a, highest, k) matches Some(j) ==> j < ps.len() && is_active(ps[j as int]),
    decreases ps.len() - k,
{
    let n = ps.len() as int;
    if !(k >= n || k < 1) {
        assert(0 <= (a + k) % n < n) by (nonlinear_arith)
            requires n > 0, a >= 0, k >= 0;
        if !must_answer(ps, acted, (a + k) % n, highest) {
            lemma_scan_to_act_range(ps, acted, a, highest, k + 1);
        }
    }
}

impl Game {
    /// The betting round is over: every player still in has matched the
    /// highest bet or is all-in, the big blind has had a turn before the flop
    /// (unless folded), and every player who can act has acted since the last
    /// bet or raise; or the round has run to three actions per active player.
    /// The big blind has had a turn once a turn of theirs has just ended.
    pub open spec fn round_complete(self) -> bool {
        let ps = self.players@;
        (bets_matched(ps, max_bet(ps))
            && (self.round != Round::PreFlop || self.bb_has_acted_preflop
                || self.current_player_idx == self.big_blind_idx || ps[self.big_blind_idx as int].folded)
            && everyone_acted(ps, self.players_acted_this_round@))
        || self.last_action_count >= 3 * active_count(ps)
    }
}

/// The name of seat `i`: the first human is `player_name`, the other humans
/// `Player <i+1>`, the bots `Bot <k>` numbered from one.
pub open spec fn seat_name(i: int, num_human: int, player_name: Seq<char>) -> Seq<char> {
    if i < num_human {
        if i == 0 { player_name } else { "Player "@ + crate::text::decimal((i + 1) as nat) }
    } else {
        "Bot "@ + crate::text::decimal((i - num_human + 1) as nat)
    }
}

/// Seat `i` of a new table.
pub open spec fn fresh_seat(p: Player, i: int, num_human: int, difficulty: BotDifficulty, chips: u32,
    player_name: Seq<char>) -> bool {
    &&& p.name@ == seat_name(i, num_human, player_name)
    &&& p.hand@.len() == 0
    &&& p.chips == chips
    &&& p.current_bet == 0
    &&& !p.folded
    &&& p.is_bot == (i >= num_human)
    &&& p.bot_difficulty == if i >= num_human { difficulty } else { BotDifficulty::Easy }
}

/// A new table before its first deal, with the button anywhere.
pub open spec fn fresh_table(g: Game, num_human: usize, num_bot: usize, difficulty: BotDifficulty, chips: u32,
    api_key: Option<String>, player_name: Seq<char>) -> bool {
    let n = num_human + num_bot;
    &&& g.players@.len() == n
    &&& forall|j: int| 0 <= j < n ==> fresh_seat(#[trigger] g.players@[j], j, num_human as int, difficulty, chips,
        player_name)
    &&& g.deck@ == crate::cards::full_deck()
    &&& g.community_cards@.len() == 0
    &&& g.pot == 0
    &&& g.current_player_idx == 0
    &&& g.min_bet == MIN_BET
    &&& g.round == Round::PreFlop
    &&& g.api_key == api_key
    &&& g.dealer_idx < n
    &&& g.small_blind_idx == (g.dealer_idx + 1) % (n as int)
    &&& g.big_blind_idx == (g.small_blind_idx + 1) % (n as int)
    &&& g.last_action_count == 0
    &&& !g.bb_has_acted_preflop
    &&& g.players_acted_this_round@.len() == 0
    &&& g.last_aggressor.is_none()
    &&& !g.round_action_complete
    &&& g.player_contributions_this_round@ == Seq::new(n as nat, |k: int| 0u32)
}

/// The table `h` and result `r` after the current player of `g` asks for
/// `action`: the action made legal by `resolve`, its chips moved from the
/// stack to the bet and the pot, the player marked as having acted (alone,
/// after a bet or raise, which also makes them the aggressor), the action
/// count one higher, and nothing else changed.
pub open spec fn action_applied(g: Game, action: GameAction, r: (GameAction, Option<u32>), h: Game) -> bool {
    &&& ({
        let i = g.current_player_idx as int;
        let p = g.players@[i];
        let res = resolve(action, max_bet(g.players@), p.current_bet, p.chips, g.min_bet);
        &&& r == (res.action, res.total_bet)
        &&& h.players@ == g.players@.update(i, after_action(p, res))
        &&& h.pot == g.pot + res.moved
        &&& h.player_contributions_this_round@ == g.player_contributions_this_round@.update(
            i, (g.player_contributions_this_round@[i] + res.moved) as u32)
        &&& h.players_acted_this_round@ == if res.aggressive {
            seq![i as usize]
        } else {
            mark_acted(g.players_acted_this_round@, i as usize)
        }
        &&& h.last_aggressor == if res.aggressive { Some(i as usize) } else { g.last_aggressor }
    })
    &&& h.wf()
    &&& h.money() == g.money()
    &&& h.pot >= g.pot
    &&& h.last_action_count == g.last_action_count + 1
    &&& h.current_player_idx == g.current_player_idx
    &&& h.round == g.round
    &&& h.deck@ == g.deck@
    &&& h.community_cards@ == g.community_cards@
    &&& h.min_bet == g.min_bet
    &&& h.dealer_idx == g.dealer_idx
    &&& h.small_blind_idx == g.small_blind_idx
    &&& h.big_blind_idx == g.big_blind_idx
    &&& h.bb_has_acted_preflop == g.bb_has_acted_preflop
    &&& h.round_action_complete == g.round_action_complete
    &&& h.api_key == g.api_key
}

/// The table `h` and result `r` after the betting of `g0` advances, see
/// `next_player`.
pub open spec fn advanced(g0: Game, r: bool, h: Game) -> bool {
    &&& h.wf()
    &&& h.money() == g0.money()
    &&& h.pot == g0.pot
    &&& h.min_bet == g0.min_bet
    &&& h.dealer_idx == g0.dealer_idx
    &&& h.small_blind_idx == g0.small_blind_idx
    &&& h.big_blind_idx == g0.big_blind_idx
    &&& active_count(g0.players@) > 1 && g0.last_action_count >= 3 * active_count(g0.players@)
        ==> (r && h.round == next_round_of(g0.round)) || (!r && g0.round == Round::Showdown)
    &&& ({
        let g = g0;
        let top = max_bet(g.players@);
        let ends_round = g.round_complete() || (g.last_aggressor.is_some()
            && to_act_after(g.players@, g.players_acted_this_round@, g.last_aggressor.unwrap() as int, top).is_none());
        if active_count(g.players@) <= 1 {
            &&& r == (g.round != Round::Showdown)
            &&& h.round == Round::Showdown
            &&& h.players@ == g.players@
            &&& g.round != Round::Showdown ==> h.community_cards@.len() == 5
                && h.community_cards@.subrange(0, g.community_cards@.len() as int) == g.community_cards@
        } else if ends_round && g.round == Round::Showdown {
            &&& !r
            &&& h.round == Round::Showdown
            &&& h.players@ == g.players@
        } else if ends_round {
            &&& r
            &&& h.round == next_round_of(g.round)
            &&& h.players@.len() == g.players@.len()
            &&& forall|j: int| 0 <= j < g.players@.len() ==> {
                let p = #[trigger] h.players@[j];
                let q = g.players@[j];
                &&& same_identity(p, q)
                &&& p.chips == q.chips
                &&& p.folded == q.folded
                &&& p.current_bet == 0
            }
            &&& h.players_acted_this_round@.len() == 0
            &&& h.last_aggressor.is_none()
            &&& h.last_action_count == 0
            &&& h.community_cards@.len() == board_size(h.round)
            &&& h.round != Round::Showdown ==> is_active(h.players@[h.current_player_idx as int])
                && h.current_player_idx == next_active(h.players@, g.small_blind_idx as int)
        } else {
            &&& r
            &&& h.round == g.round
            &&& h.players@ == g.players@
            &&& h.players_acted_this_round@ == g.players_acted_this_round@
            &&& h.last_aggressor == g.last_aggressor
            &&& h.last_action_count == g.last_action_count
            &&& h.bb_has_acted_preflop == (g.bb_has_acted_preflop
                || (g.round == Round::PreFlop && g.current_player_idx == g.big_blind_idx))
            &&& is_active(h.players@[h.current_player_idx as int])
            &&& h.current_player_idx == match g.last_aggressor {
                Some(a) => to_act_after(g.players@, g.players_acted_this_round@, a as int, top).unwrap(),
                None => next_active(g.players@, g.current_player_idx as int) as usize,
            }
        }
    })
}

/// `actions[0..r]` were played in turn from table `g` to table `h`: the
/// tables in between are `states` (from `g` to `h`), each action was applied
/// as `perform_action` applies it (reaching `mids[k]` with result
/// `results[k]`), the betting then advanced as `next_player` advances it
/// (with result `more[k]`), and every advance but the last kept the hand
/// going. Fewer than all the actions were played only when the hand ended
/// (the last advance gave `false`) or the next action could overflow.
pub open spec fn played_in_turn(
    g: Game,
    h: Game,
    actions: Seq<GameAction>,
    r: int,
    states: Seq<Game>,
    mids: Seq<Game>,
    results: Seq<(GameAction, Option<u32>)>,
    more: Seq<bool>,
) -> bool {
    &&& states.len() == r + 1
    &&& mids.len() == r
    &&& results.len() == r
    &&& more.len() == r
    &&& states[0] == g
    &&& states[r] == h
    &&& forall|j: int| #![trigger mids[j]] 0 <= j < r ==> action_applied(states[j], actions[j], results[j], mids[j])
        && advanced(mids[j], more[j], states[j + 1])
    &&& forall|j: int| 0 <= j < r - 1 ==> #[trigger] more[j]
    &&& r < actions.len() ==> (r > 0 && !more[r - 1]) || h.last_action_count == usize::MAX || !h.actor_fits()
}

impl Game {
    /// The table's structural invariant: at least one seat, positions and
    /// indices within the table, one contribution entry per seat, and every
    /// amount bounded so that no sum of chips overflows.
    pub open spec fn wf(&self) -> bool {
        let n = self.players@.len();
        &&& n >= 1
        &&& self.dealer_idx < n
        &&& self.small_blind_idx < n
        &&& self.big_blind_idx < n
        &&& self.current_player_idx < n
        &&& self.player_contributions_this_round@.len() == n
        &&& forall|k: int| 0 <= k < self.players_acted_this_round@.len() ==> self.players_acted_this_round@[k] < n
        &&& self.players_acted_this_round@.no_duplicates()
        &&& (self.last_aggressor matches Some(a) ==> a < n)
        &&& self.community_cards@.len() <= 5
        &&& total_chips(self.players@) + self.pot <= u32::MAX
    }

    /// The acting seat's new bet and contribution fit in 32 bits whatever it
    /// puts in: bet plus stack, and contribution plus stack, do not overflow.
    pub open spec fn actor_fits(&self) -> bool {
        let i = self.current_player_idx as int;
        &&& self.players@[i].current_bet + self.players@[i].chips <= u32::MAX
        &&& self.player_contributions_this_round@[i] + self.players@[i].chips <= u32::MAX
    }

    /// Chips on the table: every stack plus the pot.
    pub open spec fn money(&self) -> int {
        total_chips(self.players@) + self.pot
    }

    /// The highest current bet among the players.
    pub fn highest_bet(&self) -> (r: u32)
        ensures
            r == max_bet(self.players@),
    {
        let mut m: u32 = 0;
        let mut j: usize = 0;
        while j < self.players.len()
            invariant
                j <= self.players@.len(),
                m == max_bet(self.players@.subrange(0, j as int)),
            decreases self.players@.len() - j,
        {
            assert(self.players@.subrange(0, j + 1).drop_last() =~= self.players@.subrange(0, j as int));
            if self.players[j].current_bet > m {
                m = self.players[j].current_bet;
            }
            j = j + 1;
        }
        assert(self.players@.subrange(0, j as int) =~= self.players@);
        m
    }

    /// The next seat after `current_idx`, going around the table, whose
    /// player has not folded and has chips; `current_idx` when there is none.
    pub fn find_next_active_player(&self, current_idx: usize) -> (r: usize)
        requires
            self.players@.len() >= 1,
            current_idx < self.players@.len(),
        ensures
            r == next_active(self.players@, current_idx as int),
            r < self.players@.len(),
    {
        let n = self.players.len();
        let mut k: usize = 1;
        while k < n
            invariant
                n == self.players@.len(),
                current_idx < n,
                1 <= k <= n,
                scan_active(self.players@, current_idx as int, k as int) == next_active(self.players@, current_idx as int),
            decreases n - k,
        {
            let idx = seat_after(current_idx, k, n);
            if !self.players[idx].folded && self.players[idx].chips > 0 {
                return idx;
            }
            k = k + 1;
        }
        proof {
            seat_after_full_circle(current_idx as int, n as int);
            assert(scan_active(self.players@, current_idx as int, n as int + 1) == current_idx as int);
            assert(scan_active(self.players@, current_idx as int, n as int) == current_idx as int);
        }
        current_idx
    }

    /// Whether seat `i` is in the list of seats that have acted this round.
    pub fn has_acted(&self, i: usize) -> (r: bool)
        ensures
            r == self.players_acted_this_round@.contains(i),
    {
        let mut k: usize = 0;
        while k < self.players_acted_this_round.len()
            invariant
                k <= self.players_acted_this_round@.len(),
                forall|t: int| 0 <= t < k ==> self.players_acted_this_round@[t] != i,
            decreases self.players_acted_this_round@.len() - k,
        {
            if self.players_acted_this_round[k] == i {
                return true;
            }
            k = k + 1;
        }
        false
    }

    /// Applies the current player's requested action after making it legal
    /// (see `resolve_action`), and returns the action actually taken with the
    /// player's total bet afterwards. The chips the action costs leave the
    /// player's stack and enter the pot, so stacks plus pot stay the same and
    /// the pot never shrinks. The action counts as the player having acted; a
    /// bet or raise makes the player the aggressor and re-opens the action to
    /// everyone else.
    pub fn perform_action(&mut self, action: GameAction) -> (r: (GameAction, Option<u32>))
        requires
            old(self).wf(),
            old(self).actor_fits(),
            old(self).last_action_count < usize::MAX,
        ensures
            action_applied(*old(self), action, r, *final(self)),
    {
        let i = self.current_player_idx;
        let highest = self.highest_bet();
        let bet = self.players[i].current_bet;
        let chips = self.players[i].chips;
        proof {
            lemma_max_bet_bounds(self.players@);
            lemma_total_chips_bounds(self.players@);
        }
        let res = resolve_action(action, highest, bet, chips, self.min_bet);
        let m = res.moved;
        let ghost old_players = self.players@;

        self.last_action_count = self.last_action_count + 1;
        if res.aggressive {
            self.players_acted_this_round = vec![i];
            assert(self.players_acted_this_round@ =~= seq![i]);
            self.last_aggressor = Some(i);
        } else if !self.has_acted(i) {
            self.players_acted_this_round.push(i);
        }

        self.players[i].chips = chips - m;
        self.players[i].current_bet = bet + m;
        if res.action == GameAction::Fold {
            self.players[i].folded = true;
        }
        self.pot = self.pot + m;
        let c = self.player_contributions_this_round[i];
        self.player_contributions_this_round[i] = c + m;

        proof {
            assert(self.players@ =~= old_players.update(i as int, after_action(old_players[i as int], res)));
            lemma_total_chips_update(old_players, i as int, after_action(old_players[i as int], res));
        }
        (res.action, res.total_bet)
    }

    /// The fresh 52-card deck in its fixed order, see `cards::create_deck`.
    pub fn create_deck() -> (deck: Vec<Card>)
        ensures
            deck@ == crate::cards::full_deck(),
            deck@.len() == 52,
            deck@.no_duplicates(),
            forall|c: Card| deck@.contains(c),
    {
        create_deck()
    }

    /// Puts the deck in a random order; the same cards remain.
    pub fn shuffle_deck(&mut self)
        ensures
            final(self).deck@.len() == old(self).deck@.len(),
            final(self).deck@.to_multiset() == old(self).deck@.to_multiset(),
            final(self).players@ == old(self).players@,
            final(self).community_cards@ == old(self).community_cards@,
            final(self).pot == old(self).pot,
            final(self).round == old(self).round,
            final(self).current_player_idx == old(self).current_player_idx,
            final(self).min_bet == old(self).min_bet,
            final(self).api_key == old(self).api_key,
            final(self).dealer_idx == old(self).dealer_idx,
            final(self).small_blind_idx == old(self).small_blind_idx,
            final(self).big_blind_idx == old(self).big_blind_idx,
            final(self).last_action_count == old(self).last_action_count,
            final(self).bb_has_acted_preflop == old(self).bb_has_acted_preflop,
            final(self).players_acted_this_round@ == old(self).players_acted_this_round@,
            final(self).last_aggressor == old(self).last_aggressor,
            final(self).round_action_complete == old(self).round_action_complete,
            final(self).player_contributions_this_round@ == old(self).player_contributions_this_round@,
    {
        shuffle_cards(&mut self.deck);
    }

    /// After the hole cards are dealt, replaces a deck left with fewer than 35
    /// cards by a fresh shuffled one.
    pub fn refresh_short_deck(&mut self)
        ensures
            old(self).deck@.len() >= 35 ==> final(self).deck@ == old(self).deck@,
            old(self).deck@.len() < 35 ==> final(self).deck@.len() == 52
                && final(self).deck@.to_multiset() == crate::cards::full_deck().to_multiset(),
            final(self).players@ == old(self).players@,
            final(self).community_cards@ == old(self).community_cards@,
            final(self).pot == old(self).pot,
            final(self).round == old(self).round,
            final(self).current_player_idx == old(self).current_player_idx,
            final(self).last_action_count == old(self).last_action_count,
    {
        if self.deck.len() < 35 {
            self.deck = create_deck();
            shuffle_cards(&mut self.deck);
        }
    }

    /// Deals the board for the current round when a round after the pre-flop
    /// has no community cards yet.
    pub fn ensure_board(&mut self)
        requires
            old(self).wf(),
        ensures
            final(self).wf(),
            old(self).round != Round::PreFlop && old(self).round != Round::Showdown
                && old(self).community_cards@.len() == 0
                ==> final(self).community_cards@.len() == board_size(old(self).round),
            !(old(self).round != Round::PreFlop && old(self).community_cards@.len() == 0) ==>
                final(self).community_cards@ == old(self).community_cards@ && final(self).deck@ == old(self).deck@,
            final(self).players@ == old(self).players@,
            final(self).pot == old(self).pot,
            final(self).round == old(self).round,
            final(self).current_player_idx == old(self).current_player_idx,
            final(self).players_acted_this_round@ == old(self).players_acted_this_round@,
            final(self).last_aggressor == old(self).last_aggressor,
            final(self).last_action_count == old(self).last_action_count,
    {
        if self.round != Round::PreFlop && self.community_cards.len() == 0 {
            self.deal_community_cards();
        }
    }

    /// The hand has run past the safety limit on actions in a round, after
    /// which it is ended and the pot awarded.
    pub fn over_action_limit(&self) -> (r: bool)
        ensures
            r == (self.last_action_count > SAFETY_ACTION_LIMIT),
    {
        self.last_action_count > SAFETY_ACTION_LIMIT
    }

    /// After an action and the advance that followed it (which returned
    /// `continues`), whether the hand is over and the pot is to be awarded:
    /// the advance ended the hand, the showdown was reached, or the round ran
    /// past the safety limit on actions.
    pub fn hand_over(&self, continues: bool) -> (r: bool)
        ensures
            r == (!continues || self.round == Round::Showdown || self.last_action_count > SAFETY_ACTION_LIMIT),
    {
        !continues || self.round == Round::Showdown || self.over_action_limit()
    }

    /// Replaces a deck that has fewer than five cards with a fresh, shuffled
    /// 52-card deck; leaves a larger deck alone.
    fn replenish_deck(&mut self)
        ensures
            old(self).deck@.len() >= 5 ==> final(self).deck@ == old(self).deck@,
            old(self).deck@.len() < 5 ==> final(self).deck@.len() == 52
                && final(self).deck@.to_multiset() == crate::cards::full_deck().to_multiset(),
            final(self).deck@.len() >= 5,
            final(self).players@ == old(self).players@,
            final(self).community_cards@ == old(self).community_cards@,
            final(self).pot == old(self).pot,
            final(self).round == old(self).round,
            final(self).current_player_idx == old(self).current_player_idx,
            final(self).dealer_idx == old(self).dealer_idx,
            final(self).small_blind_idx == old(self).small_blind_idx,
            final(self).big_blind_idx == old(self).big_blind_idx,
            final(self).min_bet == old(self).min_bet,
            final(self).last_action_count == old(self).last_action_count,
            final(self).bb_has_acted_preflop == old(self).bb_has_acted_preflop,
            final(self).players_acted_this_round@ == old(self).players_acted_this_round@,
            final(self).last_aggressor == old(self).last_aggressor,
            final(self).round_action_complete == old(self).round_action_complete,
            final(self).player_contributions_this_round@ == old(self).player_contributions_this_round@,
            final(self).api_key == old(self).api_key,
    {
        if self.deck.len() < 5 {
            self.deck = create_deck();
            shuffle_cards(&mut self.deck);
        }
    }

    /// Deals the community cards for the current round: 3 on the flop, 1 on
    /// the turn, 1 on the river, refilling a short deck first. When adding
    /// them would not give the board the round's size (3, 4 or 5 cards), the
    /// board is cleared and dealt again with the right count instead. Before
    /// the flop and at the showdown nothing changes.
    pub fn deal_community_cards(&mut self)
        requires
            old(self).wf(),
        ensures
            final(self).wf(),
            ({
                let r = old(self).round;
                let c = old(self).community_cards@.len() as int;
                let k = deal_count(r);
                let size = board_size(r);
                let dealt = if c + k == size { k } else { size };
                if r == Round::PreFlop || r == Round::Showdown {
                    &&& final(self).community_cards@ == old(self).community_cards@
                    &&& final(self).deck@ == old(self).deck@
                } else {
                    &&& final(self).community_cards@.len() == size
                    &&& c + k == size ==> final(self).community_cards@.subrange(0, c) == old(self).community_cards@
                    &&& old(self).deck@.len() >= 5 ==> {
                        let d = old(self).deck@;
                        &&& final(self).deck@ == d.subrange(0, d.len() - dealt)
                        &&& final(self).community_cards@ == if c + k == size {
                            old(self).community_cards@ + taken(d, k)
                        } else {
                            taken(d, size)
                        }
                    }
                    &&& old(self).deck@.len() < 5 ==> final(self).deck@.len() == 52 - dealt
                }
            }),
            final(self).players@ == old(self).players@,
            final(self).pot == old(self).pot,
            final(self).money() == old(self).money(),
            final(self).round == old(self).round,
            final(self).current_player_idx == old(self).current_player_idx,
            final(self).players_acted_this_round@ == old(self).players_acted_this_round@,
            final(self).last_aggressor == old(self).last_aggressor,
            final(self).last_action_count == old(self).last_action_count,
            final(self).player_contributions_this_round@ == old(self).player_contributions_this_round@,
    {
        let (deal, size): (usize, usize) = match self.round {
            Round::Flop => (3, 3),
            Round::Turn => (1, 4),
            Round::River => (1, 5),
            _ => {
                return;
            },
        };
        self.replenish_deck();
        if self.community_cards.len() + deal == size {
            draw_cards(&mut self.deck, &mut self.community_cards, deal);
        } else {
            self.community_cards.clear();
            draw_cards(&mut self.deck, &mut self.community_cards, size);
        }
    }

    /// Every seat pays the ante, then the small and big blinds post (at a
    /// table of two or more); a short stack pays what it has. What is paid
    /// goes to the pot and to the seat's contribution, and a blind also
    /// becomes the seat's current bet.
    fn post_forced_bets(&mut self)
        requires
            old(self).players@.len() >= 1,
            old(self).pot == 0,
            old(self).small_blind_idx < old(self).players@.len(),
            old(self).big_blind_idx < old(self).players@.len(),
            old(self).players@.len() >= 2 ==> old(self).small_blind_idx != old(self).big_blind_idx,
            old(self).player_contributions_this_round@.len() == old(self).players@.len(),
            forall|j: int| 0 <= j < old(self).players@.len() ==> old(self).players@[j].current_bet == 0,
            total_chips(old(self).players@) <= u32::MAX,
        ensures
            final(self).players@.len() == old(self).players@.len(),
            final(self).player_contributions_this_round@.len() == old(self).players@.len(),
            forall|j: int| 0 <= j < final(self).players@.len() ==> {
                let p = #[trigger] final(self).players@[j];
                let q = old(self).players@[j];
                let due = blind_due(j, old(self).small_blind_idx as int, old(self).big_blind_idx as int,
                    old(self).players@.len() as int, old(self).min_bet);
                let paid = blind_paid(q.chips, due);
                &&& same_identity(p, q)
                &&& p.hand == q.hand
                &&& p.folded == q.folded
                &&& p.chips == q.chips - ante_paid(q.chips) - paid
                &&& p.current_bet == paid
                &&& final(self).player_contributions_this_round@[j] == ante_paid(q.chips) + paid
                &&& final(self).player_contributions_this_round@[j] <= final(self).pot
            },
            total_chips(final(self).players@) + final(self).pot == total_chips(old(self).players@),
            final(self).pot == sum_amounts(final(self).player_contributions_this_round@),
            final(self).deck@ == old(self).deck@,
            final(self).min_bet == old(self).min_bet,
            final(self).dealer_idx == old(self).dealer_idx,
            final(self).small_blind_idx == old(self).small_blind_idx,
            final(self).big_blind_idx == old(self).big_blind_idx,
            final(self).current_player_idx == old(self).current_player_idx,
            final(self).players_acted_this_round@ == old(self).players_acted_this_round@,
            final(self).last_aggressor == old(self).last_aggressor,
            final(self).api_key == old(self).api_key,
            final(self).community_cards@ == old(self).community_cards@,
            final(self).round == old(self).round,
            final(self).last_action_count == old(self).last_action_count,
            final(self).bb_has_acted_preflop == old(self).bb_has_acted_preflop,
            final(self).round_action_complete == old(self).round_action_complete,
    {
        let n = self.players.len();
        let ghost ps0 = self.players@;
        let mut j: usize = 0;
        proof {
            lemma_total_chips_bounds(ps0);
        }
        while j < n
            invariant
                n == self.players@.len(),
                n == ps0.len(),
                n >= 1,
                j <= n,
                ps0 == old(self).players@,
                self.small_blind_idx == old(self).small_blind_idx,
                self.big_blind_idx == old(self).big_blind_idx,
                self.min_bet == old(self).min_bet,
                self.small_blind_idx < n,
                self.big_blind_idx < n,
                n >= 2 ==> self.small_blind_idx != self.big_blind_idx,
                self.player_contributions_this_round@.len() == n,
                total_chips(ps0) <= u32::MAX,
                forall|t: int| 0 <= t < n ==> ps0[t].chips <= total_chips(ps0),
                forall|t: int| 0 <= t < n ==> {
                    let p = #[trigger] self.players@[t];
                    let q = ps0[t];
                    let due = blind_due(t, self.small_blind_idx as int, self.big_blind_idx as int, n as int, self.min_bet);
                    let paid = blind_paid(q.chips, due);
                    &&& same_identity(p, q)
                    &&& p.hand == q.hand
                    &&& p.folded == q.folded
                    &&& t < j ==> p.chips == q.chips - ante_paid(q.chips) - paid && p.current_bet == paid
                        && self.player_contributions_this_round@[t] == ante_paid(q.chips) + paid
                        && self.player_contributions_this_round@[t] <= self.pot
                    &&& t >= j ==> p == q
                },
                self.pot == sum_amounts(self.player_contributions_this_round@.subrange(0, j as int)),
                total_chips(self.players@.subrange(0, j as int)) + self.pot == total_chips(ps0.subrange(0, j as int)),
                self.deck@ == old(self).deck@,
                self.dealer_idx == old(self).dealer_idx,
                self.current_player_idx == old(self).current_player_idx,
                self.players_acted_this_round@ == old(self).players_acted_this_round@,
                self.last_aggressor == old(self).last_aggressor,
                self.api_key == old(self).api_key,
                self.community_cards@ == old(self).community_cards@,
                self.round == old(self).round,
                self.last_action_count == old(self).last_action_count,
                self.bb_has_acted_preflop == old(self).bb_has_acted_preflop,
                self.round_action_complete == old(self).round_action_complete,
            decreases n - j,
        {
            let chips = self.players[j].chips;
            let ante: u32 = if chips >= ANTE { ANTE } else { chips };
            let rest = chips - ante;
            let due: u32 = if n < 2 {
                0
            } else if j == self.big_blind_idx {
                self.min_bet
            } else if j == self.small_blind_idx {
                self.min_bet / 2
            } else {
                0
            };
            let paid: u32 = if rest >= due { due } else { rest };
            proof {
                assert(self.players@.subrange(0, j + 1).drop_last() =~= self.players@.subrange(0, j as int));
                assert(ps0.subrange(0, j + 1).drop_last() =~= ps0.subrange(0, j as int));
                lemma_total_chips_bounds(ps0.subrange(0, j as int));
                lemma_total_chips_bounds(self.players@.subrange(0, j as int));
                assert(total_chips(ps0.subrange(0, j + 1)) <= total_chips(ps0)) by {
                    lemma_total_chips_prefix(ps0, j as int + 1);
                }
            }
            let ghost before = self.players@;
            let ghost contrib_before = self.player_contributions_this_round@;
            self.players[j].chips = rest - paid;
            self.players[j].current_bet = paid;
            self.player_contributions_this_round[j] = ante + paid;
            self.pot = self.pot + ante + paid;
            proof {
                assert(self.players@.subrange(0, j as int) =~= before.subrange(0, j as int));
                assert(self.player_contributions_this_round@.subrange(0, j as int) =~= contrib_before.subrange(0, j as int));
                assert(self.players@.subrange(0, j + 1).drop_last() =~= self.players@.subrange(0, j as int));
                assert(self.player_contributions_this_round@.subrange(0, j + 1).drop_last()
                    =~= self.player_contributions_this_round@.subrange(0, j as int));
            }
            j = j + 1;
        }
        proof {
            assert(self.players@.subrange(0, n as int) =~= self.players@);
            assert(ps0.subrange(0, n as int) =~= ps0);
            assert(self.player_contributions_this_round@.subrange(0, n as int) =~= self.player_contributions_this_round@);
        }
    }

    /// Starts a new hand: moves the button one seat on (the blinds follow
    /// it), clears hands, folds, bets and the board, resets the round's
    /// bookkeeping, deals two cards to each seat from a fresh shuffled deck,
    /// and posts the ante and blinds. The deck and the hands then hold the 52
    /// cards once each. The pot holds exactly what was posted, which left the
    /// stacks: stacks plus pot equal the stacks before the deal.
    pub fn deal_cards(&mut self)
        requires
            old(self).wf(),
        ensures
            final(self).wf(),
            ({
                let n = old(self).players@.len() as int;
                let dealer = (old(self).dealer_idx + 1) % n;
                let sb = (dealer + 1) % n;
                let bb = (sb + 1) % n;
                &&& final(self).dealer_idx == dealer
                &&& final(self).small_blind_idx == sb
                &&& final(self).big_blind_idx == bb
                &&& final(self).players@.len() == n
                &&& forall|j: int| 0 <= j < n ==> {
                    let p = #[trigger] final(self).players@[j];
                    let q = old(self).players@[j];
                    let paid = blind_paid(q.chips, blind_due(j, sb, bb, n, old(self).min_bet));
                    &&& same_identity(p, q)
                    &&& !p.folded
                    &&& p.hand@.len() <= 2
                    &&& n <= 26 ==> p.hand@.len() == 2
                    &&& p.chips == q.chips - ante_paid(q.chips) - paid
                    &&& p.current_bet == paid
                    &&& final(self).player_contributions_this_round@[j] == ante_paid(q.chips) + paid
                }
                &&& n <= 26 ==> final(self).deck@.len() == 52 - 2 * n
                &&& n >= 2 ==> final(self).current_player_idx == (bb + 1) % n
                &&& n < 2 ==> final(self).current_player_idx == old(self).current_player_idx
            }),
            final(self).money() == total_chips(old(self).players@),
            final(self).pot == sum_amounts(final(self).player_contributions_this_round@),
            final(self).deck@.to_multiset().add(held_cards(final(self).players@))
                == crate::cards::full_deck().to_multiset(),
            final(self).community_cards@.len() == 0,
            final(self).round == Round::PreFlop,
            final(self).players_acted_this_round@.len() == 0,
            final(self).last_aggressor.is_none(),
            final(self).last_action_count == 0,
            !final(self).bb_has_acted_preflop,
            !final(self).round_action_complete,
            final(self).min_bet == old(self).min_bet,
            final(self).api_key == old(self).api_key,
    {
        let n = self.players.len();
        self.last_action_count = 0;
        self.bb_has_acted_preflop = false;
        self.players_acted_this_round = Vec::new();
        self.last_aggressor = None;
        self.round_action_complete = false;
        self.player_contributions_this_round = vec![0u32; n];

        self.dealer_idx = seat_after(self.dealer_idx, 1, n);
        self.small_blind_idx = seat_after(self.dealer_idx, 1, n);
        self.big_blind_idx = seat_after(self.small_blind_idx, 1, n);
        proof {
            if n >= 2 {
                assert(self.small_blind_idx != self.big_blind_idx) by (nonlinear_arith)
                    requires self.big_blind_idx == (self.small_blind_idx + 1) % (n as int),
                        self.small_blind_idx < n, n >= 2;
            }
        }
        let ghost ps0 = self.players@;

        reset_seats(&mut self.players);
        self.community_cards.clear();
        self.pot = 0;
        self.round = Round::PreFlop;

        self.deck = create_deck();
        shuffle_cards(&mut self.deck);
        proof {
            lemma_held_cards_empty(self.players@);
            assert(self.deck@.to_multiset().add(held_cards(self.players@))
                =~= crate::cards::full_deck().to_multiset()) by {
                broadcast use vstd::multiset::group_multiset_axioms;
            }
        }
        deal_one_each(&mut self.players, &mut self.deck);
        deal_one_each(&mut self.players, &mut self.deck);
        let ghost dealt = self.players@;

        proof {
            lemma_total_chips_same(self.players@, ps0);
            lemma_total_chips_bounds(ps0);
        }
        self.post_forced_bets();
        proof {
            lemma_held_cards_same(self.players@, dealt);
        }

        if n >= 2 {
            self.current_player_idx = seat_after(self.big_blind_idx, 1, n);
        }
        proof {
            assert forall|j: int| 0 <= j < n implies self.players@[j].current_bet <= self.pot by {
                assert(self.player_contributions_this_round@[j] <= self.pot);
            }
            assert forall|j: int| 0 <= j < n implies self.player_contributions_this_round@[j] <= self.pot by {
                assert(self.players@[j].current_bet <= self.pot);
            }
        }
    }

    /// Ends the current betting round. After the showdown, once the pot has
    /// been paid out, this starts a new hand (see `deal_cards`). Otherwise it
    /// moves to the next round, refills a short deck, clears every current
    /// bet, the acted list, the aggressor, the action count and the round's
    /// contributions, brings the board to the round's size (3 on the flop, 4
    /// on the turn, 5 on the river and at the showdown) keeping the cards
    /// already there, and gives the turn to the first player after the small
    /// blind who can act.
    pub fn next_round(&mut self)
        requires
            old(self).wf(),
            old(self).round == Round::Showdown ==> old(self).pot == 0,
        ensures
            final(self).wf(),
            final(self).round == next_round_of(old(self).round),
            final(self).money() == old(self).money(),
            old(self).round == Round::Showdown ==> final(self).community_cards@.len() == 0
                && final(self).pot == sum_amounts(final(self).player_contributions_this_round@),
            old(self).round != Round::Showdown ==> {
                let n = old(self).players@.len();
                let c = old(self).community_cards@.len() as int;
                let size = board_size(final(self).round);
                let keep = if c < size { c } else { size };
                let d = if old(self).deck@.len() >= 5 { old(self).deck@.len() as int } else { 52int };
                &&& final(self).players@.len() == n
                &&& forall|j: int| 0 <= j < n ==> {
                    let p = #[trigger] final(self).players@[j];
                    let q = old(self).players@[j];
                    &&& same_identity(p, q)
                    &&& p.chips == q.chips
                    &&& p.hand == q.hand
                    &&& p.folded == q.folded
                    &&& p.current_bet == 0
                }
                &&& final(self).pot == old(self).pot
                &&& final(self).community_cards@.len() == size
                &&& final(self).community_cards@.subrange(0, keep) == old(self).community_cards@.subrange(0, keep)
                &&& final(self).deck@.len() == d - (size - keep)
                &&& old(self).deck@.len() >= 5 ==> final(self).deck@ == old(self).deck@.subrange(0, d - (size - keep))
                    && final(self).community_cards@ == old(self).community_cards@.subrange(0, keep)
                        + taken(old(self).deck@, size - keep)
                &&& final(self).players_acted_this_round@.len() == 0
                &&& final(self).last_aggressor.is_none()
                &&& final(self).last_action_count == 0
                &&& !final(self).round_action_complete
                &&& final(self).player_contributions_this_round@ == Seq::new(n, |i: int| 0u32)
                &&& final(self).round != Round::Showdown ==> final(self).current_player_idx
                    == next_active(final(self).players@, old(self).small_blind_idx as int)
                &&& final(self).round != Round::Showdown && active_count(final(self).players@) > 0
                    ==> is_active(final(self).players@[final(self).current_player_idx as int])
                &&& final(self).round == Round::Showdown ==> final(self).current_player_idx
                    == old(self).current_player_idx
                &&& final(self).dealer_idx == old(self).dealer_idx
                &&& final(self).small_blind_idx == old(self).small_blind_idx
                &&& final(self).big_blind_idx == old(self).big_blind_idx
                &&& final(self).bb_has_acted_preflop == old(self).bb_has_acted_preflop
            },
            final(self).min_bet == old(self).min_bet,
            final(self).api_key == old(self).api_key,
    {
        if self.round == Round::Showdown {
            self.deal_cards();
            return;
        }
        self.replenish_deck();
        let size: usize = match self.round {
            Round::PreFlop => 3,
            Round::Flop => 4,
            _ => 5,
        };
        match self.round {
            Round::PreFlop => self.round = Round::Flop,
            Round::Flop => self.round = Round::Turn,
            Round::Turn => self.round = Round::River,
            _ => self.round = Round::Showdown,
        }
        let ghost ps0 = self.players@;
        clear_bets(&mut self.players);
        proof {
            lemma_total_chips_same(self.players@, ps0);
        }
        fill_board(&mut self.deck, &mut self.community_cards, size);
        self.last_action_count = 0;
        self.players_acted_this_round = Vec::new();
        self.last_aggressor = None;
        self.round_action_complete = false;
        self.player_contributions_this_round = vec![0u32; self.players.len()];
        proof {
            assert(self.player_contributions_this_round@ =~= Seq::new(self.players@.len(), |i: int| 0u32));
            assert(self.players_acted_this_round@.no_duplicates());
        }
        if self.round != Round::Showdown {
            proof {
                if active_count(self.players@) > 0 {
                    lemma_active_witness(self.players@);
                    let j = choose|j: int| 0 <= j < self.players@.len() && is_active(#[trigger] self.players@[j]);
                    lemma_next_active_is_active(self.players@, self.small_blind_idx as int, j);
                }
            }
            self.current_player_idx = self.find_next_active_player(self.small_blind_idx);
        }
    }

    /// Number of players who have not folded and still have chips.
    pub fn count_active(&self) -> (r: usize)
        ensures
            r == active_count(self.players@),
            r <= self.players@.len(),
    {
        let mut c: usize = 0;
        let mut j: usize = 0;
        while j < self.players.len()
            invariant
                j <= self.players@.len(),
                c == active_count(self.players@.subrange(0, j as int)),
                c <= j,
            decreases self.players@.len() - j,
        {
            assert(self.players@.subrange(0, j + 1).drop_last() =~= self.players@.subrange(0, j as int));
            if !self.players[j].folded && self.players[j].chips > 0 {
                c = c + 1;
            }
            j = j + 1;
        }
        assert(self.players@.subrange(0, j as int) =~= self.players@);
        c
    }

    /// Whether every player still in the hand has matched `highest` or is all-in.
    fn all_bets_matched(&self, highest: u32) -> (r: bool)
        ensures
            r == bets_matched(self.players@, highest),
    {
        let mut j: usize = 0;
        while j < self.players.len()
            invariant
                j <= self.players@.len(),
                forall|t: int| 0 <= t < j ==> matched_or_out(#[trigger] self.players@[t], highest),
            decreases self.players@.len() - j,
        {
            if !self.players[j].folded && self.players[j].current_bet != highest && self.players[j].chips != 0 {
                return false;
            }
            j = j + 1;
        }
        true
    }

    /// Whether every player who can act has acted since the last bet or raise.
    fn all_active_acted(&self) -> (r: bool)
        ensures
            r == everyone_acted(self.players@, self.players_acted_this_round@),
    {
        let mut j: usize = 0;
        while j < self.players.len()
            invariant
                j <= self.players@.len(),
                forall|t: int| 0 <= t < j ==> acted_or_idle(self.players@, self.players_acted_this_round@, t),
            decreases self.players@.len() - j,
        {
            if !self.players[j].folded && self.players[j].chips > 0 && !self.has_acted(j) {
                assert(!acted_or_idle(self.players@, self.players_acted_this_round@, j as int));
                return false;
            }
            j = j + 1;
        }
        true
    }

    /// The first seat after the aggressor `a`, going around the table, whose
    /// player still has to answer the bet at `highest`; `None` when the scan
    /// comes back to the aggressor.
    fn first_to_act_after(&self, a: usize, highest: u32) -> (r: Option<usize>)
        requires
            a < self.players@.len(),
        ensures
            r == to_act_after(self.players@, self.players_acted_this_round@, a as int, highest),
    {
        let n = self.players.len();
        let mut k: usize = 1;
        while k < n
            invariant
                n == self.players@.len(),
                a < n,
                1 <= k <= n,
                scan_to_act(self.players@, self.players_acted_this_round@, a as int, highest, k as int)
                    == to_act_after(self.players@, self.players_acted_this_round@, a as int, highest),
            decreases n - k,
        {
            let idx = seat_after(a, k, n);
            if !self.players[idx].folded && self.players[idx].chips > 0
                && !(self.has_acted(idx) && self.players[idx].current_bet == highest) {
                return Some(idx);
            }
            k = k + 1;
        }
        None
    }

    /// Advances the betting after an action. With at most one player able to
    /// act, the hand goes straight to the showdown with the board dealt out
    /// (or, already at the showdown, returns `false`: the hand is over). When
    /// the round is complete (see `round_complete`; an action count of three
    /// per active player forces it), the next round begins, or at the showdown
    /// `false` is returned. Otherwise the turn passes: after a bet or raise to
    /// the first player after the aggressor who still has to answer it (none
    /// left means the round is complete after all), else to the next player
    /// who can act. Chips and pot never change here.
    pub fn next_player(&mut self) -> (r: bool)
        requires
            old(self).wf(),
        ensures
            advanced(*old(self), r, *final(self)),
    {
        if self.round == Round::PreFlop && self.current_player_idx == self.big_blind_idx {
            self.bb_has_acted_preflop = true;
        }
        let active = self.count_active();
        if active <= 1 {
            if self.round == Round::Showdown {
                return false;
            }
            self.round = Round::Showdown;
            self.replenish_deck();
            let ghost board = self.community_cards@;
            fill_board(&mut self.deck, &mut self.community_cards, 5);
            assert(self.community_cards@.subrange(0, board.len() as int) =~= board);
            return true;
        }

        let highest = self.highest_bet();
        let matched = self.all_bets_matched(highest);
        let forced = self.last_action_count / 3 >= active;
        let bb_ok = self.round != Round::PreFlop || self.bb_has_acted_preflop
            || self.current_player_idx == self.big_blind_idx || self.players[self.big_blind_idx].folded;
        let all_acted = self.all_active_acted();
        proof {
            assert(forced == (self.last_action_count >= 3 * active)) by (nonlinear_arith)
                requires forced == (self.last_action_count / 3 >= active);
        }

        if (matched && bb_ok && all_acted) || forced {
            if self.round == Round::Showdown {
                return false;
            }
            let ghost before = self.players@;
            self.next_round();
            proof {
                lemma_active_count_same(self.players@, before);
            }
            return true;
        }

        match self.last_aggressor {
            Some(a) => {
                match self.first_to_act_after(a, highest) {
                    Some(j) => {
                        let seats = self.players.len();
                        proof {
                            assert(self.players@.len() == seats);
                            lemma_scan_to_act_range(self.players@, self.players_acted_this_round@, a as int, highest, 1);
                        }
                        self.current_player_idx = j;
                    },
                    None => {
                        if self.round == Round::Showdown {
                            return false;
                        }
                        let ghost before = self.players@;
                        self.next_round();
                        proof {
                            lemma_active_count_same(self.players@, before);
                        }
                        return true;
                    },
                }
            },
            None => {
                proof {
                    lemma_active_witness(self.players@);
                    let j = choose|j: int| 0 <= j < self.players@.len() && is_active(#[trigger] self.players@[j]);
                    lemma_next_active_is_active(self.players@, self.current_player_idx as int, j);
                }
                self.current_player_idx = self.find_next_active_player(self.current_player_idx);
            },
        }
        true
    }

    /// Whether the current player's new bet and contribution fit in 32 bits
    /// whatever they put in (see `actor_fits`).
    pub fn action_fits(&self) -> (r: bool)
        requires
            self.wf(),
        ensures
            r == self.actor_fits(),
    {
        let i = self.current_player_idx;
        let chips = self.players[i].chips as u64;
        (self.players[i].current_bet as u64) + chips <= 4294967295
            && (self.player_contributions_this_round[i] as u64) + chips <= 4294967295
    }

    /// Plays a sequence of actions in order, each by the player whose turn it
    /// is, advancing the betting after each one (see `perform_action` and
    /// `next_player`), and returns how many were played. It stops early only
    /// when the hand is over, or when the next action could overflow (the
    /// action count at its maximum, or a bet that would not fit in 32 bits).
    /// Chips only move between the stacks and the pot along the way, and the
    /// pot never shrinks.
    pub fn play_actions(&mut self, actions: &Vec<GameAction>) -> (r: usize)
        requires
            old(self).wf(),
        ensures
            final(self).wf(),
            r <= actions@.len(),
            final(self).money() == old(self).money(),
            final(self).pot >= old(self).pot,
            exists|states: Seq<Game>, mids: Seq<Game>, results: Seq<(GameAction, Option<u32>)>, more: Seq<bool>|
                played_in_turn(*old(self), *final(self), actions@, r as int, states, mids, results, more),
    {
        let ghost mut states: Seq<Game> = seq![*self];
        let ghost mut mids: Seq<Game> = Seq::empty();
        let ghost mut results: Seq<(GameAction, Option<u32>)> = Seq::empty();
        let ghost mut more: Seq<bool> = Seq::empty();
        let mut k: usize = 0;
        while k < actions.len()
            invariant
                self.wf(),
                k <= actions@.len(),
                self.money() == old(self).money(),
                self.pot >= old(self).pot,
                states.len() == k + 1,
                mids.len() == k,
                results.len() == k,
                more.len() == k,
                states[0] == *old(self),
                states[k as int] == *self,
                forall|j: int| #![trigger mids[j]] 0 <= j < k ==> action_applied(states[j], actions@[j], results[j], mids[j])
                    && advanced(mids[j], more[j], states[j + 1]),
                forall|j: int| 0 <= j < k ==> #[trigger] more[j],
            decreases actions@.len() - k,
        {
            if self.last_action_count == usize::MAX || !self.action_fits() {
                proof {
                    assert(played_in_turn(*old(self), *self, actions@, k as int, states, mids, results, more));
                }
                return k;
            }
            let res = self.perform_action(actions[k]);
            let ghost mid = *self;
            let cont = self.next_player();
            proof {
                let s0 = states;
                let m0 = mids;
                let r0 = results;
                let c0 = more;
                states = s0.push(*self);
                mids = m0.push(mid);
                results = r0.push(res);
                more = c0.push(cont);
                assert forall|j: int| #![trigger mids[j]] 0 <= j < k + 1 implies action_applied(states[j], actions@[j],
                    results[j], mids[j]) && advanced(mids[j], more[j], states[j + 1]) by {
                    if j < k {
                        assert(mids[j] == m0[j]);
                        assert(states[j] == s0[j]);
                        assert(states[j + 1] == s0[j + 1]);
                    }
                }
            }
            k = k + 1;
            if !cont {
                proof {
                    assert forall|j: int| 0 <= j < k - 1 implies #[trigger] more[j] by {
                        assert(more[j] == more.drop_last()[j]);
                    }
                    assert(played_in_turn(*old(self), *self, actions@, k as int, states, mids, results, more));
                }
                return k;
            }
        }
        proof {
            assert(played_in_turn(*old(self), *self, actions@, k as int, states, mids, results, more));
        }
        k
    }

    /// A table of `num_human_players` humans followed by `num_bot_players`
    /// bots of the given tier, each with `starting_chips`, the button at
    /// `dealer_idx` and the blinds on the next two seats, a fresh unshuffled
    /// deck, an empty pot and board, and the round at pre-flop. The first human
    /// is called `player_name`, the other humans `Player 2`, `Player 3`, ...,
    /// and the bots `Bot 1`, `Bot 2`, ...
    pub fn new_with_dealer(
        num_human_players: usize,
        num_bot_players: usize,
        bot_difficulty: BotDifficulty,
        starting_chips: u32,
        api_key: Option<String>,
        player_name: String,
        dealer_idx: usize,
    ) -> (g: Game)
        requires
            num_human_players + num_bot_players >= 1,
            num_human_players + num_bot_players <= usize::MAX,
            dealer_idx < num_human_players + num_bot_players,
            (num_human_players + num_bot_players) * starting_chips <= u32::MAX,
        ensures
            g.wf(),
            fresh_table(g, num_human_players, num_bot_players, bot_difficulty, starting_chips, api_key, player_name@),
            g.dealer_idx == dealer_idx,
    {
        let n = num_human_players + num_bot_players;
        let mut players: Vec<Player> = Vec::new();
        let mut i: usize = 0;
        while i < n
            invariant
                n == num_human_players + num_bot_players,
                i <= n,
                players@.len() == i,
                n * starting_chips <= u32::MAX,
                total_chips(players@) == i * starting_chips,
                forall|j: int| 0 <= j < i ==> fresh_seat(#[trigger] players@[j], j, num_human_players as int,
                    bot_difficulty, starting_chips, player_name@),
            decreases n - i,
        {
            let name = if i < num_human_players {
                if i == 0 {
                    player_name.clone()
                } else {
                    String::from_str("Player ").concat(crate::text::decimal_string(i as u64 + 1).as_str())
                }
            } else {
                let b = i - num_human_players;
                String::from_str("Bot ").concat(crate::text::decimal_string(b as u64 + 1).as_str())
            };
            let is_bot = i >= num_human_players;
            let difficulty = if is_bot { bot_difficulty } else { BotDifficulty::Easy };
            let ghost before = players@;
            players.push(Player {
                name,
                hand: Vec::new(),
                chips: starting_chips,
                current_bet: 0,
                folded: false,
                is_bot,
                bot_difficulty: difficulty,
            });
            proof {
                assert(players@.drop_last() == before);
                assert((i + 1) * starting_chips == i * starting_chips + starting_chips) by (nonlinear_arith);
                assert((i + 1) * starting_chips <= n * starting_chips) by (nonlinear_arith)
                    requires i + 1 <= n;
            }
            i = i + 1;
        }
        let small_blind_idx = seat_after(dealer_idx, 1, n);
        let big_blind_idx = seat_after(small_blind_idx, 1, n);
        let g = Game {
            players,
            deck: create_deck(),
            community_cards: Vec::new(),
            pot: 0,
            current_player_idx: 0,
            min_bet: MIN_BET,
            round: Round::PreFlop,
            api_key,
            dealer_idx,
            small_blind_idx,
            big_blind_idx,
            last_action_count: 0,
            bb_has_acted_preflop: false,
            players_acted_this_round: Vec::new(),
            last_aggressor: None,
            round_action_complete: false,
            player_contributions_this_round: vec![0u32; n],
        };
        proof {
            assert(g.player_contributions_this_round@ =~= Seq::new(n as nat, |k: int| 0u32));
        }
        g
    }

    /// A new table as `new_with_dealer` builds it, with the button on a seat
    /// chosen at random.
    pub fn new(
        num_human_players: usize,
        num_bot_players: usize,
        bot_difficulty: BotDifficulty,
        starting_chips: u32,
        api_key: Option<String>,
        player_name: String,
    ) -> (g: Game)
        requires
            num_human_players + num_bot_players >= 1,
            num_human_players + num_bot_players <= usize::MAX,
            (num_human_players + num_bot_players) * starting_chips <= u32::MAX,
        ensures
            g.wf(),
            fresh_table(g, num_human_players, num_bot_players, bot_difficulty, starting_chips, api_key, player_name@),
    {
        let n = num_human_players + num_bot_players;
        let dealer_idx = crate::bot::random_index(n);
        Game::new_with_dealer(num_human_players, num_bot_players, bot_difficulty, starting_chips, api_key,
            player_name, dealer_idx)
    }
}

/// The acted list after the given seats act in turn, none of them betting
/// or raising (each is added once, as `perform_action` adds it).
pub open spec fn mark_all(acted: Seq<usize>, actors: Seq<usize>) -> Seq<usize>
    decreases actors.len(),
{
    if actors.len() == 0 {
        acted
    } else {
        mark_acted(mark_all(acted, actors.drop_last()), actors.last())
    }
}

/// Marking keeps everyone already marked and adds every actor.
pub proof fn lemma_mark_all_contains(acted: Seq<usize>, actors: Seq<usize>)
    ensures
        forall|k: int| 0 <= k < actors.len() ==> mark_all(acted, actors).contains(#[trigger] actors[k]),
        forall|x: usize| acted.contains(x) ==> mark_all(acted, actors).contains(x),
    decreases actors.len(),
{
    if actors.len() > 0 {
        let prev = mark_all(acted, actors.drop_last());
        lemma_mark_all_contains(acted, actors.drop_last());
        assert forall|x: usize| prev.contains(x) implies mark_acted(prev, actors.last()).contains(x) by {
            if !prev.contains(actors.last()) {
                let i = choose|i: int| 0 <= i < prev.len() && prev[i] == x;
                assert(prev.push(actors.last())[i] == x);
            }
        }
        assert forall|k: int| 0 <= k < actors.len() implies mark_all(acted, actors).contains(#[trigger] actors[k]) by {
            if k < actors.len() - 1 {
                assert(actors.drop_last()[k] == actors[k]);
            } else if !prev.contains(actors.last()) {
                assert(prev.push(actors.last())[prev.len() as int] == actors.last());
            }
        }
    }
}

/// Round completion: once every player who can act has had a turn since the
/// last bet or raise (the aggressor counts as having acted), with nobody
/// betting or raising in between, every player still in has matched the
/// highest bet or is all-in, and before the flop the big blind has had a
/// turn, the round is complete. With N players able to act that takes at
/// most N turns after the last bet or raise.
pub proof fn lemma_round_completes_once_all_acted(g: Game, start: Seq<usize>, actors: Seq<usize>)
    requires
        g.players_acted_this_round@ == mark_all(start, actors),
        forall|j: int| 0 <= j < g.players@.len() && is_active(#[trigger] g.players@[j]) ==> actors.contains(j as usize),
        bets_matched(g.players@, max_bet(g.players@)),
        g.round != Round::PreFlop || g.bb_has_acted_preflop || g.current_player_idx == g.big_blind_idx
            || g.players@[g.big_blind_idx as int].folded,
    ensures
        g.round_complete(),
{
    lemma_mark_all_contains(start, actors);
    assert forall|j: int| 0 <= j < g.players@.len() implies acted_or_idle(g.players@, g.players_acted_this_round@, j) by {
        if is_active(g.players@[j]) {
            let k = choose|k: int| 0 <= k < actors.len() && actors[k] == j as usize;
            assert(mark_all(start, actors).contains(actors[k]));
        }
    }
}

} // verus!
