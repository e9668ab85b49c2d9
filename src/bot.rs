//! The bot decision policy and the reading of action texts.

use vstd::prelude::*;
use crate::game::{BotDifficulty, Game, GameAction, Player, Round};
use crate::text::{decimal, decimal_string, has_prefix, parse_u32, parse_word_u32, second_word, starts_with};

verus! {

/// Relies on rand's `Rng::gen_range` with the thread-local generator, which
/// returns a value in `0..n` (it panics on an empty range).
#[verifier::external_body]
pub(crate) fn random_index(n: usize) -> (r: usize)
    requires
        n > 0,
    ensures
        r < n,
{
    rand::Rng::gen_range(&mut rand::thread_rng(), 0..n)
}

/// How much the policy holds back raises as the round's action count grows:
/// half the count, at most 8.
pub open spec fn raise_penalty(count: usize) -> int {
    if count / 2 < 8 { (count / 2) as int } else { 8 }
}

/// The action text the weighted policy picks for a bot of the given tier,
/// from a draw in `0..10` and a raise multiplier of 1 or 2. Later rounds
/// (turn, river) and long rounds shift the draw away from raising.
pub open spec fn bot_text(
    round: Round,
    count: usize,
    min_bet: u32,
    chips: u32,
    difficulty: BotDifficulty,
    draw: int,
    mult: int,
) -> Seq<char> {
    let late = round == Round::Turn || round == Round::River;
    let has_chips = chips >= min_bet;
    let penalty = raise_penalty(count);
    match difficulty {
        BotDifficulty::Easy => {
            let c = if late || count > 10 { draw + 2 } else { draw };
            if c < 5 {
                "call"@
            } else if c < 8 {
                "check"@
            } else if c < 9 && has_chips && penalty < 8 {
                "raise "@ + decimal(min_bet as nat)
            } else {
                "fold"@
            }
        },
        BotDifficulty::Medium => {
            let c = if late || count > 8 { draw + 3 } else { draw };
            if c < 3 {
                "call"@
            } else if c < 6 {
                "check"@
            } else if c < 9 && has_chips && penalty < 7 {
                "raise "@ + decimal((mult * min_bet) as nat)
            } else {
                "fold"@
            }
        },
        BotDifficulty::Hard => {
            let c = if late || count > 6 { draw + 2 } else { draw };
            if c < 2 {
                "call"@
            } else if c < 4 {
                "check"@
            } else if c < 8 && has_chips && penalty < 6 {
                "raise "@ + decimal((mult * min_bet) as nat)
            } else {
                "fold"@
            }
        },
    }
}

/// The action that a text names: it starts with `fold`, `call`, `check` or
/// `raise`; a raise takes its amount from the second word, or the minimum
/// bet when that word is missing or not a number; anything else is a check.
pub open spec fn parse_action(s: Seq<char>, min_bet: u32) -> GameAction {
    if starts_with(s, "fold"@) {
        GameAction::Fold
    } else if starts_with(s, "call"@) {
        GameAction::Call
    } else if starts_with(s, "check"@) {
        GameAction::Check
    } else if starts_with(s, "raise"@) {
        match parse_u32(second_word(s)) {
            Some(v) => GameAction::Raise(v),
            None => GameAction::Raise(min_bet),
        }
    } else {
        GameAction::Check
    }
}

/// Reads an action text, see `parse_action`. Used both for the policy's own
/// text and for an advisory service's reply.
pub fn parse_bot_action(s: &str, min_bet: u32) -> (r: GameAction)
    ensures
        r == parse_action(s@, min_bet),
{
    if has_prefix(s, "fold") {
        GameAction::Fold
    } else if has_prefix(s, "call") {
        GameAction::Call
    } else if has_prefix(s, "check") {
        GameAction::Check
    } else if has_prefix(s, "raise") {
        let n = s.unicode_len();
        let a = find_from(s, n, 0, true);
        let b = find_from(s, n, a, false);
        let c = find_from(s, n, b, true);
        match parse_word_u32(s, b, c) {
            Some(v) => GameAction::Raise(v),
            None => GameAction::Raise(min_bet),
        }
    } else {
        GameAction::Check
    }
}

/// The text names one of the four canonical actions.
pub open spec fn is_canonical(s: Seq<char>) -> bool {
    starts_with(s, "fold"@) || starts_with(s, "call"@) || starts_with(s, "check"@) || starts_with(s, "raise"@)
}

/// An advisory service's reply as an action, or `None` when the reply names
/// none of the four canonical actions (the caller then falls back to the
/// weighted policy).
pub fn advisory_action(reply: &str, min_bet: u32) -> (r: Option<GameAction>)
    ensures
        is_canonical(reply@) ==> r == Some(parse_action(reply@, min_bet)),
        !is_canonical(reply@) ==> r.is_none(),
{
    if has_prefix(reply, "fold") || has_prefix(reply, "call") || has_prefix(reply, "check") || has_prefix(reply, "raise") {
        Some(parse_bot_action(reply, min_bet))
    } else {
        None
    }
}

fn find_from(s: &str, n: usize, i: usize, space: bool) -> (r: usize)
    requires
        n == s@.len(),
        i <= n,
    ensures
        r == crate::text::next_where(s@, i as int, space),
        i <= r <= n,
{
    crate::text::find_next(s, n, i, space)
}

impl Game {
    /// The policy's action text for `player` given a draw in `0..10` and a
    /// raise multiplier of 1 or 2, see `bot_text`.
    pub fn bot_action_for_draw(&self, player: &Player, draw: u32, mult: u32) -> (r: String)
        requires
            draw < 10,
            1 <= mult <= 2,
        ensures
            r@ == bot_text(self.round, self.last_action_count, self.min_bet, player.chips,
                player.bot_difficulty, draw as int, mult as int),
    {
        let count = self.last_action_count;
        let has_chips = player.chips >= self.min_bet;
        let penalty: usize = if count / 2 < 8 { count / 2 } else { 8 };
        let late = self.round == Round::Turn || self.round == Round::River;
        match player.bot_difficulty {
            BotDifficulty::Easy => {
                let c = if late || count > 10 { draw + 2 } else { draw };
                if c < 5 {
                    String::from_str("call")
                } else if c < 8 {
                    String::from_str("check")
                } else if c < 9 && has_chips && penalty < 8 {
                    String::from_str("raise ").concat(decimal_string(self.min_bet as u64).as_str())
                } else {
                    String::from_str("fold")
                }
            },
            BotDifficulty::Medium => {
                let c = if late || count > 8 { draw + 3 } else { draw };
                if c < 3 {
                    String::from_str("call")
                } else if c < 6 {
                    String::from_str("check")
                } else if c < 9 && has_chips && penalty < 7 {
                    let amount: u64 = if mult == 2 { 2 * (self.min_bet as u64) } else { self.min_bet as u64 };
                    assert(amount == mult as int * self.min_bet as int) by (nonlinear_arith)
                        requires mult == 1 || mult == 2,
                            amount == (if mult == 2 { 2 * (self.min_bet as int) } else { self.min_bet as int });
                    String::from_str("raise ").concat(decimal_string(amount).as_str())
                } else {
                    String::from_str("fold")
                }
            },
            BotDifficulty::Hard => {
                let c = if late || count > 6 { draw + 2 } else { draw };
                if c < 2 {
                    String::from_str("call")
                } else if c < 4 {
                    String::from_str("check")
                } else if c < 8 && has_chips && penalty < 6 {
                    let amount: u64 = if mult == 2 { 2 * (self.min_bet as u64) } else { self.min_bet as u64 };
                    assert(amount == mult as int * self.min_bet as int) by (nonlinear_arith)
                        requires mult == 1 || mult == 2,
                            amount == (if mult == 2 { 2 * (self.min_bet as int) } else { self.min_bet as int });
                    String::from_str("raise ").concat(decimal_string(amount).as_str())
                } else {
                    String::from_str("fold")
                }
            },
        }
    }

    /// The weighted random policy: draws a number in `0..10` and a raise
    /// multiplier of 1 or 2, and returns the action text for them.
    pub fn generate_random_bot_action(&self, player: &Player) -> (r: String)
        ensures
            exists|draw: int, mult: int| 0 <= draw < 10 && 1 <= mult <= 2 && r@ == bot_text(self.round,
                self.last_action_count, self.min_bet, player.chips, player.bot_difficulty, draw, mult),
    {
        let draw = random_index(10) as u32;
        let mult = random_index(2) as u32 + 1;
        self.bot_action_for_draw(player, draw, mult)
    }

    /// The action the policy takes for a draw and multiplier, as an action.
    pub fn decide_bot_action(&self, player: &Player, draw: u32, mult: u32) -> (r: GameAction)
        requires
            draw < 10,
            1 <= mult <= 2,
        ensures
            r == parse_action(bot_text(self.round, self.last_action_count, self.min_bet, player.chips,
                player.bot_difficulty, draw as int, mult as int), self.min_bet),
    {
        let text = self.bot_action_for_draw(player, draw, mult);
        parse_bot_action(text.as_str(), self.min_bet)
    }

    /// A bot's next action from the weighted policy; always `Ok`.
    pub fn get_bot_action(&self, bot_player: &Player) -> (r: Result<GameAction, String>)
        ensures
            r matches Ok(a) && exists|draw: int, mult: int| 0 <= draw < 10 && 1 <= mult <= 2
                && a == parse_action(bot_text(self.round, self.last_action_count, self.min_bet,
                    bot_player.chips, bot_player.bot_difficulty, draw, mult), self.min_bet),
    {
        let text = self.generate_random_bot_action(bot_player);
        Ok(parse_bot_action(text.as_str(), self.min_bet))
    }
}

} // verus!
