//! Names of table positions relative to the button and the blinds.

use vstd::prelude::*;
use crate::game::Game;

verus! {

/// The name of seat `p`'s position at a table of `n` seats with the given
/// button and blinds: the button and blinds by name, nothing else at three
/// seats or fewer, otherwise by distance after the big blind (UTG, UTG+1,
/// UTG+2, middle position, hijack, cut-off).
pub open spec fn position_name(n: int, dealer: int, sb: int, bb: int, p: int) -> Seq<char> {
    if p == dealer {
        "Button (BTN)"@
    } else if p == sb {
        "Small Blind (SB)"@
    } else if p == bb {
        "Big Blind (BB)"@
    } else if n <= 3 {
        ""@
    } else {
        let d = (p + n - bb) % n;
        if d == 1 {
            "Under The Gun (UTG)"@
        } else if d == 2 {
            "UTG+1"@
        } else if d == 3 {
            "UTG+2"@
        } else if d == 4 {
            if n >= 7 { "Middle Position (MP)"@ } else { "Hijack (HJ)"@ }
        } else if d == 5 {
            if n >= 8 { "Middle Position +1 (MP+1)"@ } else { "Hijack (HJ)"@ }
        } else if d == 6 {
            "Hijack (HJ)"@
        } else if d == 7 {
            "Cut-off (CO)"@
        } else if p == (dealer + n - 1) % n {
            "Cut-off (CO)"@
        } else if p == (dealer + n - 2) % n {
            "Hijack (HJ)"@
        } else {
            "Middle Position (MP)"@
        }
    }
}

/// The name of the position of seat `player_idx`, see `position_name`.
pub fn get_player_position(game: &Game, player_idx: usize) -> (r: String)
    requires
        game.wf(),
    ensures
        r@ == position_name(game.players@.len() as int, game.dealer_idx as int, game.small_blind_idx as int,
            game.big_blind_idx as int, player_idx as int),
{
    let s = if player_idx == game.dealer_idx {
        "Button (BTN)"
    } else if player_idx == game.small_blind_idx {
        "Small Blind (SB)"
    } else if player_idx == game.big_blind_idx {
        "Big Blind (BB)"
    } else if game.players.len() <= 3 {
        ""
    } else {
        let n = game.players.len() as u128;
        let d = ((player_idx as u128) + n - (game.big_blind_idx as u128)) % n;
        if d == 1 {
            "Under The Gun (UTG)"
        } else if d == 2 {
            "UTG+1"
        } else if d == 3 {
            "UTG+2"
        } else if d == 4 {
            if n >= 7 { "Middle Position (MP)" } else { "Hijack (HJ)" }
        } else if d == 5 {
            if n >= 8 { "Middle Position +1 (MP+1)" } else { "Hijack (HJ)" }
        } else if d == 6 {
            "Hijack (HJ)"
        } else if d == 7 {
            "Cut-off (CO)"
        } else if (player_idx as u128) == ((game.dealer_idx as u128) + n - 1) % n {
            "Cut-off (CO)"
        } else if (player_idx as u128) == ((game.dealer_idx as u128) + n - 2) % n {
            "Hijack (HJ)"
        } else {
            "Middle Position (MP)"
        }
    };
    String::from_str(s)
}

} // verus!
