use holdem::game::{BotDifficulty, Game, GameAction, Round, resolve_action};

fn table(humans: usize, bots: usize, dealer: usize) -> Game {
    Game::new_with_dealer(humans, bots, BotDifficulty::Easy, 100, None, "Alice".to_string(), dealer)
}

fn money(g: &Game) -> u64 {
    g.players.iter().map(|p| p.chips as u64).sum::<u64>() + g.pot as u64
}

#[test]
fn heads_up_call_and_check_deals_the_flop() {
    let mut g = table(1, 1, 1);
    g.deal_cards();
    assert_eq!(g.dealer_idx, 0);
    assert_eq!(g.small_blind_idx, 1);
    assert_eq!(g.big_blind_idx, 0);
    assert_eq!(g.players[1].current_bet, 5);
    assert_eq!(g.players[0].current_bet, 10);
    assert_eq!(g.pot, 17);
    assert_eq!(g.current_player_idx, 1);

    let (taken, total) = g.perform_action(GameAction::Call);
    assert_eq!(taken, GameAction::Call);
    assert_eq!(total, Some(10));
    assert!(g.next_player());
    assert_eq!(g.round, Round::PreFlop);
    assert_eq!(g.current_player_idx, 0);

    let (taken, total) = g.perform_action(GameAction::Check);
    assert_eq!(taken, GameAction::Check);
    assert_eq!(total, Some(10));
    assert!(g.next_player());
    assert_eq!(g.round, Round::Flop);
    assert_eq!(g.community_cards.len(), 3);
    assert_eq!(g.pot, 22);
    assert_eq!(g.players[0].chips, 89);
    assert_eq!(g.players[1].chips, 89);
    assert_eq!(g.players[0].current_bet, 0);
    assert_eq!(money(&g), 200);
}

#[test]
fn raise_then_two_folds_ends_the_hand_for_the_raiser() {
    let mut g = table(1, 2, 2);
    g.deal_cards();
    assert_eq!((g.dealer_idx, g.small_blind_idx, g.big_blind_idx), (0, 1, 2));
    assert_eq!(g.current_player_idx, 0);

    assert_eq!(g.perform_action(GameAction::Call), (GameAction::Call, Some(10)));
    assert!(g.next_player());
    assert_eq!(g.current_player_idx, 1);
    assert_eq!(g.perform_action(GameAction::Call), (GameAction::Call, Some(10)));
    assert!(g.next_player());
    assert_eq!(g.current_player_idx, 2);
    assert_eq!(g.perform_action(GameAction::Raise(20)), (GameAction::Raise(20), Some(30)));
    assert_eq!(g.last_aggressor, Some(2));
    assert!(g.next_player());
    assert_eq!(g.current_player_idx, 0);
    assert_eq!(g.perform_action(GameAction::Fold), (GameAction::Fold, None));
    assert!(g.next_player());
    assert_eq!(g.current_player_idx, 1);
    assert_eq!(g.perform_action(GameAction::Fold), (GameAction::Fold, None));
    assert!(g.next_player());
    assert_eq!(g.round, Round::Showdown);

    let pot = g.pot;
    assert_eq!(pot, 53);
    let (winner, amount, text) = g.determine_winner();
    assert_eq!(winner, 2);
    assert_eq!(amount, 53);
    assert_eq!(text, "by being the last player standing (others folded)");
    assert_eq!(g.pot, 0);
    assert_eq!(g.players[2].chips, 122);
    assert_eq!(money(&g), 300);
}

#[test]
fn undersized_raise_becomes_a_call() {
    let r = resolve_action(GameAction::Raise(3), 10, 0, 100, 10);
    assert_eq!(r.action, GameAction::Call);
    assert_eq!(r.total_bet, Some(10));
    assert_eq!(r.moved, 10);
    assert!(!r.aggressive);

    let mut g = table(1, 2, 2);
    g.deal_cards();
    assert_eq!(g.players[0].current_bet, 0);
    assert_eq!(g.perform_action(GameAction::Raise(3)), (GameAction::Call, Some(10)));
    assert_eq!(g.players[0].chips, 89);
    assert_eq!(g.last_aggressor, None);
}

#[test]
fn short_deck_is_rebuilt_before_the_turn_card() {
    let mut g = table(1, 1, 1);
    g.deal_cards();
    g.round = Round::Turn;
    for _ in 0..3 {
        let c = g.deck.pop().unwrap();
        g.community_cards.push(c);
    }
    g.deck.truncate(4);
    g.deal_community_cards();
    assert_eq!(g.community_cards.len(), 4);
    assert_eq!(g.deck.len(), 51);
}

#[test]
fn a_sequence_of_actions_keeps_chips_and_pot_together() {
    let mut g = table(1, 3, 3);
    g.deal_cards();
    let start_pot = g.pot;
    let actions = vec![
        GameAction::Call, GameAction::Raise(25), GameAction::Call, GameAction::Call, GameAction::Check,
        GameAction::Raise(40), GameAction::Fold, GameAction::Call, GameAction::Call, GameAction::Check,
        GameAction::Check, GameAction::Raise(1000), GameAction::Call, GameAction::Call,
    ];
    let played = g.play_actions(&actions);
    assert!(played <= actions.len());
    assert!(played > 0);
    assert_eq!(money(&g), 400);
    assert!(g.pot >= start_pot);
}
