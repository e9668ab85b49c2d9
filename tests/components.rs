use holdem::bot::parse_bot_action;
use holdem::cards::{create_deck, shuffle_cards, Card, Rank, Suit};
use holdem::game::{BotDifficulty, Game, GameAction, Player, Round};
use holdem::hand::{evaluate, stronger, HandStrength};
use holdem::position::get_player_position;
use holdem::text::decimal_string;

fn c(rank: Rank, suit: Suit) -> Card {
    Card { rank, suit }
}

fn key(card: &Card) -> (u8, u8) {
    (card.suit.index(), card.rank.index())
}

fn strength(cards: Vec<Card>) -> HandStrength {
    evaluate(&cards).expect("rankable")
}

fn money(g: &Game) -> u64 {
    g.players.iter().map(|p| p.chips as u64).sum::<u64>() + g.pot as u64
}

#[test]
fn fresh_deck_has_every_card_once() {
    let deck = create_deck();
    assert_eq!(deck.len(), 52);
    let mut keys: Vec<(u8, u8)> = deck.iter().map(key).collect();
    keys.sort();
    keys.dedup();
    assert_eq!(keys.len(), 52);
    assert_eq!(deck[0], c(Rank::Two, Suit::Hearts));
    assert_eq!(deck[12], c(Rank::Ace, Suit::Hearts));
    assert_eq!(deck[13], c(Rank::Two, Suit::Diamonds));
    assert_eq!(deck[51], c(Rank::Ace, Suit::Spades));
    assert_eq!(Game::create_deck(), deck);
}

#[test]
fn shuffle_keeps_the_cards_and_changes_the_order() {
    let fresh = create_deck();
    let mut moved = false;
    for _ in 0..10 {
        let mut deck = create_deck();
        shuffle_cards(&mut deck);
        let mut a: Vec<(u8, u8)> = deck.iter().map(key).collect();
        let mut b: Vec<(u8, u8)> = fresh.iter().map(key).collect();
        if deck != fresh {
            moved = true;
        }
        a.sort();
        b.sort();
        assert_eq!(a, b);
    }
    assert!(moved);
}

#[test]
fn card_and_rank_and_suit_text() {
    assert_eq!(c(Rank::Ace, Suit::Hearts).to_string(), "[A♥]");
    assert_eq!(c(Rank::Ten, Suit::Spades).to_string(), "[10♠]");
    assert_eq!(c(Rank::Two, Suit::Clubs).to_string(), "[2♣]");
    assert_eq!(c(Rank::Queen, Suit::Diamonds).to_string(), "[Q♦]");
    assert_eq!(Rank::Ten.to_string(), "10");
    assert_eq!(Rank::King.to_string(), "K");
    assert_eq!(Suit::Clubs.to_string(), "Clubs");
    assert_eq!(Suit::Diamonds.to_string(), "Diamonds");
}

#[test]
fn flush_beats_three_of_a_kind() {
    let flush = strength(vec![
        c(Rank::Two, Suit::Hearts), c(Rank::Five, Suit::Hearts), c(Rank::Seven, Suit::Hearts),
        c(Rank::Nine, Suit::Hearts), c(Rank::Jack, Suit::Hearts), c(Rank::Three, Suit::Clubs),
        c(Rank::Four, Suit::Diamonds),
    ]);
    let trips = strength(vec![
        c(Rank::Eight, Suit::Spades), c(Rank::Eight, Suit::Diamonds), c(Rank::Eight, Suit::Clubs),
        c(Rank::King, Suit::Spades), c(Rank::Three, Suit::Diamonds), c(Rank::Six, Suit::Clubs),
        c(Rank::Queen, Suit::Diamonds),
    ]);
    assert_eq!(flush.category, 5);
    assert_eq!(trips.category, 3);
    assert!(stronger(flush, trips));
    assert!(!stronger(trips, flush));
    assert_eq!(flush.category_name(), "Flush");
    assert_eq!(trips.category_name(), "Three of a Kind");
}

#[test]
fn higher_pair_wins_and_identical_hands_tie() {
    let kings = strength(vec![
        c(Rank::King, Suit::Spades), c(Rank::King, Suit::Hearts), c(Rank::Two, Suit::Clubs),
        c(Rank::Five, Suit::Diamonds), c(Rank::Nine, Suit::Clubs), c(Rank::Jack, Suit::Diamonds),
        c(Rank::Three, Suit::Spades),
    ]);
    let queens = strength(vec![
        c(Rank::Queen, Suit::Spades), c(Rank::Queen, Suit::Hearts), c(Rank::Two, Suit::Diamonds),
        c(Rank::Five, Suit::Clubs), c(Rank::Nine, Suit::Diamonds), c(Rank::Jack, Suit::Clubs),
        c(Rank::Four, Suit::Spades),
    ]);
    assert_eq!(kings.category, 1);
    assert_eq!(queens.category, 1);
    assert!(stronger(kings, queens));
    let again = strength(vec![
        c(Rank::King, Suit::Spades), c(Rank::King, Suit::Hearts), c(Rank::Two, Suit::Clubs),
        c(Rank::Five, Suit::Diamonds), c(Rank::Nine, Suit::Clubs), c(Rank::Jack, Suit::Diamonds),
        c(Rank::Three, Suit::Spades),
    ]);
    assert_eq!(kings, again);
    assert!(!stronger(kings, again));
}

#[test]
fn straights_including_the_wheel() {
    let wheel = strength(vec![
        c(Rank::Ace, Suit::Spades), c(Rank::Two, Suit::Hearts), c(Rank::Three, Suit::Clubs),
        c(Rank::Four, Suit::Diamonds), c(Rank::Five, Suit::Clubs),
    ]);
    let six_high = strength(vec![
        c(Rank::Six, Suit::Spades), c(Rank::Two, Suit::Hearts), c(Rank::Three, Suit::Clubs),
        c(Rank::Four, Suit::Diamonds), c(Rank::Five, Suit::Clubs),
    ]);
    assert_eq!(wheel.category, 4);
    assert_eq!(six_high.category, 4);
    assert!(stronger(six_high, wheel));
    let royal = strength(vec![
        c(Rank::Ace, Suit::Hearts), c(Rank::King, Suit::Hearts), c(Rank::Queen, Suit::Hearts),
        c(Rank::Jack, Suit::Hearts), c(Rank::Ten, Suit::Hearts),
    ]);
    assert_eq!(royal.category, 8);
    assert_eq!(royal.category_name(), "Straight Flush");
}

#[test]
fn unrankable_card_sets_give_none() {
    let four = vec![
        c(Rank::Ace, Suit::Spades), c(Rank::Ace, Suit::Hearts), c(Rank::Ace, Suit::Clubs),
        c(Rank::Ace, Suit::Diamonds),
    ];
    assert_eq!(evaluate(&four), None);
    let repeated = vec![
        c(Rank::Ace, Suit::Spades), c(Rank::Ace, Suit::Spades), c(Rank::Two, Suit::Clubs),
        c(Rank::Five, Suit::Diamonds), c(Rank::Nine, Suit::Clubs),
    ];
    assert_eq!(evaluate(&repeated), None);
    let quads_only = vec![
        c(Rank::Ace, Suit::Hearts), c(Rank::Ace, Suit::Diamonds), c(Rank::Ace, Suit::Clubs),
        c(Rank::Ace, Suit::Spades), c(Rank::King, Suit::Hearts), c(Rank::King, Suit::Diamonds),
        c(Rank::King, Suit::Clubs), c(Rank::King, Suit::Spades),
    ];
    assert_eq!(evaluate(&quads_only), None);
    let two = vec![c(Rank::Ace, Suit::Spades), c(Rank::Ace, Suit::Hearts)];
    assert_eq!(evaluate(&two).map(|s| s.category), Some(1));
}

#[test]
fn action_texts_parse_to_actions() {
    assert_eq!(parse_bot_action("fold", 10), GameAction::Fold);
    assert_eq!(parse_bot_action("call", 10), GameAction::Call);
    assert_eq!(parse_bot_action("check it", 10), GameAction::Check);
    assert_eq!(parse_bot_action("raise 25", 10), GameAction::Raise(25));
    assert_eq!(parse_bot_action("raise", 10), GameAction::Raise(10));
    assert_eq!(parse_bot_action("raise abc", 10), GameAction::Raise(10));
    assert_eq!(parse_bot_action("raise +7", 10), GameAction::Raise(7));
    assert_eq!(parse_bot_action("raise 4294967295", 10), GameAction::Raise(4294967295));
    assert_eq!(parse_bot_action("raise 4294967296", 10), GameAction::Raise(10));
    assert_eq!(parse_bot_action("raise  \t 30 more", 10), GameAction::Raise(30));
    assert_eq!(parse_bot_action("raised 40", 10), GameAction::Raise(40));
    assert_eq!(parse_bot_action("hello", 10), GameAction::Check);
    assert_eq!(parse_bot_action("", 10), GameAction::Check);
}

#[test]
fn decimal_text() {
    assert_eq!(decimal_string(0), "0");
    assert_eq!(decimal_string(7), "7");
    assert_eq!(decimal_string(1234567890), "1234567890");
    assert_eq!(decimal_string(u64::MAX), "18446744073709551615");
}

fn bot(chips: u32, difficulty: BotDifficulty) -> Player {
    Player {
        name: "Bot".to_string(),
        hand: Vec::new(),
        chips,
        current_bet: 0,
        folded: false,
        is_bot: true,
        bot_difficulty: difficulty,
    }
}

#[test]
fn weighted_policy_for_given_draws() {
    let mut g = Game::new_with_dealer(1, 2, BotDifficulty::Easy, 100, None, "Alice".to_string(), 0);
    let easy = bot(100, BotDifficulty::Easy);
    assert_eq!(g.bot_action_for_draw(&easy, 0, 1), "call");
    assert_eq!(g.bot_action_for_draw(&easy, 5, 1), "check");
    assert_eq!(g.bot_action_for_draw(&easy, 8, 2), "raise 10");
    assert_eq!(g.bot_action_for_draw(&easy, 9, 1), "fold");
    assert_eq!(g.bot_action_for_draw(&bot(5, BotDifficulty::Easy), 8, 1), "fold");
    assert_eq!(g.decide_bot_action(&easy, 8, 1), GameAction::Raise(10));

    let medium = bot(100, BotDifficulty::Medium);
    assert_eq!(g.bot_action_for_draw(&medium, 6, 2), "raise 20");
    assert_eq!(g.bot_action_for_draw(&medium, 2, 1), "call");
    let hard = bot(100, BotDifficulty::Hard);
    assert_eq!(g.bot_action_for_draw(&hard, 4, 1), "raise 10");
    assert_eq!(g.bot_action_for_draw(&hard, 1, 1), "call");

    g.round = Round::Turn;
    assert_eq!(g.bot_action_for_draw(&medium, 6, 2), "fold");
    assert_eq!(g.bot_action_for_draw(&medium, 0, 1), "check");
    assert_eq!(g.bot_action_for_draw(&easy, 3, 1), "check");

    g.round = Round::Flop;
    g.last_action_count = 12;
    assert_eq!(g.bot_action_for_draw(&hard, 4, 1), "fold");
    assert_eq!(g.bot_action_for_draw(&hard, 0, 1), "check");
}

#[test]
fn random_policy_yields_a_canonical_action() {
    let g = Game::new_with_dealer(1, 2, BotDifficulty::Medium, 100, None, "Alice".to_string(), 0);
    let p = bot(100, BotDifficulty::Medium);
    for _ in 0..50 {
        let text = g.generate_random_bot_action(&p);
        assert!(["call", "check", "fold", "raise 10", "raise 20"].contains(&text.as_str()), "{}", text);
        let a = g.get_bot_action(&p).unwrap();
        assert!(matches!(a, GameAction::Call | GameAction::Check | GameAction::Fold | GameAction::Raise(10) | GameAction::Raise(20)));
    }
}

#[test]
fn position_names_around_a_full_table() {
    let g = Game::new_with_dealer(1, 8, BotDifficulty::Easy, 100, None, "Alice".to_string(), 0);
    let names: Vec<String> = (0..9).map(|i| get_player_position(&g, i)).collect();
    assert_eq!(names, vec![
        "Button (BTN)", "Small Blind (SB)", "Big Blind (BB)", "Under The Gun (UTG)", "UTG+1", "UTG+2",
        "Middle Position (MP)", "Middle Position +1 (MP+1)", "Hijack (HJ)",
    ]);
    let small = Game::new_with_dealer(1, 2, BotDifficulty::Easy, 100, None, "Alice".to_string(), 2);
    assert_eq!(get_player_position(&small, 2), "Button (BTN)");
    assert_eq!(get_player_position(&small, 0), "Small Blind (SB)");
    let five = Game::new_with_dealer(1, 4, BotDifficulty::Easy, 100, None, "Alice".to_string(), 0);
    assert_eq!(get_player_position(&five, 3), "Under The Gun (UTG)");
    assert_eq!(get_player_position(&five, 4), "UTG+1");
}

#[test]
fn new_tables_name_and_fund_every_seat() {
    let g = Game::new(2, 3, BotDifficulty::Hard, 250, None, "Alice".to_string());
    let names: Vec<&str> = g.players.iter().map(|p| p.name.as_str()).collect();
    assert_eq!(names, vec!["Alice", "Player 2", "Bot 1", "Bot 2", "Bot 3"]);
    assert!(g.players.iter().all(|p| p.chips == 250 && p.hand.is_empty() && !p.folded));
    assert_eq!(g.players.iter().filter(|p| p.is_bot).count(), 3);
    assert!(g.dealer_idx < 5);
    assert_eq!(g.small_blind_idx, (g.dealer_idx + 1) % 5);
    assert_eq!(g.big_blind_idx, (g.dealer_idx + 2) % 5);
    assert_eq!(g.deck.len(), 52);
    assert_eq!(g.pot, 0);
    assert_eq!(g.min_bet, 10);
    assert_eq!(g.round, Round::PreFlop);
    assert_eq!(g.player_contributions_this_round, vec![0; 5]);
}

#[test]
fn chips_plus_pot_stay_constant_through_a_hand() {
    let mut g = Game::new_with_dealer(1, 3, BotDifficulty::Easy, 100, None, "Alice".to_string(), 3);
    g.deal_cards();
    assert_eq!(money(&g), 400);
    assert_eq!(g.pot, 4 + 5 + 10);
    let actions = [
        GameAction::Raise(30), GameAction::Call, GameAction::Check, GameAction::Fold,
        GameAction::Call, GameAction::Check, GameAction::Raise(15), GameAction::Call,
        GameAction::Raise(500), GameAction::Call, GameAction::Check, GameAction::Check,
    ];
    let mut pot = g.pot;
    let mut round = g.round;
    for a in actions.iter() {
        if g.round == Round::Showdown {
            break;
        }
        g.perform_action(*a);
        assert_eq!(money(&g), 400);
        assert!(g.pot >= pot);
        pot = g.pot;
        let contributions: u64 = g.player_contributions_this_round.iter().map(|x| *x as u64).sum();
        assert!(contributions <= g.pot as u64);
        g.next_player();
        assert_eq!(money(&g), 400);
        assert_eq!(g.pot, pot);
        if g.round != round && g.round != Round::Showdown {
            assert!(g.players.iter().all(|p| p.current_bet == 0));
            round = g.round;
        }
    }
    let before = g.pot;
    let (w, amount, _) = g.determine_winner();
    assert_eq!(amount, before);
    assert_eq!(g.pot, 0);
    assert!(!g.players[w].folded);
    assert_eq!(money(&g), 400);
}

#[test]
fn everyone_calling_closes_the_round_in_one_turn_each() {
    let mut g = Game::new_with_dealer(1, 2, BotDifficulty::Easy, 100, None, "Alice".to_string(), 2);
    g.deal_cards();
    assert_eq!(g.current_player_idx, 0);
    assert_eq!(g.perform_action(GameAction::Call), (GameAction::Call, Some(10)));
    assert!(g.next_player());
    assert_eq!(g.perform_action(GameAction::Check), (GameAction::Call, Some(10)));
    assert!(g.next_player());
    assert_eq!(g.round, Round::PreFlop);
    assert_eq!(g.perform_action(GameAction::Call), (GameAction::Check, Some(10)));
    assert!(g.next_player());
    assert_eq!(g.round, Round::Flop);
    assert_eq!(g.community_cards.len(), 3);
    assert_eq!(g.current_player_idx, 2);
    assert_eq!(g.pot, 33);
}

#[test]
fn too_many_actions_force_the_round_to_end() {
    let mut g = Game::new_with_dealer(1, 2, BotDifficulty::Easy, 100, None, "Alice".to_string(), 2);
    g.deal_cards();
    g.perform_action(GameAction::Raise(40));
    g.last_action_count = 8;
    assert!(g.next_player());
    assert_eq!(g.round, Round::PreFlop);
    g.last_action_count = 9;
    assert!(g.next_player());
    assert_eq!(g.round, Round::Flop);
    assert_eq!(g.last_action_count, 0);
}

#[test]
fn turn_skips_folded_and_all_in_players() {
    let mut g = Game::new_with_dealer(1, 4, BotDifficulty::Easy, 100, None, "Alice".to_string(), 0);
    g.players[2].folded = true;
    g.players[3].chips = 0;
    assert_eq!(g.find_next_active_player(1), 4);
    assert_eq!(g.find_next_active_player(4), 0);
    for p in g.players.iter_mut() {
        p.folded = true;
    }
    assert_eq!(g.find_next_active_player(3), 3);
}
