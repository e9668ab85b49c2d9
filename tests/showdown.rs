use holdem::cards::{Card, Rank, Suit};
use holdem::bot::advisory_action;
use holdem::game::{BotDifficulty, Game, GameAction, Round};

fn c(rank: Rank, suit: Suit) -> Card {
    Card { rank, suit }
}

fn table(n: usize) -> Game {
    Game::new_with_dealer(1, n - 1, BotDifficulty::Easy, 100, None, "Alice".to_string(), 0)
}

fn showdown(hands: Vec<Vec<Card>>, board: Vec<Card>, pot: u32) -> Game {
    let mut g = table(hands.len());
    for (i, h) in hands.into_iter().enumerate() {
        g.players[i].hand = h;
    }
    g.community_cards = board;
    g.pot = pot;
    g.round = Round::Showdown;
    g
}

fn dry_board() -> Vec<Card> {
    vec![
        c(Rank::Two, Suit::Hearts), c(Rank::Seven, Suit::Diamonds), c(Rank::Nine, Suit::Clubs),
        c(Rank::Jack, Suit::Spades), c(Rank::Four, Suit::Hearts),
    ]
}

#[test]
fn suited_flush_beats_trips_and_names_the_suit() {
    let mut g = showdown(
        vec![
            vec![c(Rank::Ace, Suit::Hearts), c(Rank::King, Suit::Hearts)],
            vec![c(Rank::Queen, Suit::Spades), c(Rank::Queen, Suit::Clubs)],
            vec![c(Rank::Three, Suit::Spades), c(Rank::Eight, Suit::Clubs)],
        ],
        vec![
            c(Rank::Two, Suit::Hearts), c(Rank::Seven, Suit::Hearts), c(Rank::Nine, Suit::Hearts),
            c(Rank::Queen, Suit::Diamonds), c(Rank::Three, Suit::Clubs),
        ],
        60,
    );
    g.players[2].folded = true;
    let (w, amount, text) = g.determine_winner();
    assert_eq!(w, 0);
    assert_eq!(amount, 60);
    assert_eq!(text, "Flush (Hearts) with [A♥] [K♥]");
    assert_eq!(g.players[0].chips, 160);
    assert_eq!(g.pot, 0);
}

#[test]
fn pocket_pair_is_named_by_rank() {
    let mut g = showdown(
        vec![
            vec![c(Rank::King, Suit::Spades), c(Rank::Queen, Suit::Clubs)],
            vec![c(Rank::Ace, Suit::Spades), c(Rank::Ace, Suit::Diamonds)],
        ],
        dry_board(),
        40,
    );
    let (w, amount, text) = g.determine_winner();
    assert_eq!((w, amount), (1, 40));
    assert_eq!(text, "Pair of As with [A♠] [A♦]");
}

#[test]
fn equal_hands_go_to_the_earlier_seat() {
    let mut g = showdown(
        vec![
            vec![c(Rank::Ace, Suit::Spades), c(Rank::King, Suit::Diamonds)],
            vec![c(Rank::Ace, Suit::Diamonds), c(Rank::King, Suit::Spades)],
        ],
        dry_board(),
        20,
    );
    let (w, _, text) = g.determine_winner();
    assert_eq!(w, 0);
    assert_eq!(text, "High Card with [A♠] [K♦]");
}

#[test]
fn hole_cards_alone_are_ranked_without_a_board() {
    let mut g = showdown(
        vec![
            vec![c(Rank::King, Suit::Spades), c(Rank::Queen, Suit::Clubs)],
            vec![c(Rank::Five, Suit::Spades), c(Rank::Five, Suit::Diamonds)],
        ],
        Vec::new(),
        20,
    );
    let (w, _, text) = g.determine_winner();
    assert_eq!(w, 1);
    assert_eq!(text, "Pair");
}

#[test]
fn last_player_standing_wins_without_evaluation() {
    let mut g = showdown(vec![Vec::new(), Vec::new(), Vec::new()], Vec::new(), 30);
    g.players[0].folded = true;
    g.players[2].folded = true;
    let (w, amount, text) = g.determine_winner();
    assert_eq!((w, amount), (1, 30));
    assert_eq!(text, "by default (others folded)");

    let mut g = showdown(
        vec![vec![c(Rank::Two, Suit::Spades), c(Rank::Three, Suit::Clubs)], vec![c(Rank::Ace, Suit::Spades), c(Rank::Ace, Suit::Hearts)]],
        Vec::new(),
        30,
    );
    g.players[1].folded = true;
    let (w, _, text) = g.determine_winner();
    assert_eq!(w, 0);
    assert_eq!(text, "with their hole cards (others folded)");
}

#[test]
fn short_all_in_winner_takes_the_whole_pot() {
    let mut g = showdown(
        vec![
            vec![c(Rank::Ace, Suit::Spades), c(Rank::Ace, Suit::Diamonds)],
            vec![c(Rank::King, Suit::Spades), c(Rank::Queen, Suit::Clubs)],
            vec![c(Rank::Three, Suit::Spades), c(Rank::Eight, Suit::Clubs)],
        ],
        dry_board(),
        300,
    );
    g.players[0].chips = 0;
    let (w, amount, _) = g.determine_winner();
    assert_eq!((w, amount), (0, 300));
    assert_eq!(g.players[0].chips, 300);
}

#[test]
fn short_stacks_post_what_they_have() {
    let mut g = Game::new_with_dealer(1, 2, BotDifficulty::Easy, 100, None, "Alice".to_string(), 2);
    g.players[1].chips = 3;
    g.players[2].chips = 8;
    g.deal_cards();
    assert_eq!((g.small_blind_idx, g.big_blind_idx), (1, 2));
    assert_eq!(g.players[1].chips, 0);
    assert_eq!(g.players[1].current_bet, 2);
    assert_eq!(g.players[2].chips, 0);
    assert_eq!(g.players[2].current_bet, 7);
    assert_eq!(g.players[0].chips, 99);
    assert_eq!(g.player_contributions_this_round, vec![1, 3, 8]);
    assert_eq!(g.pot, 12);
    assert!(g.players.iter().all(|p| p.hand.len() == 2));
    assert_eq!(g.deck.len(), 46);
}

#[test]
fn rounds_bring_the_board_to_size_and_the_showdown_starts_a_new_hand() {
    let mut g = Game::new_with_dealer(1, 3, BotDifficulty::Easy, 100, None, "Alice".to_string(), 0);
    g.deal_cards();
    let mut sizes = Vec::new();
    for _ in 0..4 {
        g.next_round();
        sizes.push((g.round, g.community_cards.len()));
        assert!(g.players.iter().all(|p| p.current_bet == 0));
        assert!(g.players_acted_this_round.is_empty());
        assert_eq!(g.last_aggressor, None);
    }
    assert_eq!(sizes, vec![(Round::Flop, 3), (Round::Turn, 4), (Round::River, 5), (Round::Showdown, 5)]);
    assert_eq!(g.pot, 19);
    let board = g.community_cards.clone();
    let (_, amount, _) = g.determine_winner();
    assert_eq!(amount, 19);
    assert_eq!(g.community_cards, board);
    let dealer = g.dealer_idx;
    g.next_round();
    assert_eq!(g.round, Round::PreFlop);
    assert_eq!(g.community_cards.len(), 0);
    assert_eq!(g.dealer_idx, (dealer + 1) % 4);
    assert!(g.players.iter().all(|p| p.hand.len() == 2));
}

#[test]
fn flop_deal_is_redone_when_the_board_is_wrong() {
    let mut g = Game::new_with_dealer(1, 1, BotDifficulty::Easy, 100, None, "Alice".to_string(), 0);
    g.deal_cards();
    g.round = Round::Flop;
    g.community_cards.push(Card { rank: Rank::Ace, suit: Suit::Spades });
    g.deal_community_cards();
    assert_eq!(g.community_cards.len(), 3);
    g.round = Round::PreFlop;
    g.deal_community_cards();
    assert_eq!(g.community_cards.len(), 3);
}

#[test]
fn hand_is_over_once_one_player_is_left_at_showdown() {
    let mut g = Game::new_with_dealer(1, 2, BotDifficulty::Easy, 100, None, "Alice".to_string(), 0);
    g.deal_cards();
    g.players[0].folded = true;
    g.players[1].folded = true;
    assert!(g.next_player());
    assert_eq!(g.round, Round::Showdown);
    assert_eq!(g.community_cards.len(), 5);
    assert!(!g.next_player());
}

#[test]
fn short_deck_after_the_deal_is_replaced() {
    let mut g = Game::new_with_dealer(1, 8, BotDifficulty::Easy, 100, None, "Alice".to_string(), 0);
    g.deal_cards();
    assert_eq!(g.deck.len(), 34);
    g.refresh_short_deck();
    assert_eq!(g.deck.len(), 52);
    let mut small = Game::new_with_dealer(1, 2, BotDifficulty::Easy, 100, None, "Alice".to_string(), 0);
    small.deal_cards();
    let before = small.deck.clone();
    small.refresh_short_deck();
    assert_eq!(small.deck, before);
}

#[test]
fn missing_board_is_dealt_before_acting() {
    let mut g = Game::new_with_dealer(1, 2, BotDifficulty::Easy, 100, None, "Alice".to_string(), 0);
    g.deal_cards();
    g.ensure_board();
    assert_eq!(g.community_cards.len(), 0);
    g.round = Round::River;
    g.ensure_board();
    assert_eq!(g.community_cards.len(), 5);
    g.ensure_board();
    assert_eq!(g.community_cards.len(), 5);
}

#[test]
fn action_limit_is_past_twenty_five() {
    let mut g = Game::new_with_dealer(1, 2, BotDifficulty::Easy, 100, None, "Alice".to_string(), 0);
    g.last_action_count = 25;
    assert!(!g.over_action_limit());
    g.last_action_count = 26;
    assert!(g.over_action_limit());
}

#[test]
fn oversized_table_deals_what_the_deck_holds() {
    let mut g = Game::new_with_dealer(1, 29, BotDifficulty::Easy, 100, None, "Alice".to_string(), 0);
    g.deal_cards();
    let dealt: usize = g.players.iter().map(|p| p.hand.len()).sum();
    assert_eq!(dealt, 52);
    assert_eq!(g.deck.len(), 0);
    assert!(g.players.iter().all(|p| p.hand.len() <= 2));
    let chips: u64 = g.players.iter().map(|p| p.chips as u64).sum();
    assert_eq!(chips + g.pot as u64, 3000);
}

#[test]
fn advisory_replies_must_name_an_action() {
    assert_eq!(advisory_action("raise 30", 10), Some(GameAction::Raise(30)));
    assert_eq!(advisory_action("check", 10), Some(GameAction::Check));
    assert_eq!(advisory_action("fold.", 10), Some(GameAction::Fold));
    assert_eq!(advisory_action("I would fold", 10), None);
    assert_eq!(advisory_action("", 10), None);
}

#[test]
fn big_blind_gets_a_turn_before_the_flop() {
    let mut g = Game::new_with_dealer(1, 2, BotDifficulty::Easy, 100, None, "Alice".to_string(), 2);
    g.deal_cards();
    assert_eq!(g.perform_action(GameAction::Call).0, GameAction::Call);
    assert!(g.next_player());
    assert_eq!(g.perform_action(GameAction::Call).0, GameAction::Call);
    assert!(g.next_player());
    assert_eq!(g.round, Round::PreFlop);
    assert_eq!(g.current_player_idx, g.big_blind_idx);
    assert_eq!(g.perform_action(GameAction::Raise(10)), (GameAction::Raise(10), Some(20)));
    assert!(g.next_player());
    assert_eq!(g.round, Round::PreFlop);
    assert_eq!(g.current_player_idx, 0);
    assert_eq!(g.perform_action(GameAction::Call), (GameAction::Call, Some(20)));
    assert!(g.next_player());
    assert_eq!(g.current_player_idx, 1);
    assert_eq!(g.perform_action(GameAction::Call), (GameAction::Call, Some(20)));
    assert!(g.next_player());
    assert_eq!(g.round, Round::Flop);
    assert_eq!(g.pot, 63);
}

#[test]
fn earlier_board_cards_stay_when_the_round_moves_on() {
    let mut g = Game::new_with_dealer(1, 2, BotDifficulty::Easy, 100, None, "Alice".to_string(), 0);
    g.deal_cards();
    g.next_round();
    let flop = g.community_cards.clone();
    g.next_round();
    assert_eq!(g.community_cards[..3], flop[..]);
    let turn = g.community_cards.clone();
    g.next_round();
    assert_eq!(g.community_cards[..4], turn[..]);
    assert_eq!(g.community_cards.len(), 5);
}

#[test]
fn short_deck_still_gives_a_full_flop_on_redeal() {
    let mut g = Game::new_with_dealer(1, 1, BotDifficulty::Easy, 100, None, "Alice".to_string(), 0);
    g.deal_cards();
    g.round = Round::Flop;
    g.community_cards.push(Card { rank: Rank::Ace, suit: Suit::Spades });
    g.deck.truncate(5);
    g.deal_community_cards();
    assert_eq!(g.community_cards.len(), 3);
    g.round = Round::River;
    g.community_cards.truncate(1);
    g.deck.truncate(5);
    g.deal_community_cards();
    assert_eq!(g.community_cards.len(), 5);
}

#[test]
fn payout_leaves_bets_and_deck_alone() {
    let mut g = showdown(
        vec![
            vec![c(Rank::Ace, Suit::Spades), c(Rank::Ace, Suit::Diamonds)],
            vec![c(Rank::King, Suit::Spades), c(Rank::Queen, Suit::Clubs)],
        ],
        dry_board(),
        40,
    );
    g.players[0].current_bet = 20;
    g.players[1].current_bet = 20;
    let deck = g.deck.clone();
    g.determine_winner();
    assert_eq!(g.players[0].current_bet, 20);
    assert_eq!(g.players[1].current_bet, 20);
    assert_eq!(g.deck, deck);
}

#[test]
fn hand_is_over_at_showdown_or_past_the_limit() {
    let mut g = Game::new_with_dealer(1, 2, BotDifficulty::Easy, 100, None, "Alice".to_string(), 0);
    assert!(!g.hand_over(true));
    assert!(g.hand_over(false));
    g.round = Round::Showdown;
    assert!(g.hand_over(true));
    g.round = Round::Turn;
    g.last_action_count = 26;
    assert!(g.hand_over(true));
}
